//! String utilities: uppercase conversion and a palindrome check.

use vstd::prelude::*;
use vstd::string::StrSliceExecFns;

verus! {

/// Whether a character counts as alphanumeric; the meaning is that of
/// `char::is_alphanumeric` and depends on the character alone.
pub uninterp spec fn is_alnum(c: char) -> bool;

/// The lowercase form of a character sequence; the meaning is that of
/// `str::to_lowercase` and depends on the characters alone.
pub uninterp spec fn lower_of(s: Seq<char>) -> Seq<char>;

/// The uppercase form of a character sequence; the meaning is that of
/// `str::to_uppercase` and depends on the characters alone.
pub uninterp spec fn upper_of(s: Seq<char>) -> Seq<char>;

/// The alphanumeric characters of a sequence, in order.
pub open spec fn alnum_chars(s: Seq<char>) -> Seq<char> {
    s.filter(|c: char| is_alnum(c))
}

/// A sequence that reads the same in both directions.
pub open spec fn spec_palindrome(s: Seq<char>) -> bool {
    s == s.reverse()
}

/// Relies on `char::is_alphanumeric`: the result depends on the
/// character alone.
#[verifier::external_body]
fn char_is_alphanumeric(c: char) -> (r: bool)
    ensures
        r == is_alnum(c),
{
    c.is_alphanumeric()
}

/// Relies on `str::to_lowercase`: the result depends on the characters
/// alone.
#[verifier::external_body]
fn lower_chars(v: &Vec<char>) -> (r: Vec<char>)
    ensures
        r@ == lower_of(v@),
{
    let s: String = v.iter().collect();
    s.to_lowercase().chars().collect()
}

/// Converts a string to uppercase. Relies on `str::to_uppercase`: the
/// result depends on the characters alone.
#[verifier::external_body]
pub fn to_uppercase(s: &str) -> (r: String)
    ensures
        r@ == upper_of(s@),
{
    s.to_uppercase()
}

/// Appending one character keeps the alphanumeric ones in order.
proof fn lemma_alnum_push(s: Seq<char>, x: char)
    ensures
        alnum_chars(s.push(x)) == if is_alnum(x) {
            alnum_chars(s).push(x)
        } else {
            alnum_chars(s)
        },
{
    reveal(Seq::filter);
    assert(s.push(x).drop_last() =~= s);
}

/// Checks if a string is a palindrome: the sequence of its
/// alphanumeric characters, lowercased, reads the same in both
/// directions.
pub fn is_palindrome(s: &str) -> (r: bool)
    ensures
        r == spec_palindrome(lower_of(alnum_chars(s@))),
{
    let n = s.unicode_len();
    let mut cleaned: Vec<char> = Vec::new();
    let mut i: usize = 0;
    while i < n
        invariant
            i <= n,
            n == s@.len(),
            cleaned@ == alnum_chars(s@.subrange(0, i as int)),
        decreases n - i,
    {
        let c = s.get_char(i);
        proof {
            lemma_alnum_push(s@.subrange(0, i as int), s@[i as int]);
            assert(s@.subrange(0, i as int + 1) =~= s@.subrange(0, i as int).push(s@[i as int]));
        }
        if char_is_alphanumeric(c) {
            cleaned.push(c);
        }
        i += 1;
    }
    proof {
        assert(s@.subrange(0, n as int) =~= s@);
    }
    let lowered = lower_chars(&cleaned);
    let m = lowered.len();
    let mut j: usize = 0;
    while j < m
        invariant
            j <= m,
            m == lowered@.len(),
            lowered@ == lower_of(alnum_chars(s@)),
            forall|k: int| 0 <= k < j ==> #[trigger] lowered@[k] == lowered@[m - 1 - k],
        decreases m - j,
    {
        if lowered[j] != lowered[m - 1 - j] {
            proof {
                let t = lowered@;
                assert(t.reverse()[j as int] == t[m - 1 - j as int]);
                assert(t != t.reverse()) by {
                    if t == t.reverse() {
                        assert(t[j as int] == t.reverse()[j as int]);
                    }
                };
            }
            return false;
        }
        j += 1;
    }
    proof {
        let t = lowered@;
        assert(t =~= t.reverse()) by {
            assert(t.reverse().len() == t.len());
            assert forall|k: int| 0 <= k < t.len() implies t[k] == t.reverse()[k] by {
                assert(t[k] == t[t.len() - 1 - k]);
            };
        };
    }
    true
}

} // verus!
