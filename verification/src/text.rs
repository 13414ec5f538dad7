//! Character and string plumbing: moving between `&str`/`String` and
//! `Vec<char>`, the character-level workhorses the engine runs on, and the
//! few standard-library character operations the engine takes on trust.

use vstd::prelude::*;
use vstd::string::StrSliceExecFns;

verus! {

/// What `char::to_lowercase` yields as its first character: a function of
/// the character alone.
pub uninterp spec fn lower_char(c: char) -> char;

/// Whether `char::is_alphanumeric` accepts the character: a function of the
/// character alone.
pub uninterp spec fn alphanumeric(c: char) -> bool;

/// Relies on `char::to_lowercase`: its result depends on the character
/// alone; ASCII letters `A`..`Z` map to `a`..`z`, and other ASCII
/// characters have no lowercase mapping and come back unchanged.
#[verifier::external_body]
pub fn to_lower_char(c: char) -> (r: char)
    ensures
        r == lower_char(c),
        65 <= (c as int) <= 90 ==> (r as int) == (c as int) + 32,
        (c as int) < 65 ==> r == c,
        90 < (c as int) < 128 ==> r == c,
{
    c.to_lowercase().next().unwrap()
}

/// Relies on `char::is_alphanumeric`: its result depends on the character
/// alone; ASCII letters and digits are alphanumeric, other ASCII
/// characters are not.
#[verifier::external_body]
pub fn char_is_alphanumeric(c: char) -> (r: bool)
    ensures
        r == alphanumeric(c),
        48 <= (c as int) <= 57 ==> r,
        65 <= (c as int) <= 90 ==> r,
        97 <= (c as int) <= 122 ==> r,
        (c as int) < 48 ==> !r,
        57 < (c as int) < 65 ==> !r,
        90 < (c as int) < 97 ==> !r,
        122 < (c as int) < 128 ==> !r,
{
    c.is_alphanumeric()
}

/// Relies on `String::push`: appends the one character to the string.
#[verifier::external_body]
pub fn push_char(s: &mut String, c: char)
    ensures
        final(s)@ == old(s)@.push(c),
{
    s.push(c)
}

/// The characters of a string slice, as a vector.
pub fn chars_of(s: &str) -> (v: Vec<char>)
    ensures
        v@ == s@,
{
    let n: usize = s.unicode_len();
    let mut v: Vec<char> = Vec::new();
    let mut i: usize = 0;
    while i < n
        invariant
            n == s@.len(),
            i <= n,
            v@ == s@.subrange(0, i as int),
        decreases n - i,
    {
        v.push(s.get_char(i));
        proof {
            assert(v@ =~= s@.subrange(0, i as int + 1));
        }
        i = i + 1;
    }
    proof {
        assert(v@ =~= s@);
    }
    v
}

/// A string holding exactly the given characters.
pub fn string_of(v: &Vec<char>) -> (s: String)
    ensures
        s@ == v@,
{
    let mut s = String::new();
    let mut i: usize = 0;
    while i < v.len()
        invariant
            i <= v@.len(),
            s@ == v@.subrange(0, i as int),
        decreases v@.len() - i,
    {
        push_char(&mut s, v[i]);
        proof {
            assert(s@ =~= v@.subrange(0, i as int + 1));
        }
        i = i + 1;
    }
    proof {
        assert(s@ =~= v@);
    }
    s
}

/// Whether the vector holds the character.
pub fn contains_char(v: &Vec<char>, c: char) -> (r: bool)
    ensures
        r == v@.contains(c),
{
    let mut i: usize = 0;
    while i < v.len()
        invariant
            i <= v@.len(),
            forall|k: int| 0 <= k < i ==> v@[k] != c,
        decreases v@.len() - i,
    {
        if v[i] == c {
            return true;
        }
        i = i + 1;
    }
    false
}

/// Appends every character of `src` to `dst`.
pub fn extend_chars(dst: &mut Vec<char>, src: &Vec<char>)
    ensures
        final(dst)@ == old(dst)@ + src@,
{
    let mut i: usize = 0;
    while i < src.len()
        invariant
            i <= src@.len(),
            dst@ == old(dst)@ + src@.subrange(0, i as int),
        decreases src@.len() - i,
    {
        dst.push(src[i]);
        proof {
            assert(dst@ =~= old(dst)@ + src@.subrange(0, i as int + 1));
        }
        i = i + 1;
    }
    proof {
        assert(dst@ =~= old(dst)@ + src@);
    }
}

/// Whether `text` carries exactly `pat` starting at `start`.
pub fn slice_eq_at(text: &Vec<char>, start: usize, pat: &Vec<char>) -> (r: bool)
    requires
        start + pat@.len() <= text@.len(),
    ensures
        r == (text@.subrange(start as int, start as int + pat@.len() as int) == pat@),
{
    let n: usize = text.len();
    let mut i: usize = 0;
    while i < pat.len()
        invariant
            n == text@.len(),
            start + pat@.len() <= text@.len(),
            i <= pat@.len(),
            forall|k: int| 0 <= k < i ==> text@[start + k] == pat@[k],
        decreases pat@.len() - i,
    {
        if text[start + i] != pat[i] {
            proof {
                assert(text@.subrange(start as int, start as int + pat@.len() as int)[i as int]
                    != pat@[i as int]);
            }
            return false;
        }
        i = i + 1;
    }
    proof {
        assert(text@.subrange(start as int, start as int + pat@.len() as int) =~= pat@);
    }
    true
}

} // verus!
