//! Text utilities around the engine: whitespace normalization, the script
//! normalizer (ligature joining and zero-width-character cleanup), backspace
//! correction, and the fixed ASCII character classifications.

use vstd::prelude::*;
use vstd::string::StringExecFns;
use crate::text::{lower_char, alphanumeric, to_lower_char, char_is_alphanumeric, chars_of,
    string_of};

verus! {

/// The conjunct-forming mark (hasant): two consonants around it render as a
/// ligature.
pub const HASANT: char = '\u{09CD}';

/// Zero-width joiner.
pub const ZWJ: char = '\u{200D}';

/// Zero-width non-joiner.
pub const ZWNJ: char = '\u{200C}';

/// The whitespace characters: exactly the code points with the Unicode
/// `White_Space` property.
pub open spec fn is_space_char(c: char) -> bool {
    ||| (9 <= (c as int) <= 13)
    ||| c == ' '
    ||| (c as int) == 0x85
    ||| (c as int) == 0xA0
    ||| (c as int) == 0x1680
    ||| (0x2000 <= (c as int) <= 0x200A)
    ||| (c as int) == 0x2028
    ||| (c as int) == 0x2029
    ||| (c as int) == 0x202F
    ||| (c as int) == 0x205F
    ||| (c as int) == 0x3000
}

/// Every run of whitespace collapsed to a single space: of each run only
/// its last character stays, rewritten as a plain space.
pub open spec fn collapse_spec(s: Seq<char>) -> Seq<char>
    decreases s.len(),
{
    if s.len() == 0 {
        Seq::empty()
    } else {
        let rest = collapse_spec(s.drop_first());
        if is_space_char(s[0]) {
            if s.len() >= 2 && is_space_char(s[1]) {
                rest
            } else {
                seq![' '] + rest
            }
        } else {
            seq![s[0]] + rest
        }
    }
}

pub open spec fn strip_leading_space(s: Seq<char>) -> Seq<char> {
    if s.len() > 0 && s[0] == ' ' {
        s.drop_first()
    } else {
        s
    }
}

pub open spec fn strip_trailing_space(s: Seq<char>) -> Seq<char> {
    if s.len() > 0 && s.last() == ' ' {
        s.drop_last()
    } else {
        s
    }
}

/// Whitespace runs collapsed to single spaces, then leading and trailing
/// whitespace removed.
pub open spec fn normalize_spec(s: Seq<char>) -> Seq<char> {
    strip_trailing_space(strip_leading_space(collapse_spec(s)))
}

/// The consonants (and the nukta mark) that a zero-width character may
/// never directly precede.
pub open spec fn blocks_zw(c: char) -> bool {
    ||| (0x995 <= (c as int) <= 0x9A8)
    ||| (0x9AA <= (c as int) <= 0x9B0)
    ||| (c as int) == 0x9B2
    ||| (0x9B6 <= (c as int) <= 0x9B9)
    ||| (c as int) == 0x9BC
}

/// Whether the character counts as a mark for ligature joining: the
/// conjunct mark itself, or a zero-width character already controlling the
/// join.
pub open spec fn join_mark(c: char) -> bool {
    c == HASANT || c == ZWJ || c == ZWNJ
}

/// The ligature-join pass: wherever the conjunct mark is immediately
/// followed by a non-mark character, a zero-width joiner is inserted
/// between them.
pub open spec fn ligature_spec(s: Seq<char>) -> Seq<char>
    decreases s.len(),
{
    if s.len() == 0 {
        Seq::empty()
    } else {
        let rest = ligature_spec(s.drop_first());
        if s[0] == HASANT && s.len() >= 2 && !join_mark(s[1]) {
            seq![HASANT, ZWJ] + rest
        } else {
            seq![s[0]] + rest
        }
    }
}

/// Whether the character is a zero-width joiner or non-joiner.
pub open spec fn zw_char(c: char) -> bool {
    c == ZWJ || c == ZWNJ
}

/// Whether the text begins with zero or more zero-width characters and
/// then a blocking consonant: the shape in front of which a zero-width
/// character must not stand.
pub open spec fn run_blocked(s: Seq<char>) -> bool
    decreases s.len(),
{
    if s.len() == 0 {
        false
    } else if blocks_zw(s[0]) {
        true
    } else if zw_char(s[0]) {
        run_blocked(s.drop_first())
    } else {
        false
    }
}

/// One zero-width-cleanup pass: every occurrence of `zw` that stands
/// before a blocking consonant, with nothing but zero-width characters
/// between them, is removed. Taking whole runs at once keeps the pass
/// idempotent: what one sweep leaves behind, another sweep leaves alone.
pub open spec fn zw_clean_spec(s: Seq<char>, zw: char) -> Seq<char>
    decreases s.len(),
{
    if s.len() == 0 {
        Seq::empty()
    } else {
        let rest = zw_clean_spec(s.drop_first(), zw);
        if s[0] == zw && run_blocked(s.drop_first()) {
            rest
        } else {
            seq![s[0]] + rest
        }
    }
}

/// The whole script normalizer: ligature join, then zero-width joiner
/// cleanup, then zero-width non-joiner cleanup.
pub open spec fn script_normal_spec(s: Seq<char>) -> Seq<char> {
    zw_clean_spec(zw_clean_spec(ligature_spec(s), ZWJ), ZWNJ)
}

/// Whether the character is one of the ten ASCII vowels, either case.
pub open spec fn ascii_vowel(c: char) -> bool {
    c == 'a' || c == 'e' || c == 'i' || c == 'o' || c == 'u' || c == 'A' || c == 'E' || c == 'I'
        || c == 'O' || c == 'U'
}

/// Whether the lower-cased character is an ASCII letter that is not a
/// vowel.
pub open spec fn ascii_consonant(c: char) -> bool {
    let l = lower_char(c);
    (97 <= (l as int) <= 122 || 65 <= (l as int) <= 90) && !ascii_vowel(l)
}

/// Every non-alphanumeric character escaped with a backslash, so the text
/// can stand literally inside a larger match expression.
pub open spec fn escape_spec(s: Seq<char>) -> Seq<char>
    decreases s.len(),
{
    if s.len() == 0 {
        Seq::empty()
    } else {
        let rest = escape_spec(s.drop_first());
        if alphanumeric(s[0]) {
            seq![s[0]] + rest
        } else {
            seq!['\\', s[0]] + rest
        }
    }
}

/// What deleting one unit before `pos` leaves: the conjunct mark and its
/// companion go together, otherwise a single character goes.
pub open spec fn backspace_spec(s: Seq<char>, pos: int) -> (Seq<char>, int) {
    if pos == 0 || s.len() == 0 {
        (s, pos)
    } else if s[pos - 1] == HASANT && pos >= 2 {
        (s.take(pos - 2) + s.skip(pos), pos - 2)
    } else if pos >= 2 && s[pos - 2] == HASANT {
        (s.take(pos - 2) + s.skip(pos), pos - 2)
    } else {
        (s.take(pos - 1) + s.skip(pos), pos - 1)
    }
}

/// Whether the character is whitespace.
pub fn is_space(c: char) -> (r: bool)
    ensures
        r == is_space_char(c),
{
    let u = c as u32;
    (9 <= u && u <= 13) || u == 32 || u == 0x85 || u == 0xA0 || u == 0x1680 || (0x2000 <= u && u
        <= 0x200A) || u == 0x2028 || u == 0x2029 || u == 0x202F || u == 0x205F || u == 0x3000
}

fn is_blocking(c: char) -> (r: bool)
    ensures
        r == blocks_zw(c),
{
    let u = c as u32;
    (0x995 <= u && u <= 0x9A8) || (0x9AA <= u && u <= 0x9B0) || u == 0x9B2 || (0x9B6 <= u && u
        <= 0x9B9) || u == 0x9BC
}

/// Whether a blocking consonant follows position `i`, with nothing but
/// zero-width characters before it.
fn blocked_after(v: &Vec<char>, i: usize) -> (r: bool)
    requires
        i <= v@.len(),
    ensures
        r == run_blocked(v@.skip(i as int)),
{
    let n: usize = v.len();
    let mut j: usize = i;
    while j < n
        invariant
            n == v@.len(),
            i <= j <= n,
            run_blocked(v@.skip(i as int)) == run_blocked(v@.skip(j as int)),
        decreases n - j,
    {
        proof {
            assert(v@.skip(j as int).drop_first() =~= v@.skip(j as int + 1));
        }
        let c = v[j];
        if is_blocking(c) {
            return true;
        }
        if !(c == ZWJ || c == ZWNJ) {
            return false;
        }
        j = j + 1;
    }
    proof {
        assert(v@.skip(n as int) =~= Seq::<char>::empty());
    }
    false
}

/// Whether the character is one of the ten ASCII vowels, either case.
pub fn is_vowel(c: char) -> (r: bool)
    ensures
        r == ascii_vowel(c),
{
    c == 'a' || c == 'e' || c == 'i' || c == 'o' || c == 'u' || c == 'A' || c == 'E' || c == 'I'
        || c == 'O' || c == 'U'
}

/// Whether the character lower-cases to an ASCII letter that is not a
/// vowel.
pub fn is_consonant(c: char) -> (r: bool)
    ensures
        r == ascii_consonant(c),
{
    let l = to_lower_char(c);
    let u = l as u32;
    ((97 <= u && u <= 122) || (65 <= u && u <= 90)) && !is_vowel(l)
}

/// The text with every non-alphanumeric character escaped by a backslash.
pub fn fix_string_pattern(pattern: &str) -> (r: String)
    ensures
        r@ == escape_spec(pattern@),
{
    let v = chars_of(pattern);
    let n: usize = v.len();
    let mut out: Vec<char> = Vec::new();
    let mut i: usize = 0;
    proof {
        assert(v@.skip(0) =~= v@);
        assert(out@ + escape_spec(v@) =~= escape_spec(v@));
    }
    while i < n
        invariant
            n == v@.len(),
            i <= n,
            out@ + escape_spec(v@.skip(i as int)) == escape_spec(v@),
        decreases n - i,
    {
        proof {
            assert(v@.skip(i as int).drop_first() =~= v@.skip(i as int + 1));
        }
        let c = v[i];
        if char_is_alphanumeric(c) {
            out.push(c);
            proof {
                assert(out@ + escape_spec(v@.skip(i as int + 1)) =~= escape_spec(v@));
            }
        } else {
            out.push('\\');
            out.push(c);
            proof {
                assert(out@ + escape_spec(v@.skip(i as int + 1)) =~= escape_spec(v@));
            }
        }
        i = i + 1;
    }
    proof {
        assert(v@.skip(n as int) =~= Seq::<char>::empty());
        assert(out@ =~= escape_spec(v@));
    }
    string_of(&out)
}

/// The ligature-join pass over a character vector.
pub(crate) fn ligature_pass(v: &Vec<char>) -> (r: Vec<char>)
    ensures
        r@ == ligature_spec(v@),
{
    let n: usize = v.len();
    let mut out: Vec<char> = Vec::new();
    let mut i: usize = 0;
    proof {
        assert(v@.skip(0) =~= v@);
        assert(out@ + ligature_spec(v@) =~= ligature_spec(v@));
    }
    while i < n
        invariant
            n == v@.len(),
            i <= n,
            out@ + ligature_spec(v@.skip(i as int)) == ligature_spec(v@),
        decreases n - i,
    {
        proof {
            assert(v@.skip(i as int).drop_first() =~= v@.skip(i as int + 1));
        }
        let c = v[i];
        if c == HASANT && i + 1 < n && v[i + 1] != HASANT && v[i + 1] != ZWJ && v[i + 1] != ZWNJ {
            out.push(HASANT);
            out.push(ZWJ);
        } else {
            out.push(c);
        }
        proof {
            assert(out@ + ligature_spec(v@.skip(i as int + 1)) =~= ligature_spec(v@));
        }
        i = i + 1;
    }
    proof {
        assert(v@.skip(n as int) =~= Seq::<char>::empty());
        assert(out@ =~= ligature_spec(v@));
    }
    out
}

/// One zero-width-cleanup pass over a character vector.
pub(crate) fn zw_clean_pass(v: &Vec<char>, zw: char) -> (r: Vec<char>)
    ensures
        r@ == zw_clean_spec(v@, zw),
{
    let n: usize = v.len();
    let mut out: Vec<char> = Vec::new();
    let mut i: usize = 0;
    proof {
        assert(v@.skip(0) =~= v@);
        assert(out@ + zw_clean_spec(v@, zw) =~= zw_clean_spec(v@, zw));
    }
    while i < n
        invariant
            n == v@.len(),
            i <= n,
            out@ + zw_clean_spec(v@.skip(i as int), zw) == zw_clean_spec(v@, zw),
        decreases n - i,
    {
        proof {
            assert(v@.skip(i as int).drop_first() =~= v@.skip(i as int + 1));
        }
        let c = v[i];
        if c == zw && blocked_after(v, i + 1) {
            // removed
        } else {
            out.push(c);
        }
        proof {
            assert(out@ + zw_clean_spec(v@.skip(i as int + 1), zw) =~= zw_clean_spec(v@, zw));
        }
        i = i + 1;
    }
    proof {
        assert(v@.skip(n as int) =~= Seq::<char>::empty());
        assert(out@ =~= zw_clean_spec(v@, zw));
    }
    out
}

/// Inserts a zero-width joiner between the conjunct mark and a following
/// non-mark character, so rendering engines form the intended ligature.
pub fn handle_ligatures(text: &str) -> (r: String)
    ensures
        r@ == ligature_spec(text@),
{
    let v = chars_of(text);
    string_of(&ligature_pass(&v))
}

/// Diacritic-combination normalization: a declared extension point that
/// currently returns its input unchanged.
pub fn handle_matra(text: &str) -> (r: String)
    ensures
        r@ == text@,
{
    String::from_str(text)
}

/// Removes a zero-width joiner or non-joiner that stands immediately
/// before a blocking consonant.
pub fn handle_zero_width_chars(text: &str) -> (r: String)
    ensures
        r@ == zw_clean_spec(zw_clean_spec(text@, ZWJ), ZWNJ),
{
    let v = chars_of(text);
    let v = zw_clean_pass(&v, ZWJ);
    let v = zw_clean_pass(&v, ZWNJ);
    string_of(&v)
}

/// Removes what one backspace at `pos` should take: the conjunct mark
/// together with its companion character, or otherwise one character; the
/// new text and cursor position come back.
pub fn handle_backspace_correction(text: &str, cursor_pos: usize) -> (r: (String, usize))
    requires
        cursor_pos <= text@.len(),
    ensures
        (r.0@, r.1 as int) == backspace_spec(text@, cursor_pos as int),
{
    let v = chars_of(text);
    if cursor_pos == 0 || v.len() == 0 {
        return (string_of(&v), cursor_pos);
    }
    let current_char = v[cursor_pos - 1];
    if current_char == HASANT && cursor_pos >= 2 {
        (string_of(&splice_out(&v, cursor_pos - 2, cursor_pos)), cursor_pos - 2)
    } else if cursor_pos >= 2 && v[cursor_pos - 2] == HASANT {
        (string_of(&splice_out(&v, cursor_pos - 2, cursor_pos)), cursor_pos - 2)
    } else {
        (string_of(&splice_out(&v, cursor_pos - 1, cursor_pos)), cursor_pos - 1)
    }
}

/// The vector with the span `[a, b)` removed.
fn splice_out(v: &Vec<char>, a: usize, b: usize) -> (r: Vec<char>)
    requires
        a <= b <= v@.len(),
    ensures
        r@ == v@.take(a as int) + v@.skip(b as int),
{
    let n: usize = v.len();
    let mut out: Vec<char> = Vec::new();
    let mut i: usize = 0;
    while i < a
        invariant
            a <= b <= n == v@.len(),
            i <= a,
            out@ == v@.take(i as int),
        decreases a - i,
    {
        out.push(v[i]);
        proof {
            assert(out@ =~= v@.take(i as int + 1));
        }
        i = i + 1;
    }
    let mut j: usize = b;
    while j < n
        invariant
            a <= b <= n == v@.len(),
            b <= j <= n,
            out@ == v@.take(a as int) + v@.skip(b as int).take(j - b),
        decreases n - j,
    {
        out.push(v[j]);
        proof {
            assert(out@ =~= v@.take(a as int) + v@.skip(b as int).take(j + 1 - b));
        }
        j = j + 1;
    }
    proof {
        assert(v@.skip(b as int).take(n - b) =~= v@.skip(b as int));
        assert(out@ =~= v@.take(a as int) + v@.skip(b as int));
    }
    out
}

/// Collapses every run of whitespace to a single space and trims leading
/// and trailing whitespace.
pub fn normalize_input(text: &str) -> (r: String)
    ensures
        r@ == normalize_spec(text@),
{
    let v = chars_of(text);
    let n: usize = v.len();
    let mut out: Vec<char> = Vec::new();
    let mut i: usize = 0;
    proof {
        assert(v@.skip(0) =~= v@);
        assert(out@ + collapse_spec(v@) =~= collapse_spec(v@));
    }
    while i < n
        invariant
            n == v@.len(),
            i <= n,
            out@ + collapse_spec(v@.skip(i as int)) == collapse_spec(v@),
        decreases n - i,
    {
        proof {
            assert(v@.skip(i as int).drop_first() =~= v@.skip(i as int + 1));
        }
        let c = v[i];
        if is_space(c) {
            if i + 1 < n && is_space(v[i + 1]) {
                // the run goes on: drop this character
            } else {
                out.push(' ');
            }
        } else {
            out.push(c);
        }
        proof {
            assert(out@ + collapse_spec(v@.skip(i as int + 1)) =~= collapse_spec(v@));
        }
        i = i + 1;
    }
    proof {
        assert(v@.skip(n as int) =~= Seq::<char>::empty());
        assert(out@ =~= collapse_spec(v@));
    }
    let mut a: usize = 0;
    let mut b: usize = out.len();
    if b > 0 && out[0] == ' ' {
        a = 1;
    }
    if b > a && out[b - 1] == ' ' {
        b = b - 1;
    }
    let trimmed = copy_range(&out, a, b);
    proof {
        assert(trimmed@ =~= strip_trailing_space(strip_leading_space(out@)));
    }
    string_of(&trimmed)
}

/// The characters of the span `[a, b)`.
fn copy_range(v: &Vec<char>, a: usize, b: usize) -> (r: Vec<char>)
    requires
        a <= b <= v@.len(),
    ensures
        r@ == v@.subrange(a as int, b as int),
{
    let mut out: Vec<char> = Vec::new();
    let mut i: usize = a;
    while i < b
        invariant
            a <= b <= v@.len(),
            a <= i <= b,
            out@ == v@.subrange(a as int, i as int),
        decreases b - i,
    {
        out.push(v[i]);
        proof {
            assert(out@ =~= v@.subrange(a as int, i as int + 1));
        }
        i = i + 1;
    }
    out
}

} // verus!
