//! The conversion engine: case fixing, the greedy left-to-right pattern
//! matcher, the contextual rule evaluator, and the full pipeline from raw
//! text to converted text.

use vstd::prelude::*;
use crate::ruleset::{Ruleset, Pattern, Rule, Match, MatchSide, MatchScope};
use crate::text::{lower_char, to_lower_char, chars_of, string_of, contains_char, extend_chars,
    slice_eq_at};
use crate::utils::{normalize_spec, script_normal_spec, normalize_input, ligature_pass,
    zw_clean_pass, ZWJ, ZWNJ};

verus! {

/// Whether the character's lower-cased form is in the table's vowel set.
pub open spec fn vowel_spec(rs: Ruleset, c: char) -> bool {
    rs.vowel@.contains(lower_char(c))
}

/// Whether the character's lower-cased form is in the table's consonant set.
pub open spec fn consonant_spec(rs: Ruleset, c: char) -> bool {
    rs.consonant@.contains(lower_char(c))
}

/// Punctuation is whatever the table classifies as neither vowel nor
/// consonant.
pub open spec fn punctuation_spec(rs: Ruleset, c: char) -> bool {
    !vowel_spec(rs, c) && !consonant_spec(rs, c)
}

/// Case fixing: a character whose lower-cased form is a case-sensitive
/// exception keeps its case; every other character is lower-cased.
pub open spec fn fixcase_spec(rs: Ruleset, s: Seq<char>) -> Seq<char> {
    s.map_values(
        |c: char|
            if rs.casesensitive@.contains(lower_char(c)) {
                c
            } else {
                lower_char(c)
            },
    )
}

/// Whether the pattern's find key stands verbatim in `text` at `cur`.
pub open spec fn pattern_matches_at(p: Pattern, text: Seq<char>, cur: int) -> bool {
    &&& 0 <= cur
    &&& cur + p.find@.len() <= text.len()
    &&& text.subrange(cur, cur + p.find@.len() as int) == p.find@
}

/// The first pattern at or after position `k` of the table that matches at
/// `cur` and is of the asked class (`guarded`: carries rules), by declared
/// order.
pub open spec fn first_match_from(
    ps: Seq<Pattern>,
    text: Seq<char>,
    cur: int,
    guarded: bool,
    k: int,
) -> Option<int>
    decreases ps.len() - k,
{
    if k < 0 || k >= ps.len() {
        None
    } else if ((ps[k].rules is Some) == guarded) && pattern_matches_at(ps[k], text, cur) {
        Some(k)
    } else {
        first_match_from(ps, text, cur, guarded, k + 1)
    }
}

/// One contextual condition, evaluated over the span `[cur, cur_end)`.
pub open spec fn eval_match(rs: Ruleset, m: Match, text: Seq<char>, cur: int, cur_end: int) -> bool {
    let chk = if m.side is Prefix {
        if cur >= 1 {
            cur - 1
        } else {
            0
        }
    } else {
        cur_end
    };
    match m.scope {
        MatchScope::Punctuation => ((m.side is Suffix && chk >= text.len()) || (m.side is Prefix
            && chk < 1) || punctuation_spec(rs, text[chk])) != m.negative,
        MatchScope::Vowel => ((m.side is Suffix && chk < text.len()) || (m.side is Prefix && chk
            >= 1)) && (vowel_spec(rs, text[chk]) != m.negative),
        MatchScope::Consonant => ((m.side is Suffix && chk < text.len()) || (m.side is Prefix
            && chk >= 1)) && (consonant_spec(rs, text[chk]) != m.negative),
        MatchScope::Exact => match m.value {
            Some(v) => {
                let vlen = v@.len() as int;
                let es = if m.side is Prefix {
                    if cur - vlen >= 0 {
                        cur - vlen
                    } else {
                        0
                    }
                } else {
                    cur_end
                };
                let ee = if m.side is Prefix {
                    cur
                } else {
                    cur_end + vlen
                };
                // The window must end strictly before the text's end: a
                // window reaching exactly to the end never matches. That
                // boundary choice is part of the table-facing behaviour and
                // is kept as it stands.
                (ee < text.len() && text.subrange(es, ee) == v@) != m.negative
            },
            None => true,
        },
        MatchScope::Other => true,
    }
}

/// Whether every condition of the rule passes.
pub open spec fn rule_applies(rs: Ruleset, r: Rule, text: Seq<char>, cur: int, cur_end: int) -> bool {
    forall|j: int| 0 <= j < r.matches@.len() ==> eval_match(rs, r.matches@[j], text, cur, cur_end)
}

/// The replacement of the first rule at or after `k` whose every condition
/// passes, if any.
pub open spec fn rules_outcome_from(
    rs: Ruleset,
    rules: Seq<Rule>,
    text: Seq<char>,
    cur: int,
    cur_end: int,
    k: int,
) -> Option<Seq<char>>
    decreases rules.len() - k,
{
    if k < 0 || k >= rules.len() {
        None
    } else if rule_applies(rs, rules[k], text, cur, cur_end) {
        Some(rules[k].replace@)
    } else {
        rules_outcome_from(rs, rules, text, cur, cur_end, k + 1)
    }
}

/// What the matcher emits at position `cur`: the first matching direct
/// pattern's replacement; else the first matching rule-guarded pattern's
/// outcome (a qualifying rule's replacement, or the pattern's default);
/// else the character itself.
pub open spec fn step_emit(rs: Ruleset, text: Seq<char>, cur: int) -> Seq<char> {
    match first_match_from(rs.patterns@, text, cur, false, 0) {
        Some(i) => rs.patterns@[i].replace@,
        None => match first_match_from(rs.patterns@, text, cur, true, 0) {
            Some(i) => {
                let p = rs.patterns@[i];
                let cur_end = cur + p.find@.len() as int;
                match rules_outcome_from(rs, p.rules->0@, text, cur, cur_end, 0) {
                    Some(rep) => rep,
                    None => p.replace@,
                }
            },
            None => seq![text[cur]],
        },
    }
}

/// How far the matcher advances from `cur`: the matched find key's length,
/// and at least one.
pub open spec fn step_advance(rs: Ruleset, text: Seq<char>, cur: int) -> int {
    let l = match first_match_from(rs.patterns@, text, cur, false, 0) {
        Some(i) => rs.patterns@[i].find@.len() as int,
        None => match first_match_from(rs.patterns@, text, cur, true, 0) {
            Some(i) => rs.patterns@[i].find@.len() as int,
            None => 1,
        },
    };
    if l < 1 {
        1
    } else {
        l
    }
}

/// The matcher's whole output from position `cur` on: single-pass,
/// non-overlapping, greedy in declaration order.
pub open spec fn scan_spec(rs: Ruleset, text: Seq<char>, cur: int) -> Seq<char>
    decreases text.len() - cur,
{
    if cur < 0 || cur >= text.len() {
        Seq::empty()
    } else {
        let adv = step_advance(rs, text, cur);
        let next = if cur + adv > text.len() {
            text.len() as int
        } else {
            cur + adv
        };
        step_emit(rs, text, cur) + scan_spec(rs, text, next)
    }
}

/// The full pipeline: whitespace normalization, case fixing, the matcher,
/// then the script normalizer.
pub open spec fn parse_spec(rs: Ruleset, s: Seq<char>) -> Seq<char> {
    script_normal_spec(scan_spec(rs, fixcase_spec(rs, normalize_spec(s)), 0))
}

/// Whether the character counts as a vowel under the table.
pub fn is_vowel(rs: &Ruleset, c: char) -> (r: bool)
    ensures
        r == vowel_spec(*rs, c),
{
    contains_char(&rs.vowel, to_lower_char(c))
}

/// Whether the character counts as a consonant under the table.
pub fn is_consonant(rs: &Ruleset, c: char) -> (r: bool)
    ensures
        r == consonant_spec(*rs, c),
{
    contains_char(&rs.consonant, to_lower_char(c))
}

/// Whether the character counts as punctuation under the table: neither
/// vowel nor consonant.
pub fn is_punctuation(rs: &Ruleset, c: char) -> (r: bool)
    ensures
        r == punctuation_spec(*rs, c),
{
    !is_consonant(rs, c) && !is_vowel(rs, c)
}

/// Keeps the case of the case-sensitive exceptions and lower-cases every
/// other character.
pub fn fix_string_case(rs: &Ruleset, text: &str) -> (r: String)
    ensures
        r@ == fixcase_spec(*rs, text@),
{
    let v = chars_of(text);
    let n: usize = v.len();
    let mut out: Vec<char> = Vec::new();
    let mut i: usize = 0;
    while i < n
        invariant
            n == v@.len(),
            i <= n,
            out@.len() == i,
            forall|k: int| 0 <= k < i ==> out@[k] == (if rs.casesensitive@.contains(
                lower_char(v@[k]),
            ) {
                v@[k]
            } else {
                lower_char(v@[k])
            }),
        decreases n - i,
    {
        let c = v[i];
        let lc = to_lower_char(c);
        if contains_char(&rs.casesensitive, lc) {
            out.push(c);
        } else {
            out.push(lc);
        }
        i = i + 1;
    }
    proof {
        assert(out@ =~= fixcase_spec(*rs, v@));
    }
    string_of(&out)
}

/// Which pattern of the table matched at a position, if any.
pub struct MatchResult {
    pub matched: bool,
    pub index: usize,
}

/// The first pattern of the asked class matching at `cur`, scanning the
/// table in declared order.
fn find_pattern(rs: &Ruleset, fixed_text: &Vec<char>, cur: usize, guarded: bool) -> (res:
    MatchResult)
    ensures
        res.matched == (first_match_from(rs.patterns@, fixed_text@, cur as int, guarded, 0)
            is Some),
        res.matched ==> {
            &&& first_match_from(rs.patterns@, fixed_text@, cur as int, guarded, 0) == Some(
                res.index as int,
            )
            &&& res.index < rs.patterns@.len()
            &&& pattern_matches_at(rs.patterns@[res.index as int], fixed_text@, cur as int)
            &&& (rs.patterns@[res.index as int].rules is Some) == guarded
        },
{
    let n: usize = fixed_text.len();
    let m: usize = rs.patterns.len();
    let mut k: usize = 0;
    while k < m
        invariant
            n == fixed_text@.len(),
            m == rs.patterns@.len(),
            k <= m,
            first_match_from(rs.patterns@, fixed_text@, cur as int, guarded, 0) ==
                first_match_from(rs.patterns@, fixed_text@, cur as int, guarded, k as int),
        decreases m - k,
    {
        let p = &rs.patterns[k];
        let class_ok = p.rules.is_some() == guarded;
        let fits = cur <= n && p.find.len() <= n - cur;
        if class_ok && fits && slice_eq_at(fixed_text, cur, &p.find) {
            return MatchResult { matched: true, index: k };
        }
        proof {
            assert(!(((rs.patterns@[k as int].rules is Some) == guarded) && pattern_matches_at(
                rs.patterns@[k as int],
                fixed_text@,
                cur as int,
            )));
        }
        k = k + 1;
    }
    MatchResult { matched: false, index: 0 }
}

/// Looks for a direct (rule-free) pattern matching at `cur`.
pub fn match_non_rule_patterns(rs: &Ruleset, fixed_text: &Vec<char>, cur: usize) -> (res:
    MatchResult)
    ensures
        res.matched == (first_match_from(rs.patterns@, fixed_text@, cur as int, false, 0)
            is Some),
        res.matched ==> {
            &&& first_match_from(rs.patterns@, fixed_text@, cur as int, false, 0) == Some(
                res.index as int,
            )
            &&& res.index < rs.patterns@.len()
            &&& pattern_matches_at(rs.patterns@[res.index as int], fixed_text@, cur as int)
            &&& rs.patterns@[res.index as int].rules is None
        },
{
    find_pattern(rs, fixed_text, cur, false)
}

/// Looks for a rule-guarded pattern matching at `cur`.
pub fn match_rule_patterns(rs: &Ruleset, fixed_text: &Vec<char>, cur: usize) -> (res: MatchResult)
    ensures
        res.matched == (first_match_from(rs.patterns@, fixed_text@, cur as int, true, 0) is Some),
        res.matched ==> {
            &&& first_match_from(rs.patterns@, fixed_text@, cur as int, true, 0) == Some(
                res.index as int,
            )
            &&& res.index < rs.patterns@.len()
            &&& pattern_matches_at(rs.patterns@[res.index as int], fixed_text@, cur as int)
            &&& rs.patterns@[res.index as int].rules is Some
        },
{
    find_pattern(rs, fixed_text, cur, true)
}

/// One contextual condition, evaluated at the span `[cur, cur_end)`.
pub fn process_match(rs: &Ruleset, m: &Match, fixed_text: &Vec<char>, cur: usize, cur_end: usize)
    -> (r: bool)
    requires
        cur <= cur_end <= fixed_text@.len(),
    ensures
        r == eval_match(*rs, *m, fixed_text@, cur as int, cur_end as int),
{
    let n: usize = fixed_text.len();
    let is_prefix = match m.side {
        MatchSide::Prefix => true,
        MatchSide::Suffix => false,
    };
    let chk: usize = if is_prefix {
        if cur >= 1 {
            cur - 1
        } else {
            0
        }
    } else {
        cur_end
    };
    match m.scope {
        MatchScope::Punctuation => {
            let cond: bool = if (!is_prefix && chk >= n) || (is_prefix && chk < 1) {
                true
            } else {
                is_punctuation(rs, fixed_text[chk])
            };
            cond != m.negative
        },
        MatchScope::Vowel => {
            let in_bounds = (!is_prefix && chk < n) || (is_prefix && chk >= 1);
            if in_bounds {
                is_vowel(rs, fixed_text[chk]) != m.negative
            } else {
                false
            }
        },
        MatchScope::Consonant => {
            let in_bounds = (!is_prefix && chk < n) || (is_prefix && chk >= 1);
            if in_bounds {
                is_consonant(rs, fixed_text[chk]) != m.negative
            } else {
                false
            }
        },
        MatchScope::Exact => {
            match &m.value {
                Some(value) => {
                    let vlen: usize = value.len();
                    let window_hit: bool = if is_prefix {
                        if cur < n && vlen <= cur {
                            slice_eq_at(fixed_text, cur - vlen, value)
                        } else {
                            false
                        }
                    } else {
                        if vlen < n - cur_end {
                            slice_eq_at(fixed_text, cur_end, value)
                        } else {
                            false
                        }
                    };
                    proof {
                        let vlen_i = value@.len() as int;
                        let es = if m.side is Prefix {
                            if cur - vlen_i >= 0 {
                                cur - vlen_i
                            } else {
                                0
                            }
                        } else {
                            cur_end as int
                        };
                        let ee = if m.side is Prefix {
                            cur as int
                        } else {
                            cur_end + vlen_i
                        };
                        if m.side is Prefix && cur < n && vlen_i > cur {
                            assert(fixed_text@.subrange(es, ee).len() != value@.len());
                        }
                    }
                    window_hit != m.negative
                },
                None => true,
            }
        },
        MatchScope::Other => true,
    }
}

/// Whether every condition of the rule passes at the span.
fn rule_matches(rs: &Ruleset, r: &Rule, fixed_text: &Vec<char>, cur: usize, cur_end: usize) -> (b:
    bool)
    requires
        cur <= cur_end <= fixed_text@.len(),
    ensures
        b == rule_applies(*rs, *r, fixed_text@, cur as int, cur_end as int),
{
    let mut j: usize = 0;
    while j < r.matches.len()
        invariant
            cur <= cur_end <= fixed_text@.len(),
            j <= r.matches@.len(),
            forall|jj: int| 0 <= jj < j ==> eval_match(
                *rs,
                r.matches@[jj],
                fixed_text@,
                cur as int,
                cur_end as int,
            ),
        decreases r.matches@.len() - j,
    {
        if !process_match(rs, &r.matches[j], fixed_text, cur, cur_end) {
            return false;
        }
        j = j + 1;
    }
    true
}

/// Tries the rules in declared order; the first whose every condition
/// passes gives the replacement.
pub fn process_rules(
    rs: &Ruleset,
    rules: &Vec<Rule>,
    fixed_text: &Vec<char>,
    cur: usize,
    cur_end: usize,
) -> (res: Option<Vec<char>>)
    requires
        cur <= cur_end <= fixed_text@.len(),
    ensures
        match res {
            Some(v) => rules_outcome_from(
                *rs,
                rules@,
                fixed_text@,
                cur as int,
                cur_end as int,
                0,
            ) == Some(v@),
            None => rules_outcome_from(*rs, rules@, fixed_text@, cur as int, cur_end as int, 0)
                is None,
        },
{
    let mut k: usize = 0;
    while k < rules.len()
        invariant
            cur <= cur_end <= fixed_text@.len(),
            k <= rules@.len(),
            rules_outcome_from(*rs, rules@, fixed_text@, cur as int, cur_end as int, 0) ==
                rules_outcome_from(*rs, rules@, fixed_text@, cur as int, cur_end as int, k as int),
        decreases rules@.len() - k,
    {
        if rule_matches(rs, &rules[k], fixed_text, cur, cur_end) {
            let mut rep: Vec<char> = Vec::new();
            extend_chars(&mut rep, &rules[k].replace);
            proof {
                assert(rep@ =~= rules@[k as int].replace@);
            }
            return Some(rep);
        }
        k = k + 1;
    }
    None
}

/// All patterns of the given list whose find key stands at `cur`, as
/// indices into the list, in declared order.
pub open spec fn matching_indices_from(
    ps: Seq<Pattern>,
    text: Seq<char>,
    cur: int,
    k: int,
) -> Seq<int>
    decreases ps.len() - k,
{
    if k < 0 || k >= ps.len() {
        Seq::empty()
    } else if pattern_matches_at(ps[k], text, cur) {
        seq![k] + matching_indices_from(ps, text, cur, k + 1)
    } else {
        matching_indices_from(ps, text, cur, k + 1)
    }
}

/// The indices of every pattern in the list whose find key stands verbatim
/// at `cur`, in declared order.
pub fn exact_find_in_pattern(fixed_text: &Vec<char>, cur: usize, patterns: &Vec<Pattern>) -> (res:
    Vec<usize>)
    ensures
        res@.map_values(|u: usize| u as int) == matching_indices_from(
            patterns@,
            fixed_text@,
            cur as int,
            0,
        ),
{
    let n: usize = fixed_text.len();
    let m: usize = patterns.len();
    let mut res: Vec<usize> = Vec::new();
    let mut k: usize = 0;
    proof {
        assert(res@.map_values(|u: usize| u as int) + matching_indices_from(
            patterns@,
            fixed_text@,
            cur as int,
            0,
        ) =~= matching_indices_from(patterns@, fixed_text@, cur as int, 0));
    }
    while k < m
        invariant
            n == fixed_text@.len(),
            m == patterns@.len(),
            k <= m,
            res@.map_values(|u: usize| u as int) + matching_indices_from(
                patterns@,
                fixed_text@,
                cur as int,
                k as int,
            ) == matching_indices_from(patterns@, fixed_text@, cur as int, 0),
        decreases m - k,
    {
        let p = &patterns[k];
        let fits = cur <= n && p.find.len() <= n - cur;
        if fits && slice_eq_at(fixed_text, cur, &p.find) {
            res.push(k);
            proof {
                assert(res@.map_values(|u: usize| u as int) =~= res@.map_values(
                    |u: usize| u as int,
                ));
                assert(res@.map_values(|u: usize| u as int).drop_last() + seq![k as int]
                    =~= res@.map_values(|u: usize| u as int));
                assert(res@.map_values(|u: usize| u as int) + matching_indices_from(
                    patterns@,
                    fixed_text@,
                    cur as int,
                    k as int + 1,
                ) =~= matching_indices_from(patterns@, fixed_text@, cur as int, 0));
            }
        } else {
            proof {
                assert(!pattern_matches_at(patterns@[k as int], fixed_text@, cur as int));
            }
        }
        k = k + 1;
    }
    res
}

/// Converts the text: normalizes it, fixes its case, runs the greedy
/// matcher over it, and applies the script normalizer to the assembled
/// output.
pub fn parse_unicode(rs: &Ruleset, text: &str) -> (r: String)
    ensures
        r@ == parse_spec(*rs, text@),
{
    let normalized = normalize_input(text);
    let fixed = fix_string_case(rs, normalized.as_str());
    let chars = chars_of(fixed.as_str());
    let n: usize = chars.len();
    let mut out: Vec<char> = Vec::new();
    let mut cur: usize = 0;
    proof {
        assert(out@ + scan_spec(*rs, chars@, 0) =~= scan_spec(*rs, chars@, 0));
    }
    while cur < n
        invariant
            n == chars@.len(),
            cur <= n,
            out@ + scan_spec(*rs, chars@, cur as int) == scan_spec(*rs, chars@, 0),
        decreases n - cur,
    {
        let ghost scan_here = scan_spec(*rs, chars@, cur as int);
        let mr = match_non_rule_patterns(rs, &chars, cur);
        if mr.matched {
            let p = &rs.patterns[mr.index];
            extend_chars(&mut out, &p.replace);
            let flen: usize = p.find.len();
            let adv: usize = if flen == 0 {
                1
            } else {
                flen
            };
            proof {
                assert(step_emit(*rs, chars@, cur as int) == p.replace@);
                assert(cur + adv <= n);
                assert(scan_here == p.replace@ + scan_spec(*rs, chars@, cur as int + adv));
                assert(out@ + scan_spec(*rs, chars@, cur as int + adv) =~= scan_spec(
                    *rs,
                    chars@,
                    0,
                ));
            }
            cur = cur + adv;
        } else {
            let mr2 = match_rule_patterns(rs, &chars, cur);
            if mr2.matched {
                let p = &rs.patterns[mr2.index];
                let flen: usize = p.find.len();
                let cur_end: usize = cur + flen;
                match &p.rules {
                    Some(rules) => {
                        let replaced = process_rules(rs, rules, &chars, cur, cur_end);
                        match replaced {
                            Some(rep) => {
                                extend_chars(&mut out, &rep);
                            },
                            None => {
                                extend_chars(&mut out, &p.replace);
                            },
                        }
                    },
                    None => {
                        // A rule-guarded match always carries rules; this
                        // branch mirrors the defaulting shape and is dead.
                        proof {
                            assert(false);
                        }
                    },
                }
                let adv: usize = if flen == 0 {
                    1
                } else {
                    flen
                };
                proof {
                    assert(cur + adv <= n);
                    assert(scan_here == step_emit(*rs, chars@, cur as int) + scan_spec(
                        *rs,
                        chars@,
                        cur as int + adv,
                    ));
                    assert(out@ + scan_spec(*rs, chars@, cur as int + adv) =~= scan_spec(
                        *rs,
                        chars@,
                        0,
                    ));
                }
                cur = cur + adv;
            } else {
                out.push(chars[cur]);
                proof {
                    assert(step_emit(*rs, chars@, cur as int) =~= seq![chars@[cur as int]]);
                    assert(scan_here == step_emit(*rs, chars@, cur as int) + scan_spec(
                        *rs,
                        chars@,
                        cur as int + 1,
                    ));
                    assert(out@ + scan_spec(*rs, chars@, cur as int + 1) =~= scan_spec(
                        *rs,
                        chars@,
                        0,
                    ));
                }
                cur = cur + 1;
            }
        }
    }
    proof {
        assert(out@ =~= scan_spec(*rs, chars@, 0));
    }
    let joined = ligature_pass(&out);
    let cleaned = zw_clean_pass(&joined, ZWJ);
    let cleaned = zw_clean_pass(&cleaned, ZWNJ);
    string_of(&cleaned)
}

/// Converts the text; the flag selecting an alternate output encoding is
/// accepted and ignored, as the engine produces the canonical encoding
/// only.
pub fn parse_bangla(rs: &Ruleset, text: String, _bijoy: bool) -> (r: String)
    ensures
        r@ == parse_spec(*rs, text@),
{
    parse_unicode(rs, text.as_str())
}

/// Converts the text to the canonical encoding: the full pipeline.
pub fn to_unicode(rs: &Ruleset, text: &str) -> (r: String)
    ensures
        r@ == parse_spec(*rs, text@),
{
    parse_unicode(rs, text)
}

} // verus!
