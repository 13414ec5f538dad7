//! General properties of the engine, stated and proved once and for all:
//! determinism, the priority of direct patterns, the rule fallback, the
//! coverage of unmatched text, and the idempotence of the script
//! normalizer.

use vstd::prelude::*;
use crate::ruleset::{Ruleset, Pattern};
use crate::parser::{parse_spec, scan_spec, step_emit, step_advance, first_match_from,
    rules_outcome_from, fixcase_spec, pattern_matches_at};
use crate::utils::{normalize_spec, script_normal_spec, ligature_spec, zw_clean_spec,
    run_blocked, zw_char, collapse_spec, join_mark, blocks_zw, HASANT, ZWJ, ZWNJ};

verus! {

/// Determinism: conversion is a pure function of the table and the text —
/// identical inputs give identical outputs.
pub proof fn lemma_convert_deterministic(rs1: Ruleset, rs2: Ruleset, s1: Seq<char>, s2: Seq<char>)
    requires
        rs1 == rs2,
        s1 == s2,
    ensures
        parse_spec(rs1, s1) == parse_spec(rs2, s2),
{
}

/// Empty input yields empty output.
pub proof fn lemma_convert_empty(rs: Ruleset)
    ensures
        parse_spec(rs, Seq::<char>::empty()) == Seq::<char>::empty(),
{
    let e = Seq::<char>::empty();
    assert(collapse_spec(e) == e);
    assert(normalize_spec(e) == e);
    assert(fixcase_spec(rs, e) =~= e);
    assert(scan_spec(rs, e, 0) == e);
    assert(ligature_spec(e) == e);
    assert(zw_clean_spec(e, ZWJ) == e);
    assert(zw_clean_spec(e, ZWNJ) == e);
}

/// Priority: wherever any direct pattern matches, the matcher emits the
/// first direct match's default replacement — a rule-guarded pattern
/// matching the same position is never consulted — and, for a non-empty
/// find key, the cursor advances by exactly that key's length.
pub proof fn lemma_direct_priority(rs: Ruleset, text: Seq<char>, cur: int, j: int)
    requires
        0 <= j < rs.patterns@.len(),
        rs.patterns@[j].rules is Some,
        pattern_matches_at(rs.patterns@[j], text, cur),
        first_match_from(rs.patterns@, text, cur, false, 0) is Some,
    ensures
        step_emit(rs, text, cur) == rs.patterns@[first_match_from(
            rs.patterns@,
            text,
            cur,
            false,
            0,
        )->0].replace@,
        rs.patterns@[first_match_from(rs.patterns@, text, cur, false, 0)->0].find@.len() > 0
            ==> step_advance(rs, text, cur) == rs.patterns@[first_match_from(
            rs.patterns@,
            text,
            cur,
            false,
            0,
        )->0].find@.len(),
{
}

/// Rule fallback: a rule-guarded pattern whose every rule fails emits its
/// own default replacement — output is never skipped — and, for a
/// non-empty find key, the cursor advances by exactly that key's length.
pub proof fn lemma_rule_fallback(rs: Ruleset, text: Seq<char>, cur: int)
    requires
        first_match_from(rs.patterns@, text, cur, false, 0) is None,
        first_match_from(rs.patterns@, text, cur, true, 0) is Some,
        ({
            let i = first_match_from(rs.patterns@, text, cur, true, 0)->0;
            let p = rs.patterns@[i];
            rules_outcome_from(rs, p.rules->0@, text, cur, cur + p.find@.len(), 0) is None
        }),
    ensures
        step_emit(rs, text, cur) == rs.patterns@[first_match_from(
            rs.patterns@,
            text,
            cur,
            true,
            0,
        )->0].replace@,
        rs.patterns@[first_match_from(rs.patterns@, text, cur, true, 0)->0].find@.len() > 0
            ==> step_advance(rs, text, cur) == rs.patterns@[first_match_from(
            rs.patterns@,
            text,
            cur,
            true,
            0,
        )->0].find@.len(),
{
}

proof fn lemma_no_pattern_match(
    ps: Seq<Pattern>,
    text: Seq<char>,
    cur: int,
    guarded: bool,
    k: int,
)
    requires
        0 <= cur < text.len(),
        forall|j: int| 0 <= j < ps.len() ==> (#[trigger] ps[j].find@).len() > 0,
        forall|j: int| 0 <= j < ps.len() ==> !(#[trigger] ps[j].find@).contains(text[cur]),
    ensures
        first_match_from(ps, text, cur, guarded, k) is None,
    decreases ps.len() - k,
{
    if k < 0 || k >= ps.len() {
    } else {
        if pattern_matches_at(ps[k], text, cur) {
            assert(text.subrange(cur, cur + ps[k].find@.len() as int)[0] == text[cur]);
            assert(ps[k].find@[0] == text[cur]);
            assert(ps[k].find@.contains(text[cur]));
            assert(false);
        }
        lemma_no_pattern_match(ps, text, cur, guarded, k + 1);
    }
}

proof fn lemma_scan_verbatim(rs: Ruleset, text: Seq<char>, cur: int)
    requires
        0 <= cur <= text.len(),
        forall|j: int| 0 <= j < rs.patterns@.len() ==> (#[trigger] rs.patterns@[j].find@).len()
            > 0,
        forall|i: int, j: int| 0 <= i < text.len() && 0 <= j < rs.patterns@.len() ==> !(
        #[trigger] rs.patterns@[j].find@).contains(#[trigger] text[i]),
    ensures
        scan_spec(rs, text, cur) == text.skip(cur),
    decreases text.len() - cur,
{
    if cur >= text.len() {
        assert(text.skip(cur) =~= Seq::<char>::empty());
    } else {
        lemma_no_pattern_match(rs.patterns@, text, cur, false, 0);
        lemma_no_pattern_match(rs.patterns@, text, cur, true, 0);
        assert(step_emit(rs, text, cur) == seq![text[cur]]);
        assert(step_advance(rs, text, cur) == 1);
        lemma_scan_verbatim(rs, text, cur + 1);
        assert(scan_spec(rs, text, cur) == seq![text[cur]] + text.skip(cur + 1));
        assert(seq![text[cur]] + text.skip(cur + 1) =~= text.skip(cur));
    }
}

/// Coverage: when no character of the normalized, case-fixed text occurs
/// in any pattern's find key, and none of them is a mark the script
/// normalizer rewrites, conversion returns the text unchanged — modulo
/// the whitespace normalization and case folding themselves.
pub proof fn lemma_coverage(rs: Ruleset, s: Seq<char>)
    requires
        forall|j: int| 0 <= j < rs.patterns@.len() ==> (#[trigger] rs.patterns@[j].find@).len()
            > 0,
        forall|i: int, j: int|
            0 <= i < fixcase_spec(rs, normalize_spec(s)).len() && 0 <= j < rs.patterns@.len()
                ==> !(#[trigger] rs.patterns@[j].find@).contains(
                #[trigger] fixcase_spec(rs, normalize_spec(s))[i],
            ),
        forall|i: int| 0 <= i < fixcase_spec(rs, normalize_spec(s)).len() ==> !join_mark(
            #[trigger] fixcase_spec(rs, normalize_spec(s))[i],
        ),
    ensures
        parse_spec(rs, s) == fixcase_spec(rs, normalize_spec(s)),
{
    let fixed = fixcase_spec(rs, normalize_spec(s));
    lemma_scan_verbatim(rs, fixed, 0);
    assert(fixed.skip(0) =~= fixed);
    lemma_ligature_identity(fixed);
    lemma_zw_clean_identity(fixed, ZWJ);
    lemma_zw_clean_identity(fixed, ZWNJ);
}

proof fn lemma_ligature_identity(s: Seq<char>)
    requires
        forall|i: int| 0 <= i < s.len() ==> #[trigger] s[i] != HASANT,
    ensures
        ligature_spec(s) == s,
    decreases s.len(),
{
    if s.len() == 0 {
        assert(ligature_spec(s) =~= s);
    } else {
        lemma_ligature_identity(s.drop_first());
        assert(seq![s[0]] + s.drop_first() =~= s);
    }
}

proof fn lemma_zw_clean_identity(s: Seq<char>, zw: char)
    requires
        forall|i: int| 0 <= i < s.len() ==> #[trigger] s[i] != zw,
    ensures
        zw_clean_spec(s, zw) == s,
    decreases s.len(),
{
    if s.len() == 0 {
        assert(zw_clean_spec(s, zw) =~= s);
    } else {
        lemma_zw_clean_identity(s.drop_first(), zw);
        assert(seq![s[0]] + s.drop_first() =~= s);
    }
}

proof fn lemma_lig_head(s: Seq<char>)
    requires
        s.len() > 0,
    ensures
        ligature_spec(s).len() > 0,
        ligature_spec(s)[0] == s[0],
{
}

/// Cleaning one kind of zero-width character does not change whether the
/// text begins with a blocked run: removed characters were themselves part
/// of such a run.
proof fn lemma_run_blocked_clean(y: Seq<char>, zw: char)
    requires
        zw == ZWJ || zw == ZWNJ,
    ensures
        run_blocked(zw_clean_spec(y, zw)) == run_blocked(y),
    decreases y.len(),
{
    if y.len() == 0 {
    } else {
        let y1 = y.drop_first();
        lemma_run_blocked_clean(y1, zw);
        if y[0] == zw && run_blocked(y1) {
            assert(zw_clean_spec(y, zw) == zw_clean_spec(y1, zw));
            assert(run_blocked(y) == run_blocked(y1));
        } else {
            let w = zw_clean_spec(y, zw);
            assert(w == seq![y[0]] + zw_clean_spec(y1, zw));
            assert(w[0] == y[0]);
            assert(w.drop_first() =~= zw_clean_spec(y1, zw));
        }
    }
}

/// The ligature pass does not change whether the text begins with a
/// blocked run: it only inserts a joiner after a conjunct mark, and the
/// mark itself already ends any such run.
proof fn lemma_run_blocked_lig(y: Seq<char>)
    ensures
        run_blocked(ligature_spec(y)) == run_blocked(y),
    decreases y.len(),
{
    if y.len() == 0 {
    } else {
        let y1 = y.drop_first();
        lemma_run_blocked_lig(y1);
        let t = ligature_spec(y);
        if y[0] == HASANT && y.len() >= 2 && !join_mark(y[1]) {
            assert(t == seq![HASANT, ZWJ] + ligature_spec(y1));
            assert(t[0] == HASANT);
            assert(!blocks_zw(HASANT) && !zw_char(HASANT));
        } else {
            assert(t == seq![y[0]] + ligature_spec(y1));
            assert(t[0] == y[0]);
            assert(t.drop_first() =~= ligature_spec(y1));
        }
    }
}

/// Every conjunct mark in the text is followed by a mark or a blocking
/// consonant (or stands last).
pub open spec fn marks_joined(y: Seq<char>) -> bool {
    forall|i: int|
        0 <= i < y.len() - 1 ==> ((#[trigger] y[i]) == HASANT ==> join_mark(y[i + 1])
            || blocks_zw(y[i + 1]))
}

/// Every conjunct mark in the text is followed by a mark (or stands
/// last): the shape the ligature pass leaves behind.
pub open spec fn marks_tight(y: Seq<char>) -> bool {
    forall|i: int|
        0 <= i < y.len() - 1 ==> ((#[trigger] y[i]) == HASANT ==> join_mark(y[i + 1]))
}

/// No zero-width character of the given kind stands before a blocked run:
/// the shape the cleanup pass leaves behind.
pub open spec fn zw_cleaned(y: Seq<char>, zw: char) -> bool {
    forall|i: int|
        0 <= i < y.len() ==> ((#[trigger] y[i]) == zw ==> !run_blocked(y.skip(i + 1)))
}

proof fn lemma_marks_joined_drop(y: Seq<char>)
    requires
        y.len() > 0,
        marks_joined(y),
    ensures
        marks_joined(y.drop_first()),
{
    let y1 = y.drop_first();
    assert forall|i: int|
        0 <= i < y1.len() - 1 implies ((#[trigger] y1[i]) == HASANT ==> join_mark(y1[i + 1])
        || blocks_zw(y1[i + 1])) by {
        assert(y1[i] == y[i + 1]);
        assert(y1[i + 1] == y[i + 2]);
    }
}

proof fn lemma_zw_cleaned_drop(y: Seq<char>, zw: char)
    requires
        y.len() > 0,
        zw_cleaned(y, zw),
    ensures
        zw_cleaned(y.drop_first(), zw),
{
    let y1 = y.drop_first();
    assert forall|i: int|
        0 <= i < y1.len() implies ((#[trigger] y1[i]) == zw ==> !run_blocked(y1.skip(i + 1))) by {
        assert(y1[i] == y[i + 1]);
        assert(y1.skip(i + 1) =~= y.skip(i + 2));
    }
}

proof fn lemma_marks_joined_cons(c: char, u: Seq<char>)
    requires
        marks_joined(u),
        c == HASANT && u.len() > 0 ==> join_mark(u[0]) || blocks_zw(u[0]),
    ensures
        marks_joined(seq![c] + u),
{
    let t = seq![c] + u;
    assert forall|i: int|
        0 <= i < t.len() - 1 implies ((#[trigger] t[i]) == HASANT ==> join_mark(t[i + 1])
        || blocks_zw(t[i + 1])) by {
        if i == 0 {
            assert(t[1] == u[0]);
        } else {
            assert(t[i] == u[i - 1]);
            assert(t[i + 1] == u[i]);
        }
    }
}

proof fn lemma_marks_tight_cons(c: char, u: Seq<char>)
    requires
        marks_tight(u),
        c == HASANT && u.len() > 0 ==> join_mark(u[0]),
    ensures
        marks_tight(seq![c] + u),
{
    let t = seq![c] + u;
    assert forall|i: int|
        0 <= i < t.len() - 1 implies ((#[trigger] t[i]) == HASANT ==> join_mark(t[i + 1])) by {
        if i == 0 {
            assert(t[1] == u[0]);
        } else {
            assert(t[i] == u[i - 1]);
            assert(t[i + 1] == u[i]);
        }
    }
}

proof fn lemma_zw_cleaned_cons(c: char, u: Seq<char>, zw: char)
    requires
        zw_cleaned(u, zw),
        c == zw ==> !run_blocked(u),
    ensures
        zw_cleaned(seq![c] + u, zw),
{
    let t = seq![c] + u;
    assert forall|i: int|
        0 <= i < t.len() implies ((#[trigger] t[i]) == zw ==> !run_blocked(t.skip(i + 1))) by {
        if i == 0 {
            assert(t.skip(1) =~= u);
        } else {
            assert(t[i] == u[i - 1]);
            assert(t.skip(i + 1) =~= u.skip(i));
        }
    }
}

/// After the ligature pass every conjunct mark is followed by a mark.
proof fn lemma_lig_marks_tight(s: Seq<char>)
    ensures
        marks_tight(ligature_spec(s)),
    decreases s.len(),
{
    if s.len() == 0 {
        assert(marks_tight(ligature_spec(s)));
    } else {
        let s1 = s.drop_first();
        lemma_lig_marks_tight(s1);
        if s[0] == HASANT && s.len() >= 2 && !join_mark(s[1]) {
            lemma_marks_tight_cons(ZWJ, ligature_spec(s1));
            lemma_marks_tight_cons(HASANT, seq![ZWJ] + ligature_spec(s1));
            assert(ligature_spec(s) =~= seq![HASANT] + (seq![ZWJ] + ligature_spec(s1)));
        } else {
            if s[0] == HASANT && s1.len() > 0 {
                lemma_lig_head(s1);
                assert(ligature_spec(s1)[0] == s[1]);
                assert(join_mark(s[1]));
            }
            lemma_marks_tight_cons(s[0], ligature_spec(s1));
            assert(ligature_spec(s) == seq![s[0]] + ligature_spec(s1));
        }
    }
}

proof fn lemma_marks_tight_joined(y: Seq<char>)
    requires
        marks_tight(y),
    ensures
        marks_joined(y),
{
}

/// Cleaning a text that begins with a blocked run leaves a text that
/// begins with a blocking consonant or a mark.
proof fn lemma_clean_blocked_head(u: Seq<char>, zw: char)
    requires
        run_blocked(u),
        zw == ZWJ || zw == ZWNJ,
    ensures
        zw_clean_spec(u, zw).len() > 0,
        join_mark(zw_clean_spec(u, zw)[0]) || blocks_zw(zw_clean_spec(u, zw)[0]),
    decreases u.len(),
{
    let u1 = u.drop_first();
    if blocks_zw(u[0]) {
        assert(u[0] != zw);
        assert(zw_clean_spec(u, zw) == seq![u[0]] + zw_clean_spec(u1, zw));
    } else {
        assert(zw_char(u[0]) && run_blocked(u1));
        if u[0] == zw {
            assert(zw_clean_spec(u, zw) == zw_clean_spec(u1, zw));
            lemma_clean_blocked_head(u1, zw);
        } else {
            assert(zw_clean_spec(u, zw) == seq![u[0]] + zw_clean_spec(u1, zw));
            assert(join_mark(u[0]));
        }
    }
}

/// The cleanup pass keeps every conjunct mark joined: where it removes
/// the zero-width character after a mark, the blocking consonant that
/// caused the removal moves up behind the mark.
proof fn lemma_clean_marks_joined(y: Seq<char>, zw: char)
    requires
        marks_joined(y),
        zw == ZWJ || zw == ZWNJ,
    ensures
        marks_joined(zw_clean_spec(y, zw)),
    decreases y.len(),
{
    if y.len() == 0 {
    } else {
        let y1 = y.drop_first();
        lemma_marks_joined_drop(y);
        lemma_clean_marks_joined(y1, zw);
        if y[0] == zw && run_blocked(y1) {
            assert(zw_clean_spec(y, zw) == zw_clean_spec(y1, zw));
        } else {
            let u = zw_clean_spec(y1, zw);
            if y[0] == HASANT && u.len() > 0 {
                if y1.len() == 0 {
                    assert(u =~= Seq::<char>::empty());
                }
                assert(y1.len() > 0);
                assert(y[1] == y1[0]);
                assert(join_mark(y1[0]) || blocks_zw(y1[0]));
                if y1[0] == zw && run_blocked(y1.drop_first()) {
                    assert(u == zw_clean_spec(y1.drop_first(), zw));
                    lemma_clean_blocked_head(y1.drop_first(), zw);
                } else {
                    assert(u == seq![y1[0]] + zw_clean_spec(y1.drop_first(), zw));
                    assert(u[0] == y1[0]);
                }
            }
            lemma_marks_joined_cons(y[0], u);
            assert(zw_clean_spec(y, zw) == seq![y[0]] + u);
        }
    }
}

/// After one cleanup pass, no zero-width character of that kind stands
/// before a blocked run.
proof fn lemma_clean_zw_cleaned(y: Seq<char>, zw: char)
    requires
        zw == ZWJ || zw == ZWNJ,
    ensures
        zw_cleaned(zw_clean_spec(y, zw), zw),
    decreases y.len(),
{
    if y.len() == 0 {
        assert(zw_cleaned(zw_clean_spec(y, zw), zw));
    } else {
        let y1 = y.drop_first();
        lemma_clean_zw_cleaned(y1, zw);
        if y[0] == zw && run_blocked(y1) {
            assert(zw_clean_spec(y, zw) == zw_clean_spec(y1, zw));
        } else {
            let u = zw_clean_spec(y1, zw);
            if y[0] == zw {
                lemma_run_blocked_clean(y1, zw);
            }
            lemma_zw_cleaned_cons(y[0], u, zw);
            assert(zw_clean_spec(y, zw) == seq![y[0]] + u);
        }
    }
}

/// Cleaning one kind of zero-width character does not put the other kind
/// in front of a blocked run.
proof fn lemma_clean_preserves_other(y: Seq<char>, zw: char, zw2: char)
    requires
        zw_cleaned(y, zw),
        zw2 == ZWJ || zw2 == ZWNJ,
    ensures
        zw_cleaned(zw_clean_spec(y, zw2), zw),
    decreases y.len(),
{
    if y.len() == 0 {
    } else {
        let y1 = y.drop_first();
        lemma_zw_cleaned_drop(y, zw);
        lemma_clean_preserves_other(y1, zw, zw2);
        if y[0] == zw2 && run_blocked(y1) {
            assert(zw_clean_spec(y, zw2) == zw_clean_spec(y1, zw2));
        } else {
            let u = zw_clean_spec(y1, zw2);
            if y[0] == zw {
                assert(y.skip(1) =~= y1);
                assert(!run_blocked(y1));
                lemma_run_blocked_clean(y1, zw2);
            }
            lemma_zw_cleaned_cons(y[0], u, zw);
            assert(zw_clean_spec(y, zw2) == seq![y[0]] + u);
        }
    }
}

/// A text with no zero-width character of the given kind before a blocked
/// run is a fixed point of that cleanup pass.
proof fn lemma_clean_fixed(y: Seq<char>, zw: char)
    requires
        zw_cleaned(y, zw),
    ensures
        zw_clean_spec(y, zw) == y,
    decreases y.len(),
{
    if y.len() == 0 {
        assert(zw_clean_spec(y, zw) =~= y);
    } else {
        let y1 = y.drop_first();
        lemma_zw_cleaned_drop(y, zw);
        lemma_clean_fixed(y1, zw);
        if y[0] == zw {
            assert(y.skip(1) =~= y1);
            assert(!run_blocked(y1));
        }
        assert(zw_clean_spec(y, zw) == seq![y[0]] + zw_clean_spec(y1, zw));
        assert(seq![y[0]] + y1 =~= y);
    }
}

/// One cleanup pass of a kind is idempotent on every input.
pub proof fn lemma_clean_idempotent(y: Seq<char>, zw: char)
    requires
        zw == ZWJ || zw == ZWNJ,
    ensures
        zw_clean_spec(zw_clean_spec(y, zw), zw) == zw_clean_spec(y, zw),
{
    lemma_clean_zw_cleaned(y, zw);
    lemma_clean_fixed(zw_clean_spec(y, zw), zw);
}

/// A text whose every conjunct mark is followed by a mark is a fixed point
/// of the ligature pass.
proof fn lemma_lig_fixed(y: Seq<char>)
    requires
        marks_tight(y),
    ensures
        ligature_spec(y) == y,
    decreases y.len(),
{
    if y.len() == 0 {
        assert(ligature_spec(y) =~= y);
    } else {
        let y1 = y.drop_first();
        assert forall|i: int|
            0 <= i < y1.len() - 1 implies ((#[trigger] y1[i]) == HASANT ==> join_mark(
            y1[i + 1],
        )) by {
            assert(y1[i] == y[i + 1]);
            assert(y1[i + 1] == y[i + 2]);
        }
        lemma_lig_fixed(y1);
        if y[0] == HASANT && y.len() >= 2 {
            assert(join_mark(y[1]));
        }
        assert(ligature_spec(y) == seq![y[0]] + ligature_spec(y1));
        assert(seq![y[0]] + y1 =~= y);
    }
}

/// The ligature pass is idempotent on every input.
pub proof fn lemma_ligature_idempotent(s: Seq<char>)
    ensures
        ligature_spec(ligature_spec(s)) == ligature_spec(s),
{
    lemma_lig_marks_tight(s);
    lemma_lig_fixed(ligature_spec(s));
}

/// The whole zero-width cleanup (joiner pass, then non-joiner pass) is
/// idempotent on every input.
pub proof fn lemma_zw_cleanup_idempotent(s: Seq<char>)
    ensures
        zw_clean_spec(
            zw_clean_spec(zw_clean_spec(zw_clean_spec(s, ZWJ), ZWNJ), ZWJ),
            ZWNJ,
        ) == zw_clean_spec(zw_clean_spec(s, ZWJ), ZWNJ),
{
    let u = zw_clean_spec(s, ZWJ);
    let w = zw_clean_spec(u, ZWNJ);
    lemma_clean_zw_cleaned(s, ZWJ);
    lemma_clean_preserves_other(u, ZWJ, ZWNJ);
    lemma_clean_fixed(w, ZWJ);
    lemma_clean_idempotent(u, ZWNJ);
}

/// On a normalized text the ligature pass inserts a joiner only after a
/// conjunct mark standing directly before a blocking consonant, and the
/// joiner cleanup takes exactly that joiner out again.
proof fn lemma_lig_clean_fixed(y: Seq<char>)
    requires
        marks_joined(y),
        zw_cleaned(y, ZWJ),
    ensures
        zw_clean_spec(ligature_spec(y), ZWJ) == y,
    decreases y.len(),
{
    if y.len() == 0 {
    } else {
        let y1 = y.drop_first();
        lemma_marks_joined_drop(y);
        lemma_zw_cleaned_drop(y, ZWJ);
        lemma_lig_clean_fixed(y1);
        if y[0] == HASANT && y.len() >= 2 && !join_mark(y[1]) {
            assert(blocks_zw(y[1]));
            let t = ligature_spec(y);
            assert(t == seq![HASANT, ZWJ] + ligature_spec(y1));
            assert(t[0] == HASANT && t[0] != ZWJ);
            let t1 = t.drop_first();
            assert(t1 =~= seq![ZWJ] + ligature_spec(y1));
            assert(zw_clean_spec(t, ZWJ) == seq![t[0]] + zw_clean_spec(t1, ZWJ));
            lemma_lig_head(y1);
            assert(t1.drop_first() =~= ligature_spec(y1));
            lemma_run_blocked_lig(y1);
            assert(run_blocked(y1));
            assert(run_blocked(t1.drop_first()));
            assert(zw_clean_spec(t1, ZWJ) == zw_clean_spec(ligature_spec(y1), ZWJ));
            assert(zw_clean_spec(t, ZWJ) =~= y);
        } else {
            let t = ligature_spec(y);
            assert(t == seq![y[0]] + ligature_spec(y1));
            assert(t.drop_first() =~= ligature_spec(y1));
            if y[0] == ZWJ {
                assert(y.skip(1) =~= y1);
                assert(!run_blocked(y1));
                lemma_run_blocked_lig(y1);
                assert(!run_blocked(t.drop_first()));
            }
            assert(zw_clean_spec(t, ZWJ) == seq![y[0]] + zw_clean_spec(
                ligature_spec(y1),
                ZWJ,
            ));
            assert(zw_clean_spec(t, ZWJ) =~= y);
        }
    }
}

/// Idempotence of the Script Normalizer: on every input, applying it
/// twice yields exactly what applying it once yields.
pub proof fn lemma_script_normal_idempotent(s: Seq<char>)
    ensures
        script_normal_spec(script_normal_spec(s)) == script_normal_spec(s),
{
    let t = ligature_spec(s);
    let u = zw_clean_spec(t, ZWJ);
    let w = zw_clean_spec(u, ZWNJ);
    lemma_lig_marks_tight(s);
    lemma_marks_tight_joined(t);
    lemma_clean_marks_joined(t, ZWJ);
    lemma_clean_marks_joined(u, ZWNJ);
    lemma_clean_zw_cleaned(t, ZWJ);
    lemma_clean_preserves_other(u, ZWJ, ZWNJ);
    lemma_lig_clean_fixed(w);
    lemma_clean_idempotent(u, ZWNJ);
    assert(script_normal_spec(w) == w);
}

} // verus!
