//! The autocomplete indexer: proposes completions for a partially typed
//! trailing word by scanning the table's find keys in declared order and
//! rendering each candidate through the full conversion pipeline.

use vstd::prelude::*;
use crate::ruleset::Ruleset;
use crate::text::{chars_of, string_of, extend_chars, slice_eq_at};
use crate::utils::{is_space_char, is_space};
use crate::parser::{parse_spec, parse_unicode};

verus! {

/// The views of a vector of character vectors.
pub open spec fn vec_views(ss: Seq<Vec<char>>) -> Seq<Seq<char>> {
    ss.map_values(|v: Vec<char>| v@)
}

/// The views of a vector of strings.
pub open spec fn str_views(ss: Seq<String>) -> Seq<Seq<char>> {
    ss.map_values(|s: String| s@)
}

/// The whitespace-separated words of the text from position `i` on, with
/// `cw` the word under construction.
pub open spec fn words_from(s: Seq<char>, i: int, cw: Seq<char>) -> Seq<Seq<char>>
    decreases s.len() - i,
{
    if i < 0 || i >= s.len() {
        if cw.len() > 0 {
            seq![cw]
        } else {
            Seq::empty()
        }
    } else if is_space_char(s[i]) {
        (if cw.len() > 0 {
            seq![cw]
        } else {
            Seq::empty()
        }) + words_from(s, i + 1, Seq::empty())
    } else {
        words_from(s, i + 1, cw.push(s[i]))
    }
}

/// The whitespace-separated words of the text, in order.
pub open spec fn words_of(s: Seq<char>) -> Seq<Seq<char>> {
    words_from(s, 0, Seq::empty())
}

/// All words but the last, each followed by a single space.
pub open spec fn leading_part(ws: Seq<Seq<char>>) -> Seq<char>
    decreases ws.len(),
{
    if ws.len() <= 1 {
        Seq::empty()
    } else {
        ws[0] + seq![' '] + leading_part(ws.drop_first())
    }
}

/// Whether `find` strictly extends `w`: it starts with `w` and is longer.
pub open spec fn strict_extends(find: Seq<char>, w: Seq<char>) -> bool {
    find.len() > w.len() && find.take(w.len() as int) == w
}

/// The candidate text a pattern proposes: the leading words, then the
/// pattern's whole find key, rendered through the conversion pipeline.
pub open spec fn candidate(rs: Ruleset, ws: Seq<Seq<char>>, k: int) -> Seq<char> {
    parse_spec(rs, leading_part(ws) + rs.patterns@[k].find@)
}

/// Collects rendered candidates from pattern `k` on, in declared order,
/// skipping duplicates, until `max` are gathered.
pub open spec fn collect_from(
    rs: Ruleset,
    ws: Seq<Seq<char>>,
    k: int,
    max: int,
    acc: Seq<Seq<char>>,
) -> Seq<Seq<char>>
    decreases rs.patterns@.len() - k,
{
    if k < 0 || k >= rs.patterns@.len() || acc.len() >= max {
        acc
    } else if strict_extends(rs.patterns@[k].find@, ws.last()) {
        let cand = candidate(rs, ws, k);
        if acc.contains(cand) {
            collect_from(rs, ws, k + 1, max, acc)
        } else if acc.len() + 1 >= max {
            acc.push(cand)
        } else {
            collect_from(rs, ws, k + 1, max, acc.push(cand))
        }
    } else {
        collect_from(rs, ws, k + 1, max, acc)
    }
}

/// What the indexer returns: nothing for an empty text, a trailing word
/// shorter than two characters, or a non-positive bound; otherwise the
/// first distinct rendered candidates, at most `max` of them.
pub open spec fn suggest_spec(rs: Ruleset, s: Seq<char>, max: int) -> Seq<Seq<char>> {
    let ws = words_of(s);
    if ws.len() == 0 || ws.last().len() < 2 || max <= 0 {
        Seq::empty()
    } else {
        collect_from(rs, ws, 0, max, Seq::empty())
    }
}

/// The whitespace-separated words of the text.
fn split_words(v: &Vec<char>) -> (ws: Vec<Vec<char>>)
    ensures
        vec_views(ws@) == words_of(v@),
{
    let n: usize = v.len();
    let mut ws: Vec<Vec<char>> = Vec::new();
    let mut cw: Vec<char> = Vec::new();
    let mut i: usize = 0;
    proof {
        assert(vec_views(ws@) + words_from(v@, 0, cw@) =~= words_of(v@));
    }
    while i < n
        invariant
            n == v@.len(),
            i <= n,
            vec_views(ws@) + words_from(v@, i as int, cw@) == words_of(v@),
        decreases n - i,
    {
        let c = v[i];
        if is_space(c) {
            if cw.len() > 0 {
                let ghost old_ws = ws@;
                let ghost old_cw = cw@;
                ws.push(cw);
                cw = Vec::new();
                proof {
                    assert(words_from(v@, i as int, old_cw) == seq![old_cw] + words_from(
                        v@,
                        i as int + 1,
                        Seq::<char>::empty(),
                    ));
                    assert(vec_views(ws@) =~= vec_views(old_ws).push(old_cw));
                    assert(vec_views(ws@) + words_from(v@, i as int + 1, cw@) =~= words_of(v@));
                }
            } else {
                proof {
                    assert(cw@ =~= Seq::<char>::empty());
                    assert(words_from(v@, i as int, cw@) == Seq::<Seq<char>>::empty()
                        + words_from(v@, i as int + 1, Seq::<char>::empty()));
                    assert(vec_views(ws@) + words_from(v@, i as int + 1, cw@) =~= words_of(v@));
                }
            }
        } else {
            cw.push(c);
        }
        i = i + 1;
    }
    if cw.len() > 0 {
        let ghost old_ws = ws@;
        let ghost old_cw = cw@;
        ws.push(cw);
        proof {
            assert(vec_views(ws@) =~= vec_views(old_ws).push(old_cw));
        }
    }
    proof {
        assert(vec_views(ws@) =~= words_of(v@));
    }
    ws
}

/// Whether a string with this view is already among the collected ones.
fn contains_string(v: &Vec<String>, s: &String) -> (r: bool)
    ensures
        r == str_views(v@).contains(s@),
{
    let mut i: usize = 0;
    while i < v.len()
        invariant
            i <= v@.len(),
            forall|k: int| 0 <= k < i ==> v@[k]@ != s@,
        decreases v@.len() - i,
    {
        if v[i] == *s {
            proof {
                assert(str_views(v@)[i as int] == s@);
            }
            return true;
        }
        i = i + 1;
    }
    proof {
        assert(forall|k: int| 0 <= k < str_views(v@).len() ==> str_views(v@)[k] != s@);
    }
    false
}

/// Completions for the trailing word: every pattern whose find key
/// strictly extends it proposes the prior words plus that key, rendered
/// through the full pipeline; duplicates are dropped and at most
/// `max_suggestions` entries come back, in pattern declaration order.
pub fn get_autocomplete_suggestions(rs: &Ruleset, partial_text: String, max_suggestions: i32)
    -> (res: Vec<String>)
    ensures
        str_views(res@) == suggest_spec(*rs, partial_text@, max_suggestions as int),
        res@.len() <= (if max_suggestions >= 0 { max_suggestions as int } else { 0 }),
        forall|i: int, j: int| 0 <= i < j < res@.len() ==> res@[i]@ != res@[j]@,
{
    let v = chars_of(partial_text.as_str());
    let ws = split_words(&v);
    if ws.len() == 0 {
        return Vec::new();
    }
    let last = &ws[ws.len() - 1];
    proof {
        assert(vec_views(ws@).last() == last@);
    }
    if last.len() < 2 {
        return Vec::new();
    }
    if max_suggestions <= 0 {
        return Vec::new();
    }
    let max: usize = max_suggestions as usize;
    let ghost wsv = vec_views(ws@);

    // the words before the last one, each with its following space
    let mut base: Vec<char> = Vec::new();
    let mut i: usize = 0;
    proof {
        assert(wsv.skip(0) =~= wsv);
        assert(base@ + leading_part(wsv.skip(0)) =~= leading_part(wsv));
    }
    while i < ws.len() - 1
        invariant
            ws@.len() >= 1,
            wsv == vec_views(ws@),
            i <= ws@.len() - 1,
            base@ + leading_part(wsv.skip(i as int)) == leading_part(wsv),
        decreases ws@.len() - 1 - i,
    {
        proof {
            assert(wsv.skip(i as int).drop_first() =~= wsv.skip(i as int + 1));
            assert(wsv.skip(i as int).len() >= 2);
            assert(wsv.skip(i as int)[0] == ws@[i as int]@);
        }
        extend_chars(&mut base, &ws[i]);
        base.push(' ');
        proof {
            assert(base@ + leading_part(wsv.skip(i as int + 1)) =~= leading_part(wsv));
        }
        i = i + 1;
    }
    proof {
        assert(wsv.skip(ws@.len() - 1).len() == 1);
        assert(base@ =~= leading_part(wsv));
    }

    let mut res: Vec<String> = Vec::new();
    let mut k: usize = 0;
    let m: usize = rs.patterns.len();
    proof {
        assert(str_views(res@) =~= Seq::<Seq<char>>::empty());
    }
    while k < m
        invariant_except_break
            last@ == wsv.last(),
            m == rs.patterns@.len(),
            k <= m,
            wsv == vec_views(ws@),
            ws@.len() >= 1,
            wsv.last().len() >= 2,
            max == max_suggestions as int,
            max >= 1,
            base@ == leading_part(wsv),
            res@.len() < max,
            forall|a: int, b: int| 0 <= a < b < res@.len() ==> res@[a]@ != res@[b]@,
            collect_from(*rs, wsv, 0, max as int, Seq::empty()) == collect_from(
                *rs,
                wsv,
                k as int,
                max as int,
                str_views(res@),
            ),
        ensures
            res@.len() <= max,
            forall|a: int, b: int| 0 <= a < b < res@.len() ==> res@[a]@ != res@[b]@,
            collect_from(*rs, wsv, 0, max as int, Seq::empty()) == str_views(res@),
        decreases m - k,
    {
        let p = &rs.patterns[k];
        let extends = p.find.len() > last.len() && slice_eq_at(&p.find, 0, last);
        proof {
            if p.find@.len() > last@.len() {
                assert(p.find@.subrange(0, last@.len() as int) =~= p.find@.take(
                    last@.len() as int,
                ));
            }
            assert(extends == strict_extends(rs.patterns@[k as int].find@, wsv.last()));
        }
        if !extends {
            proof {
                assert(collect_from(*rs, wsv, k as int, max as int, str_views(res@))
                    == collect_from(*rs, wsv, k as int + 1, max as int, str_views(res@)));
            }
        }
        if extends {
            let mut cand_chars: Vec<char> = Vec::new();
            extend_chars(&mut cand_chars, &base);
            extend_chars(&mut cand_chars, &p.find);
            let cand_text = string_of(&cand_chars);
            let cand = parse_unicode(rs, cand_text.as_str());
            proof {
                assert(cand@ == candidate(*rs, wsv, k as int));
            }
            let dup = contains_string(&res, &cand);
            if dup {
                proof {
                    assert(collect_from(*rs, wsv, k as int, max as int, str_views(res@))
                        == collect_from(*rs, wsv, k as int + 1, max as int, str_views(res@)));
                }
            }
            if !dup {
                let ghost old_views = str_views(res@);
                let ghost prev = res@;
                res.push(cand);
                proof {
                    assert(str_views(res@) =~= old_views.push(candidate(*rs, wsv, k as int)));
                    assert forall|a: int, b: int| 0 <= a < b < res@.len() implies res@[a]@
                        != res@[b]@ by {
                        if b == res@.len() - 1 {
                            assert(res@[a]@ == old_views[a]);
                            if res@[a]@ == res@[b]@ {
                                assert(old_views.contains(candidate(*rs, wsv, k as int)));
                            }
                        } else {
                            assert(res@[a] == prev[a] && res@[b] == prev[b]);
                        }
                    }
                }
                if res.len() < max {
                    proof {
                        assert(collect_from(*rs, wsv, k as int, max as int, old_views)
                            == collect_from(*rs, wsv, k as int + 1, max as int, str_views(res@)));
                    }
                }
                if res.len() >= max {
                    proof {
                        assert(collect_from(*rs, wsv, k as int, max as int, old_views)
                            == str_views(res@));
                    }
                    break;
                }
            }
        }
        k = k + 1;
    }
    proof {
        assert(str_views(res@) == suggest_spec(*rs, partial_text@, max_suggestions as int));
    }
    res
}

} // verus!
