//! The conversion table: an ordered list of patterns, each a find/replace
//! pair optionally guarded by contextual rules, plus the three character
//! classifications (vowels, consonants, case-sensitive exceptions).
//!
//! The table is built once at startup and passed by shared reference into
//! every engine call; nothing here is ever mutated after construction.

use vstd::prelude::*;

verus! {

/// Which side of a matched span a contextual condition inspects.
#[derive(Clone, Copy)]
pub enum MatchSide {
    Prefix,
    Suffix,
}

/// The predicate kind a contextual condition tests. `Other` stands for any
/// scope the table may declare that the engine does not know: such a
/// condition always passes.
#[derive(Clone, Copy)]
pub enum MatchScope {
    Vowel,
    Consonant,
    Punctuation,
    Exact,
    Other,
}

/// A single contextual predicate: a side to inspect, a scope to test there,
/// an optional negation, and (for `Exact`) the literal to compare against.
pub struct Match {
    pub side: MatchSide,
    pub scope: MatchScope,
    pub negative: bool,
    pub value: Option<Vec<char>>,
}

/// An alternative replacement, selected when every one of its conditions
/// passes. Rules within a pattern are tried in declared order.
pub struct Rule {
    pub matches: Vec<Match>,
    pub replace: Vec<char>,
}

/// A find/replace pair. A pattern without rules is a direct pattern; one
/// with rules is rule-guarded, and its `replace` is the default output when
/// no rule qualifies.
pub struct Pattern {
    pub find: Vec<char>,
    pub replace: Vec<char>,
    pub rules: Option<Vec<Rule>>,
}

/// The whole conversion table. Pattern order is significant: at a text
/// position the first qualifying pattern in declared order wins.
pub struct Ruleset {
    pub patterns: Vec<Pattern>,
    pub vowel: Vec<char>,
    pub consonant: Vec<char>,
    pub casesensitive: Vec<char>,
}

} // verus!
