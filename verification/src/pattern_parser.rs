//! Key patterns: a predicate over keys, and a lookup of a pattern across a
//! whole keyspace.
use crate::store::SpecEntry;
use crate::store::Store;
use vstd::prelude::*;

verus! {

/// A predicate on keys.
pub trait Pattern {
    /// What the pattern means.
    spec fn spec_matches(&self, key: Seq<char>) -> bool;

    /// Decides the pattern on one key.
    fn matches(&self, key: &str) -> (r: bool)
        ensures
            r == self.spec_matches(key@),
    ;
}

/// The wildcard pattern: matches every key.
#[derive(Debug)]
pub struct WildCardPattern(pub String);

impl Pattern for WildCardPattern {
    open spec fn spec_matches(&self, key: Seq<char>) -> bool {
        true
    }

    fn matches(&self, _key: &str) -> (r: bool) {
        true
    }
}

/// Looking a pattern up across a keyspace.
pub trait HashMapPatternExt {
    /// The keys held, in order.
    spec fn pattern_keys(&self) -> Seq<Seq<char>>;

    /// Whether any held key matches the pattern.
    fn contains_key_pattern<P: Pattern>(&self, pattern: P) -> (r: bool)
        ensures
            r == exists|i: int|
                0 <= i < self.pattern_keys().len() && pattern.spec_matches(
                    #[trigger] self.pattern_keys()[i],
                ),
    ;
}

impl HashMapPatternExt for Store {
    open spec fn pattern_keys(&self) -> Seq<Seq<char>> {
        self.kvs().map(|i: int, e: SpecEntry| e.key)
    }

    fn contains_key_pattern<P: Pattern>(&self, pattern: P) -> (r: bool) {
        let rows = self.iter_for_rdb();
        let mut i: usize = 0;
        while i < rows.len()
            invariant
                i <= rows@.len(),
                rows@.len() == self.pattern_keys().len(),
                forall|k: int|
                    0 <= k < rows@.len() ==> (#[trigger] rows@[k]).0@ == self.pattern_keys()[k],
                forall|k: int|
                    0 <= k < i ==> !pattern.spec_matches(#[trigger] self.pattern_keys()[k]),
            decreases rows@.len() - i,
        {
            if pattern.matches(rows[i].0.as_str()) {
                return true;
            }
            i = i + 1;
        }
        false
    }
}

} // verus!
