//! The definition map: declarations to definitions, keys unique.
use crate::model::{same_definition, Declaration, Definition, DefinitionView, SchemaError};
use vstd::prelude::*;

verus! {

/// The map of every `(declaration, definition)` pair gathered for a type.
/// The order in which entries were added does not matter.
#[derive(Debug)]
pub struct Definitions {
    entries: Vec<(Declaration, Definition)>,
}

/// The map that a list of entries with unique keys stands for.
pub open spec fn entries_map(s: Seq<(Declaration, Definition)>) -> Map<Seq<char>, DefinitionView>
    decreases s.len(),
{
    if s.len() == 0 {
        Map::empty()
    } else {
        entries_map(s.drop_last()).insert(s.last().0@, s.last().1@)
    }
}

/// No two entries share a declaration.
pub open spec fn unique_keys(s: Seq<(Declaration, Definition)>) -> bool {
    forall|i: int, j: int| 0 <= i < s.len() && 0 <= j < s.len() && i != j ==> s[i].0@ != s[j].0@
}

proof fn lemma_entries_map_last(s: Seq<(Declaration, Definition)>)
    ensures
        forall|k: Seq<char>|
            entries_map(s).contains_key(k) <==> exists|i: int| 0 <= i < s.len() && s[i].0@ == k,
        forall|i: int|
            0 <= i < s.len() && (forall|j: int| i < j < s.len() ==> s[j].0@ != s[i].0@)
                ==> #[trigger] entries_map(s)[s[i].0@] == s[i].1@,
    decreases s.len(),
{
    if s.len() > 0 {
        let p = s.drop_last();
        lemma_entries_map_last(p);
        assert(entries_map(s) == entries_map(p).insert(s.last().0@, s.last().1@));
        assert forall|k: Seq<char>|
            entries_map(s).contains_key(k) <==> exists|i: int| 0 <= i < s.len() && s[i].0@ == k by {
            if entries_map(s).contains_key(k) && k != s.last().0@ {
                assert(entries_map(p).contains_key(k));
                let i = choose|i: int| 0 <= i < p.len() && p[i].0@ == k;
                assert(s[i] == p[i]);
            }
            if exists|i: int| 0 <= i < s.len() && s[i].0@ == k {
                let i = choose|i: int| 0 <= i < s.len() && s[i].0@ == k;
                if i < p.len() {
                    assert(p[i] == s[i]);
                    assert(p[i].0@ == k);
                }
            }
        }
        assert forall|i: int|
            0 <= i < s.len() && (forall|j: int| i < j < s.len() ==> s[j].0@ != s[i].0@) implies
            #[trigger] entries_map(s)[s[i].0@] == s[i].1@ by {
            if i < p.len() {
                assert(p[i] == s[i]);
                assert(s[s.len() - 1].0@ != s[i].0@);
                assert forall|j: int| i < j < p.len() implies p[j].0@ != p[i].0@ by {
                    assert(s[j] == p[j]);
                }
            }
        }
    }
}

proof fn lemma_entries_map(s: Seq<(Declaration, Definition)>)
    requires
        unique_keys(s),
    ensures
        forall|k: Seq<char>|
            entries_map(s).contains_key(k) <==> exists|i: int| 0 <= i < s.len() && s[i].0@ == k,
        forall|i: int| 0 <= i < s.len() ==> #[trigger] entries_map(s)[s[i].0@] == s[i].1@,
        entries_map(s).dom().finite(),
        entries_map(s).dom().len() == s.len(),
    decreases s.len(),
{
    lemma_entries_map_last(s);
    assert forall|i: int| 0 <= i < s.len() implies #[trigger] entries_map(s)[s[i].0@] == s[i].1@ by {
        assert forall|j: int| i < j < s.len() implies s[j].0@ != s[i].0@ by {}
    }
    if s.len() > 0 {
        let p = s.drop_last();
        assert(unique_keys(p));
        lemma_entries_map(p);
        lemma_entries_map_last(p);
        assert(!entries_map(p).contains_key(s.last().0@)) by {
            if entries_map(p).contains_key(s.last().0@) {
                let i = choose|i: int| 0 <= i < p.len() && p[i].0@ == s.last().0@;
                assert(s[i].0@ == s[s.len() - 1].0@);
            }
        }
    }
}

impl View for Definitions {
    type V = Map<Seq<char>, DefinitionView>;

    closed spec fn view(&self) -> Map<Seq<char>, DefinitionView> {
        entries_map(self.entries@)
    }
}

impl Definitions {
    /// The entries hold each declaration at most once.
    pub closed spec fn wf(&self) -> bool {
        unique_keys(self.entries@)
    }

    /// An empty map.
    pub fn new() -> (r: Definitions)
        ensures
            r.wf(),
            r@ == Map::<Seq<char>, DefinitionView>::empty(),
    {
        Definitions { entries: Vec::new() }
    }

    fn find(&self, declaration: &Declaration) -> (r: Option<usize>)
        ensures
            match r {
                Some(i) => i < self.entries@.len() && self.entries@[i as int].0@ == declaration@
                    && self@.contains_key(declaration@) && self@[declaration@]
                    == self.entries@[i as int].1@,
                None => !self@.contains_key(declaration@),
            },
    {
        proof {
            lemma_entries_map_last(self.entries@);
        }
        let mut i: usize = self.entries.len();
        while i > 0
            invariant
                0 <= i <= self.entries@.len(),
                forall|j: int| i <= j < self.entries@.len() ==> self.entries@[j].0@ != declaration@,
            decreases i,
        {
            i -= 1;
            if self.entries[i].0 == *declaration {
                proof {
                    lemma_entries_map_last(self.entries@);
                    let ii = i as int;
                    assert(forall|j: int|
                        ii < j < self.entries@.len() ==> self.entries@[j].0@
                            != self.entries@[ii].0@);
                    assert(self@[self.entries@[ii].0@] == self.entries@[ii].1@);
                }
                return Some(i);
            }
        }
        None
    }

    /// The number of declarations in the map.
    pub fn len(&self) -> (r: usize)
        requires
            self.wf(),
        ensures
            r == self@.len(),
    {
        proof {
            lemma_entries_map(self.entries@);
        }
        self.entries.len()
    }

    /// Whether the map holds a definition for `declaration`.
    pub fn contains_key(&self, declaration: &Declaration) -> (r: bool)
        ensures
            r == self@.contains_key(declaration@),
    {
        self.find(declaration).is_some()
    }

    /// The definition stored for `declaration`, if any.
    pub fn get(&self, declaration: &Declaration) -> (r: Option<&Definition>)
        ensures
            match r {
                Some(d) => self@.contains_key(declaration@) && self@[declaration@] == d@,
                None => !self@.contains_key(declaration@),
            },
    {
        match self.find(declaration) {
            Some(i) => Some(&self.entries[i].1),
            None => None,
        }
    }

    /// Store `definition` under `declaration`, replacing what was there.
    pub(crate) fn insert(&mut self, declaration: Declaration, definition: Definition)
        requires
            old(self).wf(),
        ensures
            final(self).wf(),
            final(self)@ == old(self)@.insert(declaration@, definition@),
    {
        proof {
            lemma_entries_map(self.entries@);
        }
        match self.find(&declaration) {
            Some(i) => {
                let ghost k = declaration@;
                let ghost v = definition@;
                let ghost before = self.entries@;
                self.entries.set(i, (declaration, definition));
                proof {
                    assert(unique_keys(self.entries@)) by {
                        assert forall|a: int, b: int|
                            0 <= a < self.entries@.len() && 0 <= b < self.entries@.len() && a
                                != b implies self.entries@[a].0@ != self.entries@[b].0@ by {
                            assert(before[a].0@ != before[b].0@);
                        }
                    }
                    lemma_entries_map(self.entries@);
                    assert(self@ =~= entries_map(before).insert(k, v)) by {
                        assert forall|key: Seq<char>| #[trigger]
                            self@.contains_key(key) implies entries_map(before).insert(
                            k,
                            v,
                        ).contains_key(key) by {
                            let j = choose|j: int|
                                0 <= j < self.entries@.len() && self.entries@[j].0@ == key;
                            if j != i {
                                assert(before[j].0@ == key);
                            }
                        }
                        assert forall|key: Seq<char>|
                            #[trigger] entries_map(before).insert(k, v).contains_key(key)
                                implies self@.contains_key(key) && self@[key] == entries_map(
                            before,
                        ).insert(k, v)[key] by {
                            if key != k {
                                let j = choose|j: int| 0 <= j < before.len() && before[j].0@ == key;
                                assert(self.entries@[j] == before[j]);
                            } else {
                                assert(self.entries@[i as int].0@ == k);
                            }
                        }
                    }
                }
            },
            None => {
                let ghost before = self.entries@;
                self.entries.push((declaration, definition));
                proof {
                    assert(self.entries@.drop_last() =~= before);
                    assert forall|a: int, b: int|
                        0 <= a < self.entries@.len() && 0 <= b < self.entries@.len() && a
                            != b implies self.entries@[a].0@ != self.entries@[b].0@ by {
                        if a < before.len() && b < before.len() {
                            assert(before[a].0@ != before[b].0@);
                        } else if a < before.len() {
                            assert(entries_map(before).contains_key(before[a].0@));
                        } else {
                            assert(entries_map(before).contains_key(before[b].0@));
                        }
                    }
                }
            },
        }
    }
    /// Add `definition` under `declaration`, or confirm that the same definition is already
    /// there. A different definition under the same declaration is a conflict.
    pub fn add(&mut self, declaration: Declaration, definition: Definition) -> (r: Result<
        (),
        SchemaError,
    >)
        requires
            old(self).wf(),
        ensures
            final(self).wf(),
            r is Ok <==> (!old(self)@.contains_key(declaration@) || old(self)@[declaration@]
                == definition@),
            r is Ok ==> final(self)@ == old(self)@.insert(declaration@, definition@),
            r is Err ==> r == Err::<(), SchemaError>(SchemaError::SchemaConflict) && final(self)@
                == old(self)@,
    {
        match self.get(&declaration) {
            Some(existing) => {
                if same_definition(existing, &definition) {
                    proof {
                        assert(self@.insert(declaration@, definition@) =~= self@);
                    }
                    Ok(())
                } else {
                    Err(SchemaError::SchemaConflict)
                }
            },
            None => {
                self.insert(declaration, definition);
                Ok(())
            },
        }
    }
}

impl PartialEq for Definitions {
    fn eq(&self, other: &Definitions) -> (r: bool) {
        proof {
            lemma_entries_map_last(self.entries@);
            lemma_entries_map_last(other.entries@);
        }
        let mut i: usize = 0;
        while i < self.entries.len()
            invariant
                0 <= i <= self.entries@.len(),
                forall|j: int|
                    0 <= j < i ==> other@.contains_key(#[trigger] self.entries@[j].0@)
                        && self@.contains_key(self.entries@[j].0@)
                        && other@[self.entries@[j].0@] == self@[self.entries@[j].0@],
            decreases self.entries@.len() - i,
        {
            let key = &self.entries[i].0;
            proof {
                lemma_entries_map_last(self.entries@);
                assert(self@.contains_key(key@));
            }
            match (self.get(key), other.get(key)) {
                (Some(a), Some(b)) => {
                    if !same_definition(a, b) {
                        assert(self@[key@] != other@[key@]);
                        return false;
                    }
                },
                _ => {
                    assert(self@.contains_key(key@) != other@.contains_key(key@));
                    return false;
                },
            }
            i += 1;
        }
        let mut j: usize = 0;
        while j < other.entries.len()
            invariant
                0 <= j <= other.entries@.len(),
                forall|k: int| 0 <= k < j ==> self@.contains_key(#[trigger] other.entries@[k].0@),
            decreases other.entries@.len() - j,
        {
            if !self.contains_key(&other.entries[j].0) {
                proof {
                    lemma_entries_map_last(other.entries@);
                }
                assert(other@.contains_key(other.entries@[j as int].0@));
                return false;
            }
            j += 1;
        }
        proof {
            lemma_entries_map_last(self.entries@);
            lemma_entries_map_last(other.entries@);
            assert forall|k: Seq<char>| self@.contains_key(k) implies other@.contains_key(k)
                && other@[k] == self@[k] by {
                let a = choose|a: int| 0 <= a < self.entries@.len() && self.entries@[a].0@ == k;
                assert(other@.contains_key(self.entries@[a].0@));
            }
            assert forall|k: Seq<char>| other@.contains_key(k) implies self@.contains_key(k) by {
                let a = choose|a: int| 0 <= a < other.entries@.len() && other.entries@[a].0@ == k;
                assert(self@.contains_key(other.entries@[a].0@));
            }
            assert(self@ =~= other@);
        }
        true
    }
}

impl vstd::std_specs::cmp::PartialEqSpecImpl for Definitions {
    open spec fn obeys_eq_spec() -> bool {
        true
    }

    open spec fn eq_spec(&self, other: &Definitions) -> bool {
        self@ == other@
    }
}

impl Eq for Definitions {
}

} // verus!
