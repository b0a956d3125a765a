//! User-defined words: every definition that was ever made, in the order in
//! which it was made, and for each name the positions of its definitions.
use vstd::prelude::*;
use crate::text::{str_equal, texts};

verus! {

/// A word as it was defined: its name and the tokens of its body.
#[derive(Debug)]
pub struct Word {
    pub name: String,
    pub body: Vec<String>,
}

/// What a word is, as texts.
pub struct WordSpec {
    pub name: Seq<char>,
    pub body: Seq<Seq<char>>,
}

impl View for Word {
    type V = WordSpec;

    open spec fn view(&self) -> WordSpec {
        WordSpec { name: self.name@, body: texts(self.body@) }
    }
}

/// The positions at which one name was defined.
#[derive(Debug)]
pub struct Versions {
    pub name: String,
    pub positions: Vec<usize>,
}

/// The definitions of a program. A definition is never changed or removed:
/// defining a name again adds a definition and leaves the earlier ones alone.
#[derive(Debug)]
pub struct WordRegistry {
    /// Every definition, in the order in which it was made.
    pub words: Vec<Word>,
    /// For each defined name, the positions in `words` of its definitions.
    pub current_definition: Vec<Versions>,
}

impl View for WordRegistry {
    type V = Seq<WordSpec>;

    open spec fn view(&self) -> Seq<WordSpec> {
        Seq::new(self.words@.len(), |i: int| self.words@[i]@)
    }
}

/// The positions at which `name` is defined, in increasing order.
pub open spec fn positions_of(words: Seq<WordSpec>, name: Seq<char>) -> Seq<int>
    decreases words.len(),
{
    if words.len() == 0 {
        Seq::empty()
    } else if words.last().name == name {
        positions_of(words.drop_last(), name).push(words.len() - 1)
    } else {
        positions_of(words.drop_last(), name)
    }
}

/// Whether `name` has a definition.
pub open spec fn defines(words: Seq<WordSpec>, name: Seq<char>) -> bool {
    positions_of(words, name).len() > 0
}

/// Whether the definition at `position` is one of `name`.
pub open spec fn has_version(words: Seq<WordSpec>, name: Seq<char>, position: int) -> bool {
    0 <= position < words.len() && words[position].name == name
}

/// Positions as integers.
pub open spec fn as_ints(positions: Seq<usize>) -> Seq<int> {
    Seq::new(positions.len(), |k: int| positions[k] as int)
}

/// Whether the index holds an entry for `name`.
pub open spec fn indexed(index: Seq<Versions>, name: Seq<char>) -> bool {
    exists|i: int| 0 <= i < index.len() && #[trigger] index[i].name@ == name
}

/// The positions of a name are exactly the positions whose word bears the
/// name, in increasing order.
pub proof fn lemma_positions_of(words: Seq<WordSpec>, name: Seq<char>)
    ensures
        forall|k: int|
            0 <= k < positions_of(words, name).len() ==> has_version(
                words,
                name,
                #[trigger] positions_of(words, name)[k],
            ),
        forall|k: int, l: int|
            0 <= k < l < positions_of(words, name).len() ==> positions_of(words, name)[k]
                < positions_of(words, name)[l],
        forall|p: int| #[trigger]
            has_version(words, name, p) ==> positions_of(words, name).contains(p),
    decreases words.len(),
{
    if words.len() > 0 {
        let rest = words.drop_last();
        lemma_positions_of(rest, name);
        let before = positions_of(rest, name);
        let all = positions_of(words, name);
        assert forall|p: int| #[trigger] has_version(words, name, p) implies all.contains(p) by {
            if p < words.len() - 1 {
                assert(has_version(rest, name, p));
                let k = choose|k: int| 0 <= k < before.len() && before[k] == p;
                assert(all[k] == p);
            } else {
                assert(all[all.len() - 1] == p);
            }
        }
    }
}

/// A definition more adds its position to those of its name and to no others.
pub proof fn lemma_positions_of_push(words: Seq<WordSpec>, word: WordSpec, name: Seq<char>)
    ensures
        positions_of(words.push(word), name) == if word.name == name {
            positions_of(words, name).push(words.len() as int)
        } else {
            positions_of(words, name)
        },
{
    assert(words.push(word).drop_last() =~= words);
}

impl WordRegistry {
    /// The index agrees with the definitions: no name has two entries, each
    /// entry lists the positions of its name, and every defined name has one.
    pub open spec fn wf(&self) -> bool {
        &&& forall|i: int, j: int|
            0 <= i < j < self.current_definition@.len() ==> self.current_definition@[i].name@
                != self.current_definition@[j].name@
        &&& forall|i: int|
            0 <= i < self.current_definition@.len() ==> as_ints(
                (#[trigger] self.current_definition@[i]).positions@,
            ) == positions_of(self@, self.current_definition@[i].name@)
                && self.current_definition@[i].positions@.len() > 0
        &&& forall|p: int|
            0 <= p < self@.len() ==> indexed(self.current_definition@, (#[trigger] self@[p]).name)
    }

    /// A registry without definitions.
    pub fn new() -> (r: Self)
        ensures
            r.wf(),
            r@ == Seq::<WordSpec>::empty(),
            r.current_definition@.len() == 0,
    {
        let r = WordRegistry { words: Vec::new(), current_definition: Vec::new() };
        assert(r@ =~= Seq::<WordSpec>::empty());
        r
    }

    /// The entry of the index that holds `key`, if there is one.
    fn find_entry(&self, key: &str) -> (r: Option<usize>)
        ensures
            match r {
                Some(i) => i < self.current_definition@.len() && self.current_definition@[i as int].name@
                    == key@,
                None => !indexed(self.current_definition@, key@),
            },
    {
        let mut i: usize = 0;
        while i < self.current_definition.len()
            invariant
                i <= self.current_definition@.len(),
                forall|j: int| 0 <= j < i ==> self.current_definition@[j].name@ != key@,
            decreases self.current_definition.len() - i,
        {
            if str_equal(self.current_definition[i].name.as_str(), key) {
                return Some(i);
            }
            i += 1;
        }
        None
    }

    /// Without an entry for a name there is no definition of it.
    proof fn lemma_not_indexed(&self, name: Seq<char>)
        requires
            self.wf(),
            !indexed(self.current_definition@, name),
        ensures
            !defines(self@, name),
    {
        lemma_positions_of(self@, name);
        if positions_of(self@, name).len() > 0 {
            let p = positions_of(self@, name)[0];
            assert(has_version(self@, name, p));
            assert(indexed(self.current_definition@, self@[p].name));
        }
    }

    /// Adds a definition of `name` with the given body, after all the others.
    pub fn define_word(&mut self, name: String, body: Vec<String>)
        requires
            old(self).wf(),
        ensures
            final(self).wf(),
            final(self)@ == old(self)@.push(WordSpec { name: name@, body: texts(body@) }),
    {
        let ghost word = WordSpec { name: name@, body: texts(body@) };
        let ghost before = self@;
        let ghost index_before = self.current_definition@;
        let new_index = self.words.len();
        let found = self.find_entry(name.as_str());
        proof {
            if found is None {
                self.lemma_not_indexed(name@);
            }
        }
        self.words.push(Word { name: name.clone(), body });
        assert(self@ =~= before.push(word));
        match found {
            Some(i) => {
                let mut entry = self.current_definition.remove(i);
                entry.positions.push(new_index);
                self.current_definition.insert(i, entry);
                proof {
                    let index_after = self.current_definition@;
                    assert(index_after.len() == index_before.len());
                    assert forall|j: int| 0 <= j < index_after.len() implies index_after[j].name@
                        == index_before[j].name@ by {}
                    assert forall|j: int| 0 <= j < index_after.len() implies as_ints(
                        (#[trigger] index_after[j]).positions@,
                    ) == positions_of(self@, index_after[j].name@) && index_after[j].positions@.len()
                        > 0 by {
                        lemma_positions_of_push(before, word, index_after[j].name@);
                        if j == i {
                            assert(as_ints(index_after[j].positions@) =~= as_ints(
                                index_before[j].positions@,
                            ).push(new_index as int));
                        } else {
                            assert(index_after[j] == index_before[j]);
                        }
                    }
                    assert forall|p: int| 0 <= p < self@.len() implies indexed(
                        index_after,
                        (#[trigger] self@[p]).name,
                    ) by {
                        if p < before.len() {
                            assert(self@[p] == before[p]);
                            let k = choose|k: int|
                                0 <= k < index_before.len() && #[trigger] index_before[k].name@
                                    == before[p].name;
                            assert(index_after[k].name@ == before[p].name);
                        } else {
                            assert(index_after[i as int].name@ == word.name);
                        }
                    }
                }
            },
            None => {
                let mut positions: Vec<usize> = Vec::new();
                positions.push(new_index);
                self.current_definition.push(Versions { name, positions });
                proof {
                    let index_after = self.current_definition@;
                    assert forall|j: int| 0 <= j < index_after.len() implies as_ints(
                        (#[trigger] index_after[j]).positions@,
                    ) == positions_of(self@, index_after[j].name@) && index_after[j].positions@.len()
                        > 0 by {
                        lemma_positions_of_push(before, word, index_after[j].name@);
                        if j < index_before.len() {
                            assert(index_after[j] == index_before[j]);
                            assert(index_before[j].name@ != word.name);
                        } else {
                            assert(as_ints(index_after[j].positions@) =~= Seq::<int>::empty().push(
                                new_index as int,
                            ));
                        }
                    }
                    assert forall|p: int| 0 <= p < self@.len() implies indexed(
                        index_after,
                        (#[trigger] self@[p]).name,
                    ) by {
                        if p < before.len() {
                            assert(self@[p] == before[p]);
                            let k = choose|k: int|
                                0 <= k < index_before.len() && #[trigger] index_before[k].name@
                                    == before[p].name;
                            assert(index_after[k].name@ == before[p].name);
                        } else {
                            assert(index_after[index_before.len() as int].name@ == word.name);
                        }
                    }
                }
            },
        }
    }

    /// Whether `key` has a definition.
    pub fn contains_key(&self, key: &str) -> (r: bool)
        requires
            self.wf(),
        ensures
            r == defines(self@, key@),
    {
        let found = self.find_entry(key);
        proof {
            if found is None {
                self.lemma_not_indexed(key@);
            }
        }
        found.is_some()
    }

    /// The position of the definition made last, or 0 while there is none.
    pub fn get_version(&self) -> (r: usize)
        ensures
            r == if self@.len() == 0 {
                0
            } else {
                self@.len() - 1
            },
    {
        if self.words.len() == 0 {
            0
        } else {
            self.words.len() - 1
        }
    }

    /// The positions at which `key` is defined, in increasing order, or nothing
    /// when it has no definition.
    pub fn get_word_versions(&self, key: &str) -> (r: Option<&Vec<usize>>)
        requires
            self.wf(),
        ensures
            match r {
                Some(positions) => defines(self@, key@) && as_ints(positions@) == positions_of(
                    self@,
                    key@,
                ),
                None => !defines(self@, key@),
            },
    {
        match self.find_entry(key) {
            Some(i) => Some(&self.current_definition[i].positions),
            None => {
                proof {
                    self.lemma_not_indexed(key@);
                }
                None
            },
        }
    }

    /// Whether the definition at position `version` is one of `name`.
    pub fn has_version(&self, name: &str, version: usize) -> (r: bool)
        ensures
            r == has_version(self@, name@, version as int),
    {
        version < self.words.len() && str_equal(self.words[version].name.as_str(), name)
    }
}

impl Default for WordRegistry {
    fn default() -> (r: Self)
        ensures
            r.wf(),
            r@ == Seq::<WordSpec>::empty(),
    {
        Self::new()
    }
}

} // verus!
