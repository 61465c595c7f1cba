//! The header mapping of a request or response.
//!
//! Headers are kept as a vector of `(name, value)` pairs whose names are
//! strictly increasing in lexicographic order, so names are unique and a
//! serialized response lists them in sorted order. The mathematical model
//! is the map [`entries_map`] builds from the entries; inserting an
//! existing name replaces its value (last write wins).

use vstd::prelude::*;
use vstd::map::*;
use crate::text::{lex_lt, str_lt, lemma_lex_total, lemma_lex_irrefl, lemma_lex_trans};

verus! {

/// The map that a sequence of `(name, value)` entries denotes; a later
/// entry with the same name wins.
pub open spec fn entries_map(es: Seq<(Seq<char>, Seq<char>)>) -> Map<Seq<char>, Seq<char>>
    decreases es.len(),
{
    if es.len() == 0 {
        Map::empty()
    } else {
        entries_map(es.drop_last()).insert(es.last().0, es.last().1)
    }
}

/// A name that no entry carries is not in the map; a name that a unique
/// entry carries maps to that entry's value.
pub proof fn lemma_entries_map_absent(es: Seq<(Seq<char>, Seq<char>)>, k: Seq<char>)
    requires
        forall|j: int| 0 <= j < es.len() ==> (#[trigger] es[j]).0 != k,
    ensures
        !entries_map(es).contains_key(k),
    decreases es.len(),
{
    if es.len() > 0 {
        assert(es[es.len() - 1].0 != k);
        lemma_entries_map_absent(es.drop_last(), k);
    }
}

/// The value of a name held by exactly one entry.
pub proof fn lemma_entries_map_value(es: Seq<(Seq<char>, Seq<char>)>, i: int)
    requires
        0 <= i < es.len(),
        forall|j: int| 0 <= j < es.len() && j != i ==> (#[trigger] es[j]).0 != es[i].0,
    ensures
        entries_map(es).contains_key(es[i].0),
        entries_map(es)[es[i].0] == es[i].1,
    decreases es.len(),
{
    if i == es.len() - 1 {
    } else {
        assert(es.drop_last()[i] == es[i]);
        lemma_entries_map_value(es.drop_last(), i);
        assert(es[es.len() - 1].0 != es[i].0);
    }
}

/// Inserting a fresh name at any position inserts it into the map.
pub proof fn lemma_entries_map_insert_at(
    es: Seq<(Seq<char>, Seq<char>)>,
    i: int,
    k: Seq<char>,
    v: Seq<char>,
)
    requires
        0 <= i <= es.len(),
        forall|j: int| 0 <= j < es.len() ==> (#[trigger] es[j]).0 != k,
    ensures
        entries_map(es.insert(i, (k, v))) == entries_map(es).insert(k, v),
    decreases es.len(),
{
    let es2 = es.insert(i, (k, v));
    if i == es.len() {
        assert(es2.drop_last() =~= es);
        assert(es2.last() == (k, v));
    } else {
        assert(es2.last() == es.last());
        assert(es2.drop_last() =~= es.drop_last().insert(i, (k, v)));
        lemma_entries_map_insert_at(es.drop_last(), i, k, v);
        assert(es[es.len() - 1].0 != k);
        assert_maps_equal!(
            entries_map(es.drop_last()).insert(k, v).insert(es.last().0, es.last().1),
            entries_map(es.drop_last()).insert(es.last().0, es.last().1).insert(k, v)
        );
    }
}

/// Replacing the value of the one entry that holds a name updates the map.
pub proof fn lemma_entries_map_update(es: Seq<(Seq<char>, Seq<char>)>, i: int, v: Seq<char>)
    requires
        0 <= i < es.len(),
        forall|j: int| 0 <= j < es.len() && j != i ==> (#[trigger] es[j]).0 != es[i].0,
    ensures
        entries_map(es.update(i, (es[i].0, v))) == entries_map(es).insert(es[i].0, v),
    decreases es.len(),
{
    let k = es[i].0;
    let es2 = es.update(i, (k, v));
    if i == es.len() - 1 {
        assert(es2.drop_last() =~= es.drop_last());
        assert(es2.last() == (k, v));
        assert_maps_equal!(
            entries_map(es.drop_last()).insert(k, es[i].1).insert(k, v),
            entries_map(es.drop_last()).insert(k, v)
        );
    } else {
        assert(es2.last() == es.last());
        assert(es2.drop_last() =~= es.drop_last().update(i, (k, v)));
        assert(es.drop_last()[i] == es[i]);
        lemma_entries_map_update(es.drop_last(), i, v);
        assert(es[es.len() - 1].0 != k);
        assert_maps_equal!(
            entries_map(es.drop_last()).insert(k, v).insert(es.last().0, es.last().1),
            entries_map(es.drop_last()).insert(es.last().0, es.last().1).insert(k, v)
        );
    }
}

/// A mapping from header names to header values, ordered by name.
pub struct HeaderMap {
    pub entries: Vec<(String, String)>,
}

impl View for HeaderMap {
    type V = Seq<(Seq<char>, Seq<char>)>;

    open spec fn view(&self) -> Seq<(Seq<char>, Seq<char>)> {
        Seq::new(self.entries@.len(), |i: int| (self.entries@[i].0@, self.entries@[i].1@))
    }
}

impl HeaderMap {
    /// Names are strictly increasing, so each name occurs once.
    pub open spec fn wf(&self) -> bool {
        forall|i: int, j: int| 0 <= i < j < self@.len()
            ==> lex_lt(#[trigger] self@[i].0, #[trigger] self@[j].0)
    }

    /// The mapping the entries denote.
    pub open spec fn as_map(&self) -> Map<Seq<char>, Seq<char>> {
        entries_map(self@)
    }

    /// In a well-formed map every name is held by at most one entry.
    pub proof fn lemma_wf_unique(&self)
        requires
            self.wf(),
        ensures
            forall|i: int, j: int| 0 <= i < self@.len() && 0 <= j < self@.len() && i != j
                ==> (#[trigger] self@[i]).0 != (#[trigger] self@[j]).0,
    {
        assert forall|i: int, j: int|
            0 <= i < self@.len() && 0 <= j < self@.len() && i != j
            implies (#[trigger] self@[i]).0 != (#[trigger] self@[j]).0 by {
            if i < j {
                if self@[i].0 == self@[j].0 {
                    lemma_lex_irrefl(self@[i].0);
                }
            } else {
                if self@[i].0 == self@[j].0 {
                    lemma_lex_irrefl(self@[i].0);
                }
            }
        };
    }

    /// An empty header mapping.
    pub fn new() -> (r: HeaderMap)
        ensures
            r.wf(),
            r@ == Seq::<(Seq<char>, Seq<char>)>::empty(),
            r.as_map() == Map::<Seq<char>, Seq<char>>::empty(),
    {
        let r = HeaderMap { entries: Vec::new() };
        proof {
            assert(r@ =~= Seq::<(Seq<char>, Seq<char>)>::empty());
        }
        r
    }

    /// Number of distinct header names held.
    pub fn len(&self) -> (n: usize)
        ensures
            n == self@.len(),
    {
        self.entries.len()
    }

    /// Position of the first entry whose name is not below `name`.
    fn scan_pos(&self, name: &String) -> (i: usize)
        ensures
            i <= self@.len(),
            forall|k: int| 0 <= k < i ==> lex_lt((#[trigger] self@[k]).0, name@),
            i < self@.len() ==> !lex_lt(self@[i as int].0, name@),
    {
        let n = self.entries.len();
        let mut i: usize = 0;
        loop
            invariant_except_break
                i <= n,
                n == self@.len(),
                forall|k: int| 0 <= k < i ==> lex_lt((#[trigger] self@[k]).0, name@),
            ensures
                i <= self@.len(),
                forall|k: int| 0 <= k < i ==> lex_lt((#[trigger] self@[k]).0, name@),
                i < self@.len() ==> !lex_lt(self@[i as int].0, name@),
            decreases n - i,
        {
            if i == n {
                break;
            }
            if !str_lt(self.entries[i].0.as_str(), name.as_str()) {
                break;
            }
            i += 1;
        }
        i
    }

    /// Binds `name` to `value`; an earlier binding of the same name is
    /// replaced (last write wins). The sorted order of names is kept.
    pub fn insert(&mut self, name: String, value: String)
        requires
            old(self).wf(),
        ensures
            final(self).wf(),
            final(self).as_map() == old(self).as_map().insert(name@, value@),
    {
        let ghost es = self@;
        let n = self.entries.len();
        let i = self.scan_pos(&name);
        proof {
            self.lemma_wf_unique();
        }
        if i < n && self.entries[i].0 == name {
            // replace the value in place
            self.entries.remove(i);
            self.entries.insert(i, (name, value));
            proof {
                assert(self@ =~= es.update(i as int, (es[i as int].0, value@)));
                lemma_entries_map_update(es, i as int, value@);
                assert(self.wf()) by {
                    assert forall|p: int, q: int| 0 <= p < q < self@.len()
                        implies lex_lt(#[trigger] self@[p].0, #[trigger] self@[q].0) by {
                        assert(es[p].0 == self@[p].0);
                        assert(es[q].0 == self@[q].0);
                    };
                };
            }
        } else {
            proof {
                // name is not bound yet: entries before i are smaller, the
                // entry at i (if any) is strictly larger
                if i < es.len() {
                    lemma_lex_total(es[i as int].0, name@);
                    assert(lex_lt(name@, es[i as int].0));
                }
                assert forall|j: int| 0 <= j < es.len() implies (#[trigger] es[j]).0 != name@ by {
                    if j < i {
                        lemma_lex_irrefl(name@);
                        if es[j].0 == name@ {
                            assert(lex_lt(name@, name@));
                        }
                    } else if j == i {
                    } else {
                        // j > i, so i < es.len() and es[i].0 is below es[j].0
                        lemma_lex_trans(name@, es[i as int].0, es[j].0);
                        lemma_lex_irrefl(name@);
                        if es[j].0 == name@ {
                            assert(lex_lt(name@, name@));
                        }
                    }
                };
            }
            self.entries.insert(i, (name, value));
            proof {
                assert(self@ =~= es.insert(i as int, (name@, value@)));
                lemma_entries_map_insert_at(es, i as int, name@, value@);
                assert(self.wf()) by {
                    assert forall|p: int, q: int| 0 <= p < q < self@.len()
                        implies lex_lt(#[trigger] self@[p].0, #[trigger] self@[q].0) by {
                        if q < i {
                            assert(self@[p] == es[p] && self@[q] == es[q]);
                        } else if q == i {
                            assert(self@[p] == es[p]);
                        } else if p < i {
                            assert(self@[p] == es[p] && self@[q] == es[q - 1]);
                            if p == 0 {
                            }
                        } else if p == i {
                            assert(self@[q] == es[q - 1]);
                            if i < es.len() {
                                if q - 1 == i {
                                } else {
                                    lemma_lex_trans(name@, es[i as int].0, es[q - 1].0);
                                }
                            }
                        } else {
                            assert(self@[p] == es[p - 1] && self@[q] == es[q - 1]);
                        }
                    };
                };
            }
        }
    }

    /// The value bound to `name`, if any.
    pub fn get(&self, name: &String) -> (r: Option<&String>)
        requires
            self.wf(),
        ensures
            match r {
                Some(v) => self.as_map().contains_key(name@) && v@ == self.as_map()[name@],
                None => !self.as_map().contains_key(name@),
            },
    {
        let n = self.entries.len();
        let mut i: usize = 0;
        while i < n
            invariant
                i <= n,
                n == self@.len(),
                self.wf(),
                forall|k: int| 0 <= k < i ==> (#[trigger] self@[k]).0 != name@,
            decreases n - i,
        {
            if self.entries[i].0 == *name {
                proof {
                    self.lemma_wf_unique();
                    lemma_entries_map_value(self@, i as int);
                }
                return Some(&self.entries[i].1);
            }
            i += 1;
        }
        proof {
            lemma_entries_map_absent(self@, name@);
        }
        None
    }
}

} // verus!
