//! The server's table of open connections: at most one per device.
use crate::text::position_of;
use vstd::prelude::*;

verus! {

/// The open connections of the server, each under the identity of the
/// device it uses (`host|device|direction`) and known by a number that the
/// caller gives it.
pub struct ConnectionTable {
    ids: Vec<String>,
    tokens: Vec<u64>,
}

/// The map from identities to numbers that parallel lists describe.
pub open spec fn table_map(ids: Seq<Seq<char>>, tokens: Seq<u64>) -> Map<Seq<char>, u64> {
    Map::new(
        |k: Seq<char>| ids.contains(k),
        |k: Seq<char>| tokens[choose|i: int| 0 <= i < ids.len() && ids[i] == k],
    )
}

/// No identity occurs twice.
pub open spec fn distinct_ids(ids: Seq<Seq<char>>) -> bool {
    forall|i: int, j: int| 0 <= i < ids.len() && 0 <= j < ids.len() && i != j ==> ids[i] != ids[j]
}

/// In a list without repeats, the position of an identity is the one where
/// it stands.
proof fn lemma_choose_position(ids: Seq<Seq<char>>, i: int)
    requires
        distinct_ids(ids),
        0 <= i < ids.len(),
    ensures
        (choose|j: int| 0 <= j < ids.len() && ids[j] == ids[i]) == i,
{
    let j = choose|j: int| 0 <= j < ids.len() && ids[j] == ids[i];
    assert(0 <= j < ids.len() && ids[j] == ids[i]);
}

impl View for ConnectionTable {
    type V = Map<Seq<char>, u64>;

    closed spec fn view(&self) -> Map<Seq<char>, u64> {
        table_map(self.ids.deep_view(), self.tokens@)
    }
}

impl ConnectionTable {
    /// The lists agree in length and hold each identity once.
    pub closed spec fn wf(&self) -> bool {
        &&& self.ids@.len() == self.tokens@.len()
        &&& distinct_ids(self.ids.deep_view())
    }

    /// An empty table.
    pub fn new() -> (t: Self)
        ensures
            t.wf(),
            t@ == Map::<Seq<char>, u64>::empty(),
    {
        let t = ConnectionTable { ids: Vec::new(), tokens: Vec::new() };
        assert(t@ =~= Map::<Seq<char>, u64>::empty());
        t
    }

    /// The number of open connections.
    pub fn len(&self) -> (n: usize)
        requires
            self.wf(),
        ensures
            n == self@.dom().len(),
    {
        proof {
            self.lemma_dom_len();
        }
        self.ids.len()
    }

    /// The table holds as many connections as it has identities.
    proof fn lemma_dom_len(&self)
        requires
            self.wf(),
        ensures
            self@.dom().len() == self.ids@.len(),
            self@.dom().finite(),
    {
        let ids = self.ids.deep_view();
        assert(self@.dom() =~= ids.to_set());
        ids.unique_seq_to_set();
    }

    /// The number of the connection that uses the device `id`.
    pub fn get(&self, id: &str) -> (r: Option<u64>)
        requires
            self.wf(),
        ensures
            r == if self@.dom().contains(id@) {
                Some(self@[id@])
            } else {
                None::<u64>
            },
    {
        let ghost ids = self.ids.deep_view();
        match position_of(&self.ids, id) {
            Some(i) => {
                proof {
                    assert(ids[i as int] == self.ids@[i as int]@);
                    lemma_choose_position(ids, i as int);
                }
                Some(self.tokens[i])
            },
            None => {
                proof {
                    assert(!ids.contains(id@)) by {
                        if ids.contains(id@) {
                            let k = choose|k: int| 0 <= k < ids.len() && ids[k] == id@;
                            assert(ids[k] == self.ids@[k]@);
                        }
                    }
                }
                None
            },
        }
    }

    /// Records the connection `token` for the device `id`, in place of the
    /// one that used it before, whose number is returned.
    pub fn insert(&mut self, id: String, token: u64) -> (previous: Option<u64>)
        requires
            old(self).wf(),
        ensures
            final(self).wf(),
            final(self)@ == old(self)@.insert(id@, token),
            previous == if old(self)@.dom().contains(id@) {
                Some(old(self)@[id@])
            } else {
                None::<u64>
            },
    {
        let ghost ids = self.ids.deep_view();
        let ghost old_map = self@;
        match position_of(&self.ids, id.as_str()) {
            Some(i) => {
                proof {
                    assert(ids[i as int] == self.ids@[i as int]@);
                    lemma_choose_position(ids, i as int);
                }
                let previous = self.tokens[i];
                self.tokens.set(i, token);
                proof {
                    assert(self.ids.deep_view() == ids);
                    assert forall|k: Seq<char>| #[trigger] self@.dom().contains(k) implies self@[k]
                        == old_map.insert(id@, token)[k] by {
                        let p = choose|p: int| 0 <= p < ids.len() && ids[p] == k;
                        lemma_choose_position(ids, p);
                    }
                    assert(self@ =~= old_map.insert(id@, token));
                }
                Some(previous)
            },
            None => {
                proof {
                    assert(!ids.contains(id@)) by {
                        if ids.contains(id@) {
                            let k = choose|k: int| 0 <= k < ids.len() && ids[k] == id@;
                            assert(ids[k] == self.ids@[k]@);
                        }
                    }
                }
                let ghost id_view = id@;
                self.ids.push(id);
                self.tokens.push(token);
                proof {
                    let nids = self.ids.deep_view();
                    assert(nids =~= ids.push(id_view));
                    assert(distinct_ids(nids));
                    assert forall|k: Seq<char>| #[trigger] self@.dom().contains(k) implies self@[k]
                        == old_map.insert(id_view, token)[k] by {
                        let p = choose|p: int| 0 <= p < nids.len() && nids[p] == k;
                        lemma_choose_position(nids, p);
                        if p < ids.len() {
                            lemma_choose_position(ids, p);
                        }
                    }
                    assert forall|k: Seq<char>| #[trigger] old_map.insert(id_view, token).dom().contains(
                        k,
                    ) implies self@.dom().contains(k) by {
                        if k == id_view {
                            assert(nids[ids.len() as int] == k);
                        } else {
                            let p = choose|p: int| 0 <= p < ids.len() && ids[p] == k;
                            assert(nids[p] == k);
                        }
                    }
                    assert(self@ =~= old_map.insert(id_view, token));
                }
                None
            },
        }
    }

    /// Forgets the connection of the device `id` and returns its number.
    pub fn remove(&mut self, id: &str) -> (removed: Option<u64>)
        requires
            old(self).wf(),
        ensures
            final(self).wf(),
            final(self)@ == old(self)@.remove(id@),
            removed == if old(self)@.dom().contains(id@) {
                Some(old(self)@[id@])
            } else {
                None::<u64>
            },
    {
        let ghost ids = self.ids.deep_view();
        let ghost tokens = self.tokens@;
        let ghost old_map = self@;
        match position_of(&self.ids, id) {
            Some(i) => {
                proof {
                    assert(ids[i as int] == self.ids@[i as int]@);
                    lemma_choose_position(ids, i as int);
                }
                let _ = self.ids.remove(i);
                let token = self.tokens.remove(i);
                proof {
                    let nids = self.ids.deep_view();
                    assert(nids =~= ids.remove(i as int));
                    assert(self.tokens@ =~= tokens.remove(i as int));
                    assert(distinct_ids(nids)) by {
                        assert forall|a: int, b: int|
                            0 <= a < nids.len() && 0 <= b < nids.len() && a != b implies nids[a]
                            != nids[b] by {
                            let oa = if a < i { a } else { a + 1 };
                            let ob = if b < i { b } else { b + 1 };
                            assert(nids[a] == ids[oa] && nids[b] == ids[ob]);
                        }
                    }
                    assert forall|k: Seq<char>| #[trigger] self@.dom().contains(k) implies self@[k]
                        == old_map.remove(id@)[k] && k != id@ && old_map.dom().contains(k) by {
                        let p = choose|p: int| 0 <= p < nids.len() && nids[p] == k;
                        lemma_choose_position(nids, p);
                        let op = if p < i { p } else { p + 1 };
                        assert(ids[op] == k);
                        lemma_choose_position(ids, op);
                    }
                    assert forall|k: Seq<char>| #[trigger] old_map.remove(id@).dom().contains(k) implies self@.dom().contains(k) by {
                        let p = choose|p: int| 0 <= p < ids.len() && ids[p] == k;
                        assert(p != i);
                        let np = if p < i { p } else { p - 1 };
                        assert(nids[np] == k);
                    }
                    assert(self@ =~= old_map.remove(id@));
                }
                Some(token)
            },
            None => {
                proof {
                    assert(!ids.contains(id@)) by {
                        if ids.contains(id@) {
                            let k = choose|k: int| 0 <= k < ids.len() && ids[k] == id@;
                            assert(ids[k] == self.ids@[k]@);
                        }
                    }
                    assert(self@ =~= old_map.remove(id@));
                }
                None
            },
        }
    }

    /// Forgets every connection and returns their numbers, each once.
    pub fn drain(&mut self) -> (tokens: Vec<u64>)
        requires
            old(self).wf(),
        ensures
            final(self).wf(),
            final(self)@ == Map::<Seq<char>, u64>::empty(),
            tokens@.len() == old(self)@.dom().len(),
            forall|k: Seq<char>| #[trigger] old(self)@.dom().contains(k) ==> tokens@.contains(
                old(self)@[k],
            ),
            forall|i: int| #![trigger tokens@[i]] 0 <= i < tokens@.len() ==> exists|k: Seq<char>|
                #[trigger] old(self)@.dom().contains(k) && old(self)@[k] == tokens@[i],
    {
        proof {
            self.lemma_dom_len();
        }
        let ghost ids = self.ids.deep_view();
        let ghost old_map = self@;
        let tokens = self.tokens.clone();
        proof {
            assert forall|k: Seq<char>| #[trigger] old_map.dom().contains(k) implies tokens@.contains(
                old_map[k],
            ) by {
                let p = choose|p: int| 0 <= p < ids.len() && ids[p] == k;
                assert(tokens@[p] == old_map[k]);
            }
            assert forall|i: int| #![trigger tokens@[i]] 0 <= i < tokens@.len() implies exists|k: Seq<char>|
                #[trigger] old_map.dom().contains(k) && old_map[k] == tokens@[i] by {
                lemma_choose_position(ids, i);
                assert(old_map.dom().contains(ids[i]));
            }
        }
        self.ids = Vec::new();
        self.tokens = Vec::new();
        assert(self@ =~= Map::<Seq<char>, u64>::empty());
        tokens
    }
}

} // verus!
