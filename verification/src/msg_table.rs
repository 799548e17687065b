//! The table from message names (name and CRC, such as
//! `control_ping_51077d14`) to the numeric ids that VPP assigned them.
use vstd::prelude::*;

verus! {

/// A map from message names to message ids; a name occurs at most once.
pub struct MessageTable {
    entries: Vec<(String, u16)>,
    contents: Ghost<Map<Seq<char>, u16>>,
}

impl View for MessageTable {
    type V = Map<Seq<char>, u16>;

    closed spec fn view(&self) -> Map<Seq<char>, u16> {
        self.contents@
    }
}

impl MessageTable {
    /// The entries are the map's contents, each name once.
    pub closed spec fn wf(&self) -> bool {
        &&& forall|i: int, j: int|
            0 <= i < j < self.entries@.len() ==> #[trigger] self.entries@[i].0@
                != #[trigger] self.entries@[j].0@
        &&& forall|i: int|
            0 <= i < self.entries@.len() ==> self.contents@.contains_key(
                #[trigger] self.entries@[i].0@,
            ) && self.contents@[self.entries@[i].0@] == self.entries@[i].1
        &&& forall|k: Seq<char>|
            #[trigger] self.contents@.contains_key(k) ==> exists|i: int|
                0 <= i < self.entries@.len() && #[trigger] self.entries@[i].0@ == k
    }

    /// An empty table.
    pub fn new() -> (t: MessageTable)
        ensures
            t.wf(),
            t@ == Map::<Seq<char>, u16>::empty(),
    {
        MessageTable { entries: Vec::new(), contents: Ghost(Map::empty()) }
    }

    /// Number of names in the table.
    pub fn len(&self) -> (n: usize)
        requires
            self.wf(),
        ensures
            n == self@.len(),
    {
        proof {
            self.lemma_len();
        }
        self.entries.len()
    }

    proof fn lemma_len(&self)
        requires
            self.wf(),
        ensures
            self@.len() == self.entries@.len(),
            self@.dom().finite(),
    {
        let names = Seq::new(self.entries@.len(), |i: int| self.entries@[i].0@);
        assert(names.no_duplicates()) by {
            assert forall|i: int, j: int|
                0 <= i < names.len() && 0 <= j < names.len() && i != j implies names[i]
                != names[j] by {
                if i < j {
                    assert(self.entries@[i].0@ != self.entries@[j].0@);
                } else {
                    assert(self.entries@[j].0@ != self.entries@[i].0@);
                }
            }
        }
        names.unique_seq_to_set();
        assert(self@.dom() =~= names.to_set()) by {
            assert forall|k: Seq<char>| self@.dom().contains(k) implies names.to_set().contains(
                k,
            ) by {
                let i = choose|i: int|
                    0 <= i < self.entries@.len() && #[trigger] self.entries@[i].0@ == k;
                assert(names[i] == k);
            }
            assert forall|k: Seq<char>| names.to_set().contains(k) implies self@.dom().contains(
                k,
            ) by {
                let i = choose|i: int| 0 <= i < names.len() && names[i] == k;
                assert(self.entries@[i].0@ == k);
            }
        }
    }

    /// Position of `name` among the entries, if it is there.
    fn find(&self, name: &String) -> (r: Option<usize>)
        requires
            self.wf(),
        ensures
            match r {
                Some(i) => i < self.entries@.len() && self.entries@[i as int].0@ == name@,
                None => !self@.contains_key(name@),
            },
    {
        let mut i: usize = 0;
        while i < self.entries.len()
            invariant
                self.wf(),
                i <= self.entries@.len(),
                forall|j: int| 0 <= j < i ==> #[trigger] self.entries@[j].0@ != name@,
            decreases self.entries@.len() - i,
        {
            if self.entries[i].0 == *name {
                return Some(i);
            }
            i = i + 1;
        }
        proof {
            if self@.contains_key(name@) {
                let j = choose|j: int|
                    0 <= j < self.entries@.len() && #[trigger] self.entries@[j].0@ == name@;
                assert(self.entries@[j].0@ != name@);
            }
        }
        None
    }

    /// Records that `name` has the id `id`, in place of any id it had.
    pub fn insert(&mut self, name: String, id: u16)
        requires
            old(self).wf(),
        ensures
            final(self).wf(),
            final(self)@ == old(self)@.insert(name@, id),
    {
        let ghost key = name@;
        let ghost new_contents = self.contents@.insert(key, id);
        match self.find(&name) {
            Some(i) => {
                self.entries.set(i, (name, id));
                self.contents = Ghost(new_contents);
                assert forall|j: int| 0 <= j < self.entries@.len() implies self.contents@.contains_key(
                    #[trigger] self.entries@[j].0@,
                ) && self.contents@[self.entries@[j].0@] == self.entries@[j].1 by {
                    if j != i {
                        assert(old(self).entries@[j].0@ != key) by {
                            if j < i {
                                assert(old(self).entries@[j].0@ != old(self).entries@[i as int].0@);
                            } else {
                                assert(old(self).entries@[i as int].0@ != old(self).entries@[j].0@);
                            }
                        }
                    }
                }
                assert forall|k: Seq<char>| #[trigger] self.contents@.contains_key(k) implies exists|
                    j: int,
                |
                    0 <= j < self.entries@.len() && #[trigger] self.entries@[j].0@ == k by {
                    if k == key {
                        assert(self.entries@[i as int].0@ == k);
                    } else {
                        let j = choose|j: int|
                            0 <= j < old(self).entries@.len() && #[trigger] old(
                                self,
                            ).entries@[j].0@ == k;
                        assert(self.entries@[j].0@ == k);
                    }
                }
            },
            None => {
                self.entries.push((name, id));
                self.contents = Ghost(new_contents);
                let ghost n = self.entries@.len() - 1;
                assert forall|a: int, b: int|
                    0 <= a < b < self.entries@.len() implies #[trigger] self.entries@[a].0@
                    != #[trigger] self.entries@[b].0@ by {
                    if b == n {
                        assert(old(self).contents@.contains_key(old(self).entries@[a].0@));
                    } else {
                        assert(old(self).entries@[a].0@ != old(self).entries@[b].0@);
                    }
                }
                assert forall|j: int| 0 <= j < self.entries@.len() implies self.contents@.contains_key(
                    #[trigger] self.entries@[j].0@,
                ) && self.contents@[self.entries@[j].0@] == self.entries@[j].1 by {
                    if j < n {
                        assert(old(self).contents@.contains_key(old(self).entries@[j].0@));
                    }
                }
                assert forall|k: Seq<char>| #[trigger] self.contents@.contains_key(k) implies exists|
                    j: int,
                |
                    0 <= j < self.entries@.len() && #[trigger] self.entries@[j].0@ == k by {
                    if k == key {
                        assert(self.entries@[n].0@ == k);
                    } else {
                        let j = choose|j: int|
                            0 <= j < old(self).entries@.len() && #[trigger] old(
                                self,
                            ).entries@[j].0@ == k;
                        assert(self.entries@[j].0@ == k);
                    }
                }
            },
        }
    }

    /// The id recorded for `name`, if any.
    pub fn get(&self, name: &str) -> (r: Option<u16>)
        requires
            self.wf(),
        ensures
            r == (if self@.contains_key(name@) {
                Some(self@[name@])
            } else {
                None
            }),
    {
        let key = name.to_owned();
        match self.find(&key) {
            Some(i) => Some(self.entries[i].1),
            None => None,
        }
    }
}

} // verus!
