//! Sets of names.
use crate::text::{copy_text, is_one_of, text_eq, texts};
use vstd::prelude::*;

verus! {

/// A set of names.
pub struct NameSet {
    list: Vec<String>,
}

impl View for NameSet {
    type V = Set<Seq<char>>;

    closed spec fn view(&self) -> Set<Seq<char>> {
        texts(self.list@).to_set()
    }
}

impl NameSet {
    /// No name is held twice.
    pub closed spec fn wf(&self) -> bool {
        texts(self.list@).no_duplicates()
    }

    /// The names, in the order in which they came.
    pub closed spec fn order(&self) -> Seq<Seq<char>> {
        texts(self.list@)
    }

    /// The order holds each name of the set once.
    pub proof fn order_lists_names(&self)
        requires
            self.wf(),
        ensures
            self.order().no_duplicates(),
            self.order().to_set() == self@,
    {
    }

    /// The empty set.
    pub fn new() -> (r: NameSet)
        ensures
            r.wf(),
            r@ == Set::<Seq<char>>::empty(),
            r.order() == Seq::<Seq<char>>::empty(),
    {
        let r = NameSet { list: Vec::new() };
        assert(texts(r.list@) =~= Seq::empty());
        assert(r@ =~= Set::empty());
        r
    }

    /// The set of one name.
    pub fn of(name: &str) -> (r: NameSet)
        ensures
            r.wf(),
            r@ == set![name@],
            r.order() == seq![name@],
    {
        let mut r = NameSet::new();
        r.insert(name);
        assert(r@ =~= set![name@]);
        assert(r.order() =~= seq![name@]);
        r
    }

    /// Whether `name` is in the set.
    pub fn contains(&self, name: &str) -> (r: bool)
        requires
            self.wf(),
        ensures
            r == self@.contains(name@),
    {
        is_one_of(name, &self.list)
    }

    /// The number of names.
    pub fn len(&self) -> (r: usize)
        requires
            self.wf(),
        ensures
            r == self.order().len(),
            r == self@.len(),
            self@.finite(),
    {
        proof {
            texts(self.list@).unique_seq_to_set();
        }
        self.list.len()
    }

    /// The name at position `i` of the order.
    pub fn name_at(&self, i: usize) -> (r: &String)
        requires
            self.wf(),
            i < self.order().len(),
        ensures
            r@ == self.order()[i as int],
            self@.contains(r@),
    {
        assert(texts(self.list@).contains(texts(self.list@)[i as int]));
        &self.list[i]
    }

    /// Puts `name` into the set.
    pub fn insert(&mut self, name: &str)
        requires
            old(self).wf(),
        ensures
            final(self).wf(),
            final(self)@ == old(self)@.insert(name@),
            final(self).order() == if old(self)@.contains(name@) {
                old(self).order()
            } else {
                old(self).order().push(name@)
            },
    {
        if !is_one_of(name, &self.list) {
            let ghost before = texts(self.list@);
            self.list.push(copy_text(name));
            let ghost after = texts(self.list@);
            assert(after =~= before.push(name@));
            assert forall|n: Seq<char>| after.contains(n) <==> before.contains(n) || n == name@ by {
                if before.contains(n) {
                    assert(after[before.index_of(n)] == n);
                }
                assert(after[before.len() as int] == name@);
                if after.contains(n) {
                    let k = after.index_of(n);
                    if k < before.len() {
                        assert(before[k] == n);
                    }
                }
            }
        }
        assert(self@ =~= old(self)@.insert(name@));
    }

    /// Takes `name` out of the set.
    pub fn remove(&mut self, name: &str)
        requires
            old(self).wf(),
        ensures
            final(self).wf(),
            final(self)@ == old(self)@.remove(name@),
    {
        let n: usize = self.list.len();
        for i in 0..n
            invariant
                n == self.list@.len(),
                self.wf(),
                self == old(self),
                forall|k: int| 0 <= k < i ==> texts(self.list@)[k] != name@,
        {
            if text_eq(self.list[i].as_str(), name) {
                let ghost before = texts(self.list@);
                self.list.remove(i);
                let ghost after = texts(self.list@);
                assert(after =~= before.remove(i as int));
                assert forall|n: Seq<char>| after.contains(n) <==> before.contains(n) && n
                    != name@ by {
                    if before.contains(n) && n != name@ {
                        let k = before.index_of(n);
                        let j = if k < i {
                            k
                        } else {
                            k - 1
                        };
                        assert(after[j] == n);
                    }
                    if after.contains(n) {
                        let j = after.index_of(n);
                        let k = if j < i {
                            j
                        } else {
                            j + 1
                        };
                        assert(before[k] == n);
                        assert(before[i as int] == name@);
                    }
                }
                assert(self@ =~= old(self)@.remove(name@));
                return;
            }
        }
        assert(self@ =~= old(self)@.remove(name@));
    }

    /// Empties the set.
    pub fn clear(&mut self)
        ensures
            final(self).wf(),
            final(self)@ == Set::<Seq<char>>::empty(),
            final(self).order() == Seq::<Seq<char>>::empty(),
    {
        *self = NameSet::new();
    }
}

} // verus!
