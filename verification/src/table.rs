use vstd::prelude::*;

verus! {

/// One entry of a `Table`: a name and the value stored under it.
#[derive(Debug)]
pub struct Slot<V> {
    pub name: String,
    pub value: V,
}

/// Values stored under distinct string names, kept in the order in which
/// the names were first inserted.
///
/// This stands in for `std::collections::HashMap<String, V>`: vstd states
/// what `HashMap` operations do only for key types that obey its key model
/// (`obeys_key_model`), and it gives that fact for integer and `bool` keys
/// but not for `String`, so no `HashMap` call with a `String` key can be
/// proved to do anything. Lookups here walk the slots one by one.
#[derive(Debug)]
pub struct Table<V> {
    pub slots: Vec<Slot<V>>,
}

impl<V: View> View for Table<V> {
    type V = Map<Seq<char>, V::V>;

    open spec fn view(&self) -> Map<Seq<char>, V::V> {
        self.model()
    }
}

impl<V: View> Table<V> {
    /// The names of the slots, in slot order.
    pub open spec fn names(&self) -> Seq<Seq<char>> {
        self.slots@.map_values(|s: Slot<V>| s.name@)
    }

    /// No name occurs twice.
    pub open spec fn wf(&self) -> bool {
        self.names().no_duplicates()
    }

    /// The slot that holds `k`.
    pub open spec fn index_of(&self, k: Seq<char>) -> int {
        choose|i: int| 0 <= i < self.slots@.len() && #[trigger] self.names()[i] == k
    }

    /// What the table maps each of its names to.
    pub open spec fn model(&self) -> Map<Seq<char>, V::V> {
        Map::new(
            |k: Seq<char>| self.names().contains(k),
            |k: Seq<char>| self.slots@[self.index_of(k)].value@,
        )
    }

    /// In a well-formed table, the slot found for the name at `i` is `i`.
    pub proof fn lemma_index_of(&self, i: int)
        requires
            self.wf(),
            0 <= i < self.slots@.len(),
        ensures
            self.index_of(self.names()[i]) == i,
            self.model().contains_key(self.names()[i]),
            self.model()[self.names()[i]] == self.slots@[i].value@,
    {
        let k = self.names()[i];
        assert(self.names()[i] == k);
        let j = self.index_of(k);
        assert(0 <= j < self.slots@.len() && self.names()[j] == k);
        assert(self.names().contains(k));
    }

    /// The names of the table are the domain of its model.
    pub proof fn lemma_names_are_domain(&self)
        ensures
            self.names().to_set() == self.model().dom(),
    {
        assert(self.names().to_set() =~= self.model().dom());
    }

    /// Replacing the value of slot `i` updates the model at that slot's name
    /// and keeps the table well-formed.
    pub proof fn lemma_update_value(old_t: &Self, new_t: &Self, i: int, s: Slot<V>)
        requires
            old_t.wf(),
            0 <= i < old_t.slots@.len(),
            s.name@ == old_t.names()[i],
            new_t.slots@ == old_t.slots@.update(i, s),
        ensures
            new_t.wf(),
            new_t.names() == old_t.names(),
            new_t.model() == old_t.model().insert(old_t.names()[i], s.value@),
    {
        let v = s.value;
        assert(new_t.names() =~= old_t.names());
        let k = old_t.names()[i];
        assert forall|x: Seq<char>| #[trigger] new_t.model().contains_key(x) implies new_t.model()[x]
            == old_t.model().insert(k, v@)[x] by {
            assert(new_t.names().contains(x));
            let w = choose|w: int| 0 <= w < new_t.names().len() && new_t.names()[w] == x;
            new_t.lemma_index_of(w);
            if w != i {
                old_t.lemma_index_of(w);
            }
        }
        old_t.lemma_index_of(i);
        assert(new_t.model() =~= old_t.model().insert(k, v@));
    }

    /// Dropping slot `i` removes its name from the model.
    pub proof fn lemma_remove_slot(old_t: &Self, new_t: &Self, i: int)
        requires
            old_t.wf(),
            0 <= i < old_t.slots@.len(),
            new_t.slots@ == old_t.slots@.remove(i),
        ensures
            new_t.wf(),
            new_t.model() == old_t.model().remove(old_t.names()[i]),
    {
        let k = old_t.names()[i];
        assert(new_t.names() =~= old_t.names().remove(i));
        assert forall|a: int, b: int|
            0 <= a < b < new_t.names().len() implies new_t.names()[a] != new_t.names()[b] by {
            let oa = if a < i { a } else { a + 1 };
            let ob = if b < i { b } else { b + 1 };
            assert(new_t.names()[a] == old_t.names()[oa]);
            assert(new_t.names()[b] == old_t.names()[ob]);
        }
        assert forall|x: Seq<char>|
            new_t.names().contains(x) <==> old_t.model().remove(k).contains_key(x) by {
            if new_t.names().contains(x) {
                let w = choose|w: int| 0 <= w < new_t.names().len() && new_t.names()[w] == x;
                let ow = if w < i { w } else { w + 1 };
                assert(old_t.names()[ow] == x);
                assert(old_t.names().contains(x));
            }
            if old_t.model().remove(k).contains_key(x) {
                let w = choose|w: int| 0 <= w < old_t.names().len() && old_t.names()[w] == x;
                assert(w != i);
                let nw = if w < i { w } else { w - 1 };
                assert(new_t.names()[nw] == x);
            }
        }
        assert forall|x: Seq<char>| #[trigger] new_t.model().contains_key(x) implies new_t.model()[x]
            == old_t.model().remove(k)[x] by {
            let w = choose|w: int| 0 <= w < new_t.names().len() && new_t.names()[w] == x;
            new_t.lemma_index_of(w);
            let ow = if w < i { w } else { w + 1 };
            assert(old_t.names()[ow] == x);
            old_t.lemma_index_of(ow);
        }
        assert(new_t.model() =~= old_t.model().remove(k));
    }

    /// Appending a slot under a fresh name adds that name to the model.
    pub proof fn lemma_push_slot(old_t: &Self, new_t: &Self, s: Slot<V>)
        requires
            old_t.wf(),
            !old_t.names().contains(s.name@),
            new_t.slots@ == old_t.slots@.push(s),
        ensures
            new_t.wf(),
            new_t.names() == old_t.names().push(s.name@),
            new_t.model() == old_t.model().insert(s.name@, s.value@),
    {
        let n = old_t.slots@.len() as int;
        assert(new_t.names() =~= old_t.names().push(s.name@));
        assert forall|a: int, b: int|
            0 <= a < b < new_t.names().len() implies new_t.names()[a] != new_t.names()[b] by {
            if b == n {
                assert(old_t.names()[a] == new_t.names()[a]);
            }
        }
        assert forall|x: Seq<char>| #[trigger] new_t.model().contains_key(x) implies new_t.model()[x]
            == old_t.model().insert(s.name@, s.value@)[x] by {
            let w = choose|w: int| 0 <= w < new_t.names().len() && new_t.names()[w] == x;
            new_t.lemma_index_of(w);
            if w < n {
                old_t.lemma_index_of(w);
            }
        }
        assert forall|x: Seq<char>|
            new_t.names().contains(x) <==> old_t.model().insert(s.name@, s.value@).contains_key(
                x,
            ) by {
            if new_t.names().contains(x) {
                let w = choose|w: int| 0 <= w < new_t.names().len() && new_t.names()[w] == x;
                if w < n {
                    assert(old_t.names()[w] == x);
                }
            }
            if old_t.names().contains(x) {
                let w = choose|w: int| 0 <= w < old_t.names().len() && old_t.names()[w] == x;
                assert(new_t.names()[w] == x);
            }
            if x == s.name@ {
                assert(new_t.names()[n] == x);
            }
        }
        assert(new_t.model() =~= old_t.model().insert(s.name@, s.value@));
    }

    /// Tables with the same names and, slot by slot, values with the same
    /// view have the same model.
    pub proof fn lemma_same_slots_same_model(a: &Self, b: &Self)
        requires
            a.slots@.len() == b.slots@.len(),
            a.names() == b.names(),
            forall|j: int| 0 <= j < a.slots@.len() ==> #[trigger] a.slots@[j].value@ == b.slots@[j].value@,
        ensures
            a.model() == b.model(),
            a.wf() == b.wf(),
    {
        assert forall|k: Seq<char>| #[trigger] a.model().contains_key(k) implies a.model()[k]
            == b.model()[k] by {
            let w = choose|w: int| 0 <= w < a.names().len() && a.names()[w] == k;
            assert(b.names()[w] == k);
            if a.wf() {
                a.lemma_index_of(w);
                b.lemma_index_of(w);
            } else {
                assert(a.index_of(k) == b.index_of(k));
            }
        }
        assert(a.model() =~= b.model());
    }

    /// An empty table.
    pub fn new() -> (t: Self)
        ensures
            t.wf(),
            t.slots@ == Seq::<Slot<V>>::empty(),
            t.model() == Map::<Seq<char>, V::V>::empty(),
    {
        let t = Table { slots: Vec::new() };
        assert(t.model() =~= Map::<Seq<char>, V::V>::empty());
        t
    }

    /// The slot that holds `name`, if any.
    pub fn find(&self, name: &String) -> (r: Option<usize>)
        requires
            self.wf(),
        ensures
            match r {
                Some(i) => i < self.slots@.len() && self.names()[i as int] == name@,
                None => !self.names().contains(name@),
            },
    {
        let mut i: usize = 0;
        while i < self.slots.len()
            invariant
                i <= self.slots@.len(),
                forall|j: int| 0 <= j < i ==> self.names()[j] != name@,
            decreases self.slots@.len() - i,
        {
            if self.slots[i].name == *name {
                return Some(i);
            }
            i += 1;
        }
        None
    }

    /// The value stored under `name`, if any.
    pub fn get(&self, name: &String) -> (r: Option<&V>)
        requires
            self.wf(),
        ensures
            match r {
                Some(v) => self.model().contains_key(name@) && v@ == self.model()[name@],
                None => !self.model().contains_key(name@),
            },
    {
        match self.find(name) {
            Some(i) => {
                proof {
                    self.lemma_index_of(i as int);
                }
                Some(&self.slots[i].value)
            },
            None => None,
        }
    }

    /// Stores `value` under `name`, replacing what was there.
    pub fn insert(&mut self, name: String, value: V)
        requires
            old(self).wf(),
        ensures
            final(self).wf(),
            final(self).model() == old(self).model().insert(name@, value@),
    {
        match self.find(&name) {
            Some(i) => {
                let ghost before = *self;
                let s = Slot { name, value };
                let ghost gs = s;
                self.slots.set(i, s);
                proof {
                    Self::lemma_update_value(&before, self, i as int, gs);
                }
            },
            None => {
                let ghost before = *self;
                let s = Slot { name, value };
                let ghost gs = s;
                self.slots.push(s);
                proof {
                    Self::lemma_push_slot(&before, self, gs);
                }
            },
        }
    }

    /// Drops whatever is stored under `name`.
    pub fn remove(&mut self, name: &String)
        requires
            old(self).wf(),
        ensures
            final(self).wf(),
            final(self).model() == old(self).model().remove(name@),
            forall|s: Slot<V>| #[trigger]
                final(self).slots@.contains(s) ==> old(self).slots@.contains(s),
    {
        match self.find(name) {
            Some(i) => {
                let ghost before = *self;
                self.slots.remove(i);
                proof {
                    Self::lemma_remove_slot(&before, self, i as int);
                    assert forall|s: Slot<V>| #[trigger] self.slots@.contains(s) implies before.slots@.contains(
                        s,
                    ) by {
                        let w = choose|w: int| 0 <= w < self.slots@.len() && self.slots@[w] == s;
                        let ow = if w < i { w } else { w + 1 };
                        assert(before.slots@[ow] == s);
                    }
                }
            },
            None => {
                assert(self.model() =~= old(self).model().remove(name@));
            },
        }
    }

    /// The slot that holds `name`; when there is none, one is appended that
    /// holds `default`.
    pub fn slot_for(&mut self, name: String, default: V) -> (i: usize)
        requires
            old(self).wf(),
        ensures
            final(self).wf(),
            i < final(self).slots@.len(),
            final(self).names()[i as int] == name@,
            final(self).model() == if old(self).model().contains_key(name@) {
                old(self).model()
            } else {
                old(self).model().insert(name@, default@)
            },
            forall|s: Slot<V>| #[trigger]
                final(self).slots@.contains(s) ==> old(self).slots@.contains(s) || s.value
                    == default,
    {
        match self.find(&name) {
            Some(i) => {
                proof {
                    self.lemma_index_of(i as int);
                }
                i
            },
            None => {
                let ghost before = *self;
                let s = Slot { name, value: default };
                let ghost gs = s;
                self.slots.push(s);
                proof {
                    Self::lemma_push_slot(&before, self, gs);
                    assert(self.names()[before.slots@.len() as int] == gs.name@);
                    assert forall|x: Slot<V>| #[trigger] self.slots@.contains(x) implies before.slots@.contains(
                        x,
                    ) || x.value == default by {
                        let w = choose|w: int| 0 <= w < self.slots@.len() && self.slots@[w] == x;
                        if w < before.slots@.len() {
                            assert(before.slots@[w] == x);
                        }
                    }
                }
                self.slots.len() - 1
            },
        }
    }

    /// Drops every slot.
    pub fn clear(&mut self)
        ensures
            final(self).wf(),
            final(self).slots@ == Seq::<Slot<V>>::empty(),
            final(self).model() == Map::<Seq<char>, V::V>::empty(),
    {
        self.slots.clear();
        assert(self.model() =~= Map::<Seq<char>, V::V>::empty());
    }

    /// Copies of the names, in slot order.
    pub fn names_vec(&self) -> (r: Vec<String>)
        requires
            self.wf(),
        ensures
            r@.map_values(|s: String| s@).no_duplicates(),
            r@.map_values(|s: String| s@).to_set() == self.model().dom(),
    {
        let mut r: Vec<String> = Vec::new();
        let mut i: usize = 0;
        while i < self.slots.len()
            invariant
                i <= self.slots@.len(),
                r@.len() == i,
                forall|j: int| 0 <= j < i ==> #[trigger] r@[j]@ == self.names()[j],
            decreases self.slots@.len() - i,
        {
            r.push(self.slots[i].name.clone());
            i += 1;
        }
        assert(r@.map_values(|s: String| s@) =~= self.names());
        proof {
            self.lemma_names_are_domain();
        }
        r
    }
}

impl Table<Vec<u8>> {
    /// A copy of the table, slot by slot.
    pub fn duplicate(&self) -> (r: Self)
        ensures
            r.slots@.len() == self.slots@.len(),
            r.names() == self.names(),
            forall|j: int| 0 <= j < self.slots@.len() ==> #[trigger] r.slots@[j].value@ == self.slots@[j].value@,
            r.model() == self.model(),
            r.wf() == self.wf(),
    {
        let mut r: Table<Vec<u8>> = Table { slots: Vec::new() };
        let mut i: usize = 0;
        while i < self.slots.len()
            invariant
                i <= self.slots@.len(),
                r.slots@.len() == i,
                forall|j: int| 0 <= j < i ==> #[trigger] r.slots@[j].name@ == self.slots@[j].name@,
                forall|j: int| 0 <= j < i ==> #[trigger] r.slots@[j].value@ == self.slots@[j].value@,
            decreases self.slots@.len() - i,
        {
            let value = self.slots[i].value.clone();
            assert(value@ =~= self.slots@[i as int].value@);
            r.slots.push(Slot { name: self.slots[i].name.clone(), value });
            i += 1;
        }
        assert(r.names() =~= self.names());
        proof {
            Self::lemma_same_slots_same_model(&r, self);
        }
        r
    }
}

impl Table<Table<Vec<u8>>> {
    /// A copy of the table and of each table in it.
    pub fn duplicate_nested(&self) -> (r: Self)
        ensures
            r.slots@.len() == self.slots@.len(),
            r.names() == self.names(),
            forall|j: int| 0 <= j < self.slots@.len() ==> #[trigger] r.slots@[j].value.wf() == self.slots@[j].value.wf(),
            r.model() == self.model(),
            r.wf() == self.wf(),
    {
        let mut r: Table<Table<Vec<u8>>> = Table { slots: Vec::new() };
        let mut i: usize = 0;
        while i < self.slots.len()
            invariant
                i <= self.slots@.len(),
                r.slots@.len() == i,
                forall|j: int| 0 <= j < i ==> #[trigger] r.slots@[j].name@ == self.slots@[j].name@,
                forall|j: int| 0 <= j < i ==> #[trigger] r.slots@[j].value@ == self.slots@[j].value@,
                forall|j: int| 0 <= j < i ==> #[trigger] r.slots@[j].value.wf() == self.slots@[j].value.wf(),
            decreases self.slots@.len() - i,
        {
            let value = self.slots[i].value.duplicate();
            r.slots.push(Slot { name: self.slots[i].name.clone(), value });
            i += 1;
        }
        assert(r.names() =~= self.names());
        proof {
            Self::lemma_same_slots_same_model(&r, self);
        }
        r
    }
}

} // verus!
