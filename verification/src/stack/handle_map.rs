//! A map from socket handles to what the stack keeps for each socket.

use vstd::prelude::*;

use smoltcp::iface::SocketHandle;

use super::net::same_handle;

verus! {

/// A map with socket handles as keys. The entries stand in the order in which
/// their keys were first added.
pub struct HandleMap<V> {
    pub entries: Vec<(SocketHandle, V)>,
}

/// The entry of `handle` stands at `i`.
pub open spec fn entry_at<V>(entries: Seq<(SocketHandle, V)>, handle: SocketHandle, i: int) -> bool {
    0 <= i < entries.len() && entries[i].0 == handle
}

/// Two maps keep the same for `handle`.
pub open spec fn agree<V>(
    a: Map<SocketHandle, V>,
    b: Map<SocketHandle, V>,
    handle: SocketHandle,
) -> bool {
    a.contains_key(handle) == b.contains_key(handle) && (a.contains_key(handle) ==> a[handle]
        == b[handle])
}

proof fn lemma_same_map<V>(a: Map<SocketHandle, V>, b: Map<SocketHandle, V>)
    requires
        forall|handle: SocketHandle| #[trigger] agree(a, b, handle),
    ensures
        a == b,
{
    assert forall|handle: SocketHandle| a.contains_key(handle) == b.contains_key(handle) by {
        assert(agree(a, b, handle));
    }
    assert forall|handle: SocketHandle| a.contains_key(handle) implies a[handle] == b[handle] by {
        assert(agree(a, b, handle));
    }
    assert(a =~= b);
}

impl<V> View for HandleMap<V> {
    type V = Map<SocketHandle, V>;

    open spec fn view(&self) -> Map<SocketHandle, V> {
        Map::new(
            |handle: SocketHandle| exists|i: int| #[trigger] entry_at(self.entries@, handle, i),
            |handle: SocketHandle|
                self.entries@[choose|i: int| #[trigger] entry_at(self.entries@, handle, i)].1,
        )
    }
}

impl<V> HandleMap<V> {
    /// No key has two entries.
    pub open spec fn wf(&self) -> bool {
        forall|i: int, j: int|
            0 <= i < self.entries@.len() && 0 <= j < self.entries@.len() && (
            #[trigger] self.entries@[i]).0 == (#[trigger] self.entries@[j]).0 ==> i == j
    }

    /// What the map holds is what its entries say.
    pub proof fn lemma_entries(&self)
        requires
            self.wf(),
        ensures
            forall|i: int|
                0 <= i < self.entries@.len() ==> self@.contains_key(
                    (#[trigger] self.entries@[i]).0,
                ) && self@[self.entries@[i].0] == self.entries@[i].1,
            forall|handle: SocketHandle| #[trigger]
                self@.contains_key(handle) ==> exists|i: int|
                    #[trigger] entry_at(self.entries@, handle, i),
    {
        assert forall|i: int| 0 <= i < self.entries@.len() implies self@.contains_key(
            (#[trigger] self.entries@[i]).0,
        ) && self@[self.entries@[i].0] == self.entries@[i].1 by {
            assert(entry_at(self.entries@, self.entries@[i].0, i));
        }
    }

    pub fn new() -> (map: Self)
        ensures
            map.wf(),
            map@ == Map::<SocketHandle, V>::empty(),
    {
        let map = HandleMap { entries: Vec::new() };
        assert(map@ =~= Map::<SocketHandle, V>::empty());
        map
    }

    /// Where the entry of `handle` stands.
    pub fn position(&self, handle: SocketHandle) -> (index: Option<usize>)
        requires
            self.wf(),
        ensures
            match index {
                Some(i) => i < self.entries@.len() && self.entries@[i as int].0 == handle
                    && self@.contains_key(handle) && self@[handle] == self.entries@[i as int].1,
                None => !self@.contains_key(handle),
            },
    {
        proof {
            self.lemma_entries();
        }
        let mut i: usize = 0;
        while i < self.entries.len()
            invariant
                self.wf(),
                i <= self.entries@.len(),
                forall|j: int| 0 <= j < i ==> (#[trigger] self.entries@[j]).0 != handle,
            decreases self.entries@.len() - i,
        {
            if same_handle(self.entries[i].0, handle) {
                proof {
                    self.lemma_entries();
                    assert(self.entries@[i as int].0 == handle);
                }
                return Some(i);
            }
            i = i + 1;
        }
        None
    }

    pub fn contains(&self, handle: SocketHandle) -> (found: bool)
        requires
            self.wf(),
        ensures
            found == self@.contains_key(handle),
    {
        self.position(handle).is_some()
    }

    /// What is kept for `handle`.
    pub fn get(&self, handle: SocketHandle) -> (value: Option<&V>)
        requires
            self.wf(),
        ensures
            match value {
                Some(v) => self@.contains_key(handle) && *v == self@[handle],
                None => !self@.contains_key(handle),
            },
    {
        match self.position(handle) {
            Some(i) => Some(&self.entries[i].1),
            None => None,
        }
    }

    /// The keys, each once.
    pub fn keys(&self) -> (keys: Vec<SocketHandle>)
        requires
            self.wf(),
        ensures
            keys@.no_duplicates(),
            keys@.len() == self.entries@.len(),
            forall|i: int|
                0 <= i < keys@.len() ==> #[trigger] keys@[i] == self.entries@[i].0
                    && self@.contains_key(keys@[i]),
            forall|handle: SocketHandle| #[trigger]
                self@.contains_key(handle) ==> keys@.contains(handle),
    {
        let mut keys: Vec<SocketHandle> = Vec::new();
        let mut i: usize = 0;
        while i < self.entries.len()
            invariant
                self.wf(),
                i <= self.entries@.len(),
                keys@.len() == i,
                forall|j: int| 0 <= j < i ==> #[trigger] keys@[j] == self.entries@[j].0,
            decreases self.entries@.len() - i,
        {
            keys.push(self.entries[i].0);
            i = i + 1;
        }
        proof {
            self.lemma_entries();
            assert forall|i: int, j: int|
                0 <= i < keys@.len() && 0 <= j < keys@.len() && i != j implies keys@[i]
                != keys@[j] by {
                assert(self.entries@[i].0 == keys@[i] && self.entries@[j].0 == keys@[j]);
            }
            assert forall|handle: SocketHandle| #[trigger]
                self@.contains_key(handle) implies keys@.contains(handle) by {
                let i = choose|i: int| #[trigger] entry_at(self.entries@, handle, i);
                assert(keys@[i] == self.entries@[i].0);
            }
            assert forall|i: int| 0 <= i < keys@.len() implies #[trigger] keys@[i]
                == self.entries@[i].0 && self@.contains_key(keys@[i]) by {
                assert(self.entries@[i].0 == keys@[i]);
            }
        }
        keys
    }

    /// Keep `value` for `handle`, in place of what was kept.
    pub fn insert(&mut self, handle: SocketHandle, value: V)
        requires
            old(self).wf(),
        ensures
            final(self).wf(),
            final(self)@ == old(self)@.insert(handle, value),
            !old(self)@.contains_key(handle) ==> final(self).entries@ == old(self).entries@.push(
                (handle, value),
            ),
            forall|i: int|
                0 <= i < old(self).entries@.len() && (#[trigger] old(self).entries@[i]).0 == handle
                    ==> final(self).entries@ == old(self).entries@.update(i, (handle, value)),
    {
        let ghost before = *self;
        match self.position(handle) {
            Some(i) => {
                self.entries[i] = (handle, value);
                proof {
                    assert forall|a: int, b: int|
                        0 <= a < self.entries@.len() && 0 <= b < self.entries@.len() && (
                        #[trigger] self.entries@[a]).0 == (
                        #[trigger] self.entries@[b]).0 implies a == b by {
                        assert(before.entries@[a].0 == before.entries@[b].0);
                    }
                    before.lemma_entries();
                    self.lemma_entries();
                    assert forall|h: SocketHandle| #[trigger] agree(
                        self@,
                        before@.insert(handle, value),
                        h,
                    ) by {
                        if before@.contains_key(h) {
                            let j = choose|j: int| #[trigger] entry_at(before.entries@, h, j);
                            assert(self.entries@[j].0 == h);
                            assert(before.entries@[j].0 == h);
                        }
                        if self@.contains_key(h) {
                            let j = choose|j: int| #[trigger] entry_at(self.entries@, h, j);
                            assert(self.entries@[j].0 == h);
                            assert(before.entries@[j].0 == h);
                        }
                        assert(self.entries@[i as int].0 == handle);
                    }
                    lemma_same_map(self@, before@.insert(handle, value));
                }
            },
            None => {
                self.entries.push((handle, value));
                proof {
                    before.lemma_entries();
                    assert forall|a: int, b: int|
                        0 <= a < self.entries@.len() && 0 <= b < self.entries@.len() && (
                        #[trigger] self.entries@[a]).0 == (
                        #[trigger] self.entries@[b]).0 implies a == b by {
                        if a < before.entries@.len() {
                            assert(before@.contains_key(before.entries@[a].0));
                        }
                        if b < before.entries@.len() {
                            assert(before@.contains_key(before.entries@[b].0));
                        }
                    }
                    self.lemma_entries();
                    let last = before.entries@.len() as int;
                    assert(self.entries@[last].0 == handle);
                    assert forall|h: SocketHandle| #[trigger] agree(
                        self@,
                        before@.insert(handle, value),
                        h,
                    ) by {
                        if before@.contains_key(h) {
                            let j = choose|j: int| #[trigger] entry_at(before.entries@, h, j);
                            assert(self.entries@[j].0 == h);
                            assert(before.entries@[j].0 == h);
                        }
                        if self@.contains_key(h) {
                            let j = choose|j: int| #[trigger] entry_at(self.entries@, h, j);
                            assert(self.entries@[j].0 == h);
                            if j < last {
                                assert(before.entries@[j].0 == h);
                            }
                        }
                    }
                    lemma_same_map(self@, before@.insert(handle, value));
                }
            },
        }
    }

    /// Forget `handle`, and hand back what was kept for it.
    pub fn remove(&mut self, handle: SocketHandle) -> (value: Option<V>)
        requires
            old(self).wf(),
        ensures
            final(self).wf(),
            final(self)@ == old(self)@.remove(handle),
            !old(self)@.contains_key(handle) ==> final(self).entries@ == old(self).entries@,
            forall|i: int|
                0 <= i < old(self).entries@.len() && (#[trigger] old(self).entries@[i]).0 == handle
                    ==> final(self).entries@ == old(self).entries@.remove(i),
            match value {
                Some(v) => old(self)@.contains_key(handle) && v == old(self)@[handle],
                None => !old(self)@.contains_key(handle),
            },
    {
        let ghost before = *self;
        match self.position(handle) {
            Some(i) => {
                let entry = self.entries.remove(i);
                proof {
                    let at = i as int;
                    before.lemma_entries();
                    assert forall|a: int| 0 <= a < self.entries@.len() implies #[trigger]
                        self.entries@[a] == before.entries@[if a < at {
                        a
                    } else {
                        a + 1
                    }] by {}
                    assert forall|a: int, b: int|
                        0 <= a < self.entries@.len() && 0 <= b < self.entries@.len() && (
                        #[trigger] self.entries@[a]).0 == (
                        #[trigger] self.entries@[b]).0 implies a == b by {}
                    self.lemma_entries();
                    assert forall|h: SocketHandle| #[trigger] agree(
                        self@,
                        before@.remove(handle),
                        h,
                    ) by {
                        if before@.contains_key(h) && h != handle {
                            let j = choose|j: int| #[trigger] entry_at(before.entries@, h, j);
                            assert(before.entries@[j].0 == h);
                            if j < at {
                                assert(self.entries@[j].0 == h);
                            } else {
                                assert(self.entries@[j - 1].0 == h);
                            }
                        }
                        if self@.contains_key(h) {
                            let j = choose|j: int| #[trigger] entry_at(self.entries@, h, j);
                            assert(self.entries@[j].0 == h);
                            let k = if j < at {
                                j
                            } else {
                                j + 1
                            };
                            assert(before.entries@[k].0 == h);
                        }
                    }
                    lemma_same_map(self@, before@.remove(handle));
                }
                Some(entry.1)
            },
            None => {
                proof {
                    before.lemma_entries();
                    assert(self@ =~= before@.remove(handle));
                }
                None
            },
        }
    }

    /// What is kept in the entry at `index`, to be changed in place.
    pub fn value_mut(&mut self, index: usize) -> (value: &mut V)
        requires
            old(self).wf(),
            index < old(self).entries@.len(),
        ensures
            *value == old(self).entries@[index as int].1,
            final(self).entries@ == old(self).entries@.update(
                index as int,
                (old(self).entries@[index as int].0, *final(value)),
            ),
    {
        &mut self.entries[index].1
    }

    /// Changing one value in place leaves the other entries as they were.
    pub proof fn lemma_value_changed(before: Self, after: Self, index: int, value: V)
        requires
            before.wf(),
            0 <= index < before.entries@.len(),
            after.entries@ == before.entries@.update(index, (before.entries@[index].0, value)),
        ensures
            after.wf(),
            after@ == before@.insert(before.entries@[index].0, value),
    {
        assert forall|a: int, b: int|
            0 <= a < after.entries@.len() && 0 <= b < after.entries@.len() && (
            #[trigger] after.entries@[a]).0 == (#[trigger] after.entries@[b]).0 implies a == b by {
            assert(before.entries@[a].0 == before.entries@[b].0);
        }
        before.lemma_entries();
        after.lemma_entries();
        let handle = before.entries@[index].0;
        assert(after.entries@[index].0 == handle);
        assert forall|h: SocketHandle| #[trigger] agree(
                        after@,
                        before@.insert(handle, value),
                        h,
                    ) by {
            if before@.contains_key(h) {
                let j = choose|j: int| #[trigger] entry_at(before.entries@, h, j);
                assert(after.entries@[j].0 == h);
                assert(before.entries@[j].0 == h);
            }
            if after@.contains_key(h) {
                let j = choose|j: int| #[trigger] entry_at(after.entries@, h, j);
                assert(after.entries@[j].0 == h);
                assert(before.entries@[j].0 == h);
            }
        }
        lemma_same_map(after@, before@.insert(handle, value));
    }
}

/// What was put in for a handle is found under it, and under no other: where nobody
/// was put in, nothing is found.
pub proof fn what_was_put_in_is_found<V>(
    map: &HandleMap<V>,
    handle: SocketHandle,
    value: Option<&V>,
    found: bool,
    keys: Vec<SocketHandle>,
    fresh: HandleMap<V>,
)
    requires
        map.wf(),
        call_ensures(HandleMap::<V>::get, (map, handle), value),
        call_ensures(HandleMap::<V>::contains, (map, handle), found),
        call_ensures(HandleMap::<V>::keys, (map,), keys),
        call_ensures(HandleMap::<V>::new, (), fresh),
    ensures
        fresh.entries@.len() == 0,
        found <==> value is Some,
        found <==> exists|i: int|
            0 <= i < map.entries@.len() && (#[trigger] map.entries@[i]).0 == handle,
        forall|i: int|
            0 <= i < map.entries@.len() && (#[trigger] map.entries@[i]).0 == handle ==> (
            value matches Some(v) && *v == map.entries@[i].1),
        keys@.len() == map.entries@.len(),
        forall|i: int| 0 <= i < keys@.len() ==> #[trigger] keys@[i] == map.entries@[i].0,
{
    map.lemma_entries();
    if found {
        let i = choose|i: int| #[trigger] entry_at(map.entries@, handle, i);
        assert(map.entries@[i].0 == handle);
    }
    fresh.lemma_entries();
    if fresh.entries@.len() > 0 {
        assert(fresh@.contains_key(fresh.entries@[0].0));
    }
}

/// Putting something in for a handle changes what is found under it, and taking it
/// out leaves nothing there; what is found under the others stays.
pub proof fn others_are_left<V>(
    putting: &mut HandleMap<V>,
    taking: &mut HandleMap<V>,
    handle: SocketHandle,
    value: V,
    taken: Option<V>,
    other: SocketHandle,
)
    requires
        call_ensures(HandleMap::<V>::insert, (putting, handle, value), ()),
        call_ensures(HandleMap::<V>::remove, (taking, handle), taken),
        other != handle,
    ensures
        final(putting)@.contains_key(handle) && final(putting)@[handle] == value,
        final(putting)@.contains_key(other) == old(putting)@.contains_key(other),
        old(putting)@.contains_key(other) ==> final(putting)@[other] == old(putting)@[other],
        taken is Some <==> old(taking)@.contains_key(handle),
        taken matches Some(v) ==> v == old(taking)@[handle],
        !final(taking)@.contains_key(handle),
        final(taking)@.contains_key(other) == old(taking)@.contains_key(other),
        old(taking)@.contains_key(other) ==> final(taking)@[other] == old(taking)@[other],
{
}

/// The entries stay in the order in which their handles were first put in.
pub proof fn entries_keep_their_order<V>(
    putting: &mut HandleMap<V>,
    taking: &mut HandleMap<V>,
    handle: SocketHandle,
    value: V,
    taken: Option<V>,
    i: int,
)
    requires
        old(putting).wf(),
        call_ensures(HandleMap::<V>::insert, (putting, handle, value), ()),
        call_ensures(HandleMap::<V>::remove, (taking, handle), taken),
    ensures
        0 <= i < old(putting).entries@.len() ==> final(putting).entries@[i].0 == old(
            putting).entries@[i].0,
        0 <= i < old(putting).entries@.len() && old(putting).entries@[i].0 != handle ==> final(
            putting).entries@[i] == old(putting).entries@[i],
        0 <= i < old(taking).entries@.len() && old(taking).entries@[i].0 == handle ==> final(
            taking).entries@ == old(taking).entries@.take(i) + old(taking).entries@.skip(i + 1),
{
    old(putting).lemma_entries();
    let was = old(putting).entries@;
    if 0 <= i < was.len() && old(putting)@.contains_key(handle) {
        let j = choose|j: int| #[trigger] entry_at(was, handle, j);
        assert(was[j].0 == handle);
    }
    let entries = old(taking).entries@;
    if 0 <= i < entries.len() && entries[i].0 == handle {
        assert(entries.remove(i) =~= entries.take(i) + entries.skip(i + 1));
    }
}

} // verus!
