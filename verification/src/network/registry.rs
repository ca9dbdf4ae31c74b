//! The connections that the server knows of.
//!
//! The listener enters a connection when it accepts it, and the connection
//! leaves when its handler ends. Each entry gets an identifier that is never
//! given out again. The registry holds at most as many entries as it was
//! made for.

use vstd::prelude::*;

verus! {

/// One connection in the registry: its identifier and what the server keeps
/// for it.
struct RegistryEntry<T> {
    id: u64,
    value: T,
}

/// The map from identifiers to values that `entries` stand for.
spec fn entries_map<T>(entries: Seq<RegistryEntry<T>>) -> Map<u64, T>
    decreases entries.len(),
{
    if entries.len() == 0 {
        Map::empty()
    } else {
        entries_map(entries.drop_last()).insert(entries.last().id, entries.last().value)
    }
}

/// Whether no two of `entries` have the same identifier.
spec fn distinct_ids<T>(entries: Seq<RegistryEntry<T>>) -> bool {
    forall|i: int, j: int|
        0 <= i < j < entries.len() ==> (#[trigger] entries[i]).id != (#[trigger] entries[j]).id
}

/// The map of a list of entries has exactly their identifiers as keys, each
/// with the value of its entry, and as many keys as there are entries where
/// no identifier occurs twice.
proof fn lemma_entries_map<T>(entries: Seq<RegistryEntry<T>>)
    requires
        distinct_ids(entries),
    ensures
        entries_map(entries).dom().finite(),
        entries_map(entries).len() == entries.len(),
        forall|i: int|
            0 <= i < entries.len() ==> entries_map(entries).contains_key(
                (#[trigger] entries[i]).id,
            ) && entries_map(entries)[entries[i].id] == entries[i].value,
        forall|id: u64| #[trigger]
            entries_map(entries).contains_key(id) ==> exists|i: int|
                0 <= i < entries.len() && (#[trigger] entries[i]).id == id,
    decreases entries.len(),
{
    if entries.len() > 0 {
        let front = entries.drop_last();
        let last = entries.last();
        assert forall|i: int, j: int| 0 <= i < j < front.len() implies (#[trigger] front[i]).id != (
        #[trigger] front[j]).id by {
            assert(front[i] == entries[i]);
            assert(front[j] == entries[j]);
        }
        lemma_entries_map(front);
        if entries_map(front).contains_key(last.id) {
            let i = choose|i: int| 0 <= i < front.len() && (#[trigger] front[i]).id == last.id;
            assert(front[i] == entries[i]);
            assert(entries[i].id != entries[entries.len() - 1].id);
        }
        assert forall|i: int| 0 <= i < entries.len() implies entries_map(entries).contains_key(
            (#[trigger] entries[i]).id,
        ) && entries_map(entries)[entries[i].id] == entries[i].value by {
            if i < front.len() {
                assert(front[i] == entries[i]);
                assert(entries[i].id != entries[entries.len() - 1].id);
            }
        }
        assert forall|id: u64| #[trigger]
            entries_map(entries).contains_key(id) implies exists|i: int|
            0 <= i < entries.len() && (#[trigger] entries[i]).id == id by {
            if id == last.id {
                assert(entries[entries.len() - 1].id == id);
            } else {
                let i = choose|i: int| 0 <= i < front.len() && (#[trigger] front[i]).id == id;
                assert(front[i] == entries[i]);
            }
        }
    }
}

/// Taking one entry out of a list takes its identifier out of the map.
proof fn lemma_entries_map_remove<T>(entries: Seq<RegistryEntry<T>>, index: int)
    requires
        distinct_ids(entries),
        0 <= index < entries.len(),
    ensures
        distinct_ids(entries.remove(index)),
        entries_map(entries.remove(index)) == entries_map(entries).remove(entries[index].id),
{
    let after = entries.remove(index);
    assert forall|i: int, j: int| 0 <= i < j < after.len() implies (#[trigger] after[i]).id != (
    #[trigger] after[j]).id by {
        let from_i = if i < index { i } else { i + 1 };
        let from_j = if j < index { j } else { j + 1 };
        assert(after[i] == entries[from_i]);
        assert(after[j] == entries[from_j]);
    }
    lemma_entries_map(entries);
    lemma_entries_map(after);
    let left = entries_map(after);
    let right = entries_map(entries).remove(entries[index].id);
    assert forall|id: u64| left.contains_key(id) <==> right.contains_key(id) by {
        if left.contains_key(id) {
            let i = choose|i: int| 0 <= i < after.len() && (#[trigger] after[i]).id == id;
            let from_i = if i < index { i } else { i + 1 };
            assert(after[i] == entries[from_i]);
            if from_i < index {
                assert(entries[from_i].id != entries[index].id);
            } else {
                assert(entries[index].id != entries[from_i].id);
            }
        }
        if right.contains_key(id) {
            let i = choose|i: int| 0 <= i < entries.len() && (#[trigger] entries[i]).id == id;
            let to_i = if i < index { i } else { i - 1 };
            assert(after[to_i] == entries[i]);
        }
    }
    assert forall|id: u64| left.contains_key(id) implies left[id] == right[id] by {
        let i = choose|i: int| 0 <= i < after.len() && (#[trigger] after[i]).id == id;
        let from_i = if i < index { i } else { i + 1 };
        assert(after[i] == entries[from_i]);
    }
    assert(left =~= right);
}

/// The connections that the server knows of: a map from the identifier of
/// each connection to what the server keeps for it.
pub struct ConnectionRegistry<T> {
    capacity: usize,
    next_id: u64,
    entries: Vec<RegistryEntry<T>>,
}

impl<T> View for ConnectionRegistry<T> {
    type V = Map<u64, T>;

    closed spec fn view(&self) -> Map<u64, T> {
        entries_map(self.entries@)
    }
}

impl<T> ConnectionRegistry<T> {
    /// The most connections that the registry holds.
    pub closed spec fn capacity(&self) -> nat {
        self.capacity as nat
    }

    /// The identifier that the next connection gets.
    pub closed spec fn next_id(&self) -> u64 {
        self.next_id
    }

    /// What holds of every registry: it has finitely many connections and
    /// no more than its capacity, and every identifier in it has been given
    /// out before.
    pub open spec fn well_formed(&self) -> bool {
        &&& self@.dom().finite()
        &&& self@.len() <= self.capacity()
        &&& forall|id: u64| #[trigger] self@.contains_key(id) ==> id < self.next_id()
    }

    /// What the list of entries obeys: it is within the capacity, no
    /// identifier occurs twice, and every identifier has been given out.
    #[verifier::type_invariant]
    spec fn entries_are_sound(&self) -> bool {
        &&& self.entries@.len() <= self.capacity
        &&& distinct_ids(self.entries@)
        &&& forall|i: int|
            0 <= i < self.entries@.len() ==> (#[trigger] self.entries@[i]).id < self.next_id
    }

    /// The type invariant, in terms of the map.
    proof fn lemma_sound_is_well_formed(&self)
        requires
            self.entries_are_sound(),
        ensures
            self.well_formed(),
            self@.len() == self.entries@.len(),
    {
        lemma_entries_map(self.entries@);
    }

    /// An empty registry for at most `capacity` connections.
    pub fn new(capacity: usize) -> (registry: ConnectionRegistry<T>)
        ensures
            registry@ == Map::<u64, T>::empty(),
            registry.capacity() == capacity,
            registry.next_id() == 0,
            registry.well_formed(),
    {
        let registry = ConnectionRegistry { capacity, next_id: 0, entries: Vec::new() };
        proof {
            registry.lemma_sound_is_well_formed();
        }
        registry
    }

    /// The number of connections in the registry.
    pub fn len(&self) -> (count: usize)
        ensures
            count == self@.len(),
            self.well_formed(),
    {
        proof {
            use_type_invariant(self);
            self.lemma_sound_is_well_formed();
        }
        self.entries.len()
    }

    /// The place of the connection `id` among the entries, if it is there.
    fn position(&self, id: u64) -> (place: Option<usize>)
        ensures
            match place {
                Some(index) => {
                    &&& index < self.entries@.len()
                    &&& self.entries@[index as int].id == id
                    &&& self@.contains_key(id)
                    &&& self@[id] == self.entries@[index as int].value
                },
                None => !self@.contains_key(id),
            },
    {
        proof {
            use_type_invariant(self);
            lemma_entries_map(self.entries@);
        }
        let mut index: usize = 0;
        while index < self.entries.len()
            invariant
                index <= self.entries@.len(),
                distinct_ids(self.entries@),
                forall|i: int| 0 <= i < index ==> (#[trigger] self.entries@[i]).id != id,
            decreases self.entries@.len() - index,
        {
            if self.entries[index].id == id {
                proof {
                    lemma_entries_map(self.entries@);
                }
                return Some(index);
            }
            index = index + 1;
        }
        None
    }

    /// Whether the connection `id` is in the registry.
    pub fn contains(&self, id: u64) -> (found: bool)
        ensures
            found == self@.contains_key(id),
    {
        self.position(id).is_some()
    }

    /// What the registry keeps for the connection `id`, if it is there.
    pub fn get(&self, id: u64) -> (value: Option<&T>)
        ensures
            match value {
                Some(kept) => self@.contains_key(id) && *kept == self@[id],
                None => !self@.contains_key(id),
            },
    {
        match self.position(id) {
            Some(index) => Some(&self.entries[index].value),
            None => None,
        }
    }

    /// Enters a connection. Where there is room, the connection gets the
    /// next identifier. Where the registry is full, or has no identifier
    /// left to give, nothing changes and `value` comes back.
    pub fn register(&mut self, value: T) -> (result: Result<u64, T>)
        ensures
            match result {
                Ok(id) => {
                    &&& old(self)@.len() < old(self).capacity()
                    &&& id == old(self).next_id()
                    &&& id < u64::MAX
                    &&& !old(self)@.contains_key(id)
                    &&& final(self)@ == old(self)@.insert(id, value)
                    &&& final(self).next_id() == id + 1
                },
                Err(returned) => {
                    &&& old(self)@.len() >= old(self).capacity() || old(self).next_id() == u64::MAX
                    &&& returned == value
                    &&& final(self)@ == old(self)@
                    &&& final(self).next_id() == old(self).next_id()
                },
            },
            final(self).capacity() == old(self).capacity(),
            final(self).well_formed(),
    {
        proof {
            use_type_invariant(&*self);
            self.lemma_sound_is_well_formed();
        }
        if self.entries.len() >= self.capacity || self.next_id == u64::MAX {
            return Err(value);
        }
        let id: u64 = self.next_id;
        let ghost before = self.entries@;
        let mut entries: Vec<RegistryEntry<T>> = Vec::new();
        std::mem::swap(&mut entries, &mut self.entries);
        entries.push(RegistryEntry { id, value });
        proof {
            assert(entries@.drop_last() =~= before);
            assert forall|i: int, j: int| 0 <= i < j < entries@.len() implies (
            #[trigger] entries@[i]).id != (#[trigger] entries@[j]).id by {
                assert(entries@[i] == before[i]);
                if j < before.len() {
                    assert(entries@[j] == before[j]);
                }
            }
            assert forall|i: int| 0 <= i < entries@.len() implies (#[trigger] entries@[i]).id < id
                + 1 by {
                if i < before.len() {
                    assert(entries@[i] == before[i]);
                }
            }
        }
        *self = ConnectionRegistry { capacity: self.capacity, next_id: id + 1, entries };
        proof {
            self.lemma_sound_is_well_formed();
        }
        Ok(id)
    }

    /// Takes the connection `id` out of the registry and hands back what was
    /// kept for it. Where the connection is not there, nothing changes.
    pub fn remove(&mut self, id: u64) -> (removed: Option<T>)
        ensures
            removed == if old(self)@.contains_key(id) {
                Some(old(self)@[id])
            } else {
                None
            },
            final(self)@ == old(self)@.remove(id),
            final(self).capacity() == old(self).capacity(),
            final(self).next_id() == old(self).next_id(),
            final(self).well_formed(),
    {
        proof {
            use_type_invariant(&*self);
            self.lemma_sound_is_well_formed();
        }
        let index: usize = match self.position(id) {
            Some(index) => index,
            None => {
                proof {
                    assert(self@.remove(id) =~= self@);
                }
                return None;
            },
        };
        let ghost before = self.entries@;
        let mut entries: Vec<RegistryEntry<T>> = Vec::new();
        std::mem::swap(&mut entries, &mut self.entries);
        let entry: RegistryEntry<T> = entries.remove(index);
        proof {
            let after = entries@;
            lemma_entries_map_remove(before, index as int);
            assert forall|i: int| 0 <= i < after.len() implies (#[trigger] after[i]).id
                < self.next_id by {
                let from_i = if i < index { i } else { i + 1 };
                assert(after[i] == before[from_i]);
            }
        }
        *self = ConnectionRegistry { capacity: self.capacity, next_id: self.next_id, entries };
        proof {
            self.lemma_sound_is_well_formed();
        }
        Some(entry.value)
    }
}

} // verus!
