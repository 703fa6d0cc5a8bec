use vstd::prelude::*;
use crate::zone::{WorldId, WorldIdView};

verus! {

/// The gateway knows every world instance, in the order they were
/// registered, and routes players to them. `H` is the handle by which the
/// server reaches an instance.
pub struct Gateway<H> {
    instances: Vec<(WorldId, H)>,
}

/// Whether entry `i` of `loads`-weighted `ids` is the instance the gateway
/// picks for `name`: it carries that name, no instance of that name has a
/// smaller load, and every earlier one of that name has a larger load.
pub open spec fn best_for(ids: Seq<WorldIdView>, loads: Seq<usize>, name: Seq<char>, i: int) -> bool {
    &&& 0 <= i < ids.len()
    &&& ids[i].world_name == name
    &&& forall|j: int| 0 <= j < ids.len() && ids[j].world_name == name ==> loads[i] <= loads[j]
    &&& forall|j: int| 0 <= j < i && ids[j].world_name == name ==> loads[i] < loads[j]
}

/// The instance picked for a world name carries that name, has a load no
/// larger than any other instance of that name, and is the only one that
/// can be picked: ties go to the earliest registered.
pub proof fn lemma_best_is_least_and_unique(
    ids: Seq<WorldIdView>,
    loads: Seq<usize>,
    name: Seq<char>,
    i: int,
    k: int,
)
    requires
        best_for(ids, loads, name, i),
    ensures
        ids[i].world_name == name,
        forall|j: int| 0 <= j < ids.len() && ids[j].world_name == name ==> loads[i] <= loads[j],
        best_for(ids, loads, name, k) ==> k == i,
{
    if best_for(ids, loads, name, k) && k != i {
        if k < i {
            assert(loads[i] < loads[k]);
        } else {
            assert(loads[k] < loads[i]);
        }
    }
}

/// In a sequence without duplicates, an element sits exactly at its index.
proof fn lemma_index_of_unique<A>(s: Seq<A>, i: int)
    requires
        s.no_duplicates(),
        0 <= i < s.len(),
    ensures
        s.index_of(s[i]) == i,
{
    assert(s.contains(s[i]));
}

/// After an instance is registered under `id`, the gateway finds that
/// instance under `id`, and every other id still finds what it found before.
pub proof fn lemma_registered_is_found<H>(before: Gateway<H>, after: Gateway<H>, id: WorldIdView, handle: H)
    requires
        before.wf(),
        after.wf(),
        before.ids().contains(id) ==> {
            &&& after.ids() == before.ids()
            &&& after.handles() == before.handles().update(before.index_of(id), handle)
        },
        !before.ids().contains(id) ==> {
            &&& after.ids() == before.ids().push(id)
            &&& after.handles() == before.handles().push(handle)
        },
    ensures
        after.ids().contains(id),
        after.handles()[after.index_of(id)] == handle,
        forall|other: WorldIdView|
            other != id && before.ids().contains(other) ==> after.ids().contains(other)
                && after.handles()[after.index_of(other)] == before.handles()[before.index_of(other)],
{
    if before.ids().contains(id) {
        let k = before.index_of(id);
        assert(before.ids()[k] == id);
    } else {
        let n = before.ids().len() as int;
        assert(after.ids()[n] == id);
        lemma_index_of_unique(after.ids(), n);
    }
    assert forall|other: WorldIdView|
        other != id && before.ids().contains(other) implies after.ids().contains(other)
            && after.handles()[after.index_of(other)] == before.handles()[before.index_of(other)] by {
        let k = before.index_of(other);
        assert(before.ids()[k] == other);
        assert(after.ids()[k] == other);
        lemma_index_of_unique(after.ids(), k);
        if before.ids().contains(id) {
            assert(k != before.index_of(id));
        }
    }
}

impl<H> Gateway<H> {
    /// The registered instance ids, in registration order.
    pub closed spec fn ids(&self) -> Seq<WorldIdView> {
        self.instances@.map_values(|e: (WorldId, H)| e.0@)
    }

    /// The handles, in the same order as `ids`.
    pub closed spec fn handles(&self) -> Seq<H> {
        self.instances@.map_values(|e: (WorldId, H)| e.1)
    }

    /// Position of `id` among the registered ids.
    pub open spec fn index_of(&self, id: WorldIdView) -> int {
        self.ids().index_of(id)
    }

    /// Each id is registered at most once.
    pub open spec fn wf(&self) -> bool {
        &&& self.ids().no_duplicates()
        &&& self.handles().len() == self.ids().len()
    }

    pub fn new() -> (g: Self)
        ensures
            g.wf(),
            g.ids() == Seq::<WorldIdView>::empty(),
    {
        let g = Gateway { instances: Vec::new() };
        assert(g.ids() =~= Seq::<WorldIdView>::empty());
        g
    }

    /// Register a world instance under `id`; an instance registered under
    /// the same id before is replaced.
    pub fn register_instance(&mut self, id: WorldId, handle: H)
        requires
            old(self).wf(),
        ensures
            final(self).wf(),
            old(self).ids().contains(id@) ==> {
                &&& final(self).ids() == old(self).ids()
                &&& final(self).handles() == old(self).handles().update(old(self).index_of(id@), handle)
            },
            !old(self).ids().contains(id@) ==> {
                &&& final(self).ids() == old(self).ids().push(id@)
                &&& final(self).handles() == old(self).handles().push(handle)
            },
    {
        let mut i: usize = 0;
        while i < self.instances.len()
            invariant
                self.instances@ == old(self).instances@,
                old(self).wf(),
                i <= self.instances@.len(),
                forall|j: int| 0 <= j < i ==> self.ids()[j] != id@,
            decreases self.instances@.len() - i,
        {
            if self.instances[i].0.same_as(&id) {
                let ghost k = i as int;
                let ghost ids0 = self.ids();
                let ghost handles0 = self.handles();
                assert(ids0[k] == id@);
                assert(ids0.index_of(id@) == k) by {
                    assert(ids0.contains(id@));
                }
                let entry_id = id;
                self.instances.set(i, (entry_id, handle));
                assert(self.ids() =~= ids0);
                assert(self.handles() =~= handles0.update(k, handle));
                return;
            }
            i = i + 1;
        }
        let ghost ids0 = self.ids();
        let ghost handles0 = self.handles();
        assert(!ids0.contains(id@));
        self.instances.push((id, handle));
        assert(self.ids() =~= ids0.push(id@));
        assert(self.handles() =~= handles0.push(handle));
    }

    /// Get a world instance by id.
    pub fn get_instance(&self, id: &WorldId) -> (handle: Option<&H>)
        requires
            self.wf(),
        ensures
            match handle {
                Some(h) => self.ids().contains(id@) && *h == self.handles()[self.index_of(id@)],
                None => !self.ids().contains(id@),
            },
    {
        let mut i: usize = 0;
        while i < self.instances.len()
            invariant
                self.wf(),
                i <= self.instances@.len(),
                forall|j: int| 0 <= j < i ==> self.ids()[j] != id@,
            decreases self.instances@.len() - i,
        {
            if self.instances[i].0.same_as(id) {
                assert(self.ids()[i as int] == id@);
                assert(self.ids().index_of(id@) == i) by {
                    assert(self.ids().contains(id@));
                }
                return Some(&self.instances[i].1);
            }
            i = i + 1;
        }
        None
    }

    /// Position of the instance registered under `id`, if any.
    pub fn position_of(&self, id: &WorldId) -> (pos: Option<usize>)
        requires
            self.wf(),
        ensures
            match pos {
                Some(i) => self.ids().contains(id@) && i == self.index_of(id@),
                None => !self.ids().contains(id@),
            },
    {
        let mut i: usize = 0;
        while i < self.instances.len()
            invariant
                self.wf(),
                i <= self.instances@.len(),
                forall|j: int| 0 <= j < i ==> self.ids()[j] != id@,
            decreases self.instances@.len() - i,
        {
            if self.instances[i].0.same_as(id) {
                assert(self.ids()[i as int] == id@);
                assert(self.ids().index_of(id@) == i) by {
                    assert(self.ids().contains(id@));
                }
                return Some(i);
            }
            i = i + 1;
        }
        None
    }

    /// The handle at position `i`.
    pub fn handle_at(&self, i: usize) -> (handle: &H)
        requires
            self.wf(),
            i < self.ids().len(),
        ensures
            *handle == self.handles()[i as int],
    {
        &self.instances[i].1
    }

    /// Number of registered instances.
    pub fn len(&self) -> (n: usize)
        requires
            self.wf(),
        ensures
            n == self.ids().len(),
    {
        self.instances.len()
    }

    /// Find the least populated instance for a given world name: among the
    /// instances of that name, the first (in registration order) with the
    /// smallest load, where `loads[i]` is the load of the instance at
    /// position `i`.
    pub fn find_best_instance(&self, world_name: &str, loads: &Vec<usize>) -> (best: Option<usize>)
        requires
            self.wf(),
            loads@.len() == self.ids().len(),
        ensures
            match best {
                Some(i) => best_for(self.ids(), loads@, world_name@, i as int),
                None => forall|j: int| 0 <= j < self.ids().len() ==> self.ids()[j].world_name != world_name@,
            },
    {
        let name = String::from_str(world_name);
        let mut best: Option<usize> = None;
        let mut i: usize = 0;
        while i < self.instances.len()
            invariant
                self.wf(),
                loads@.len() == self.ids().len(),
                name@ == world_name@,
                i <= self.instances@.len(),
                match best {
                    Some(b) => {
                        &&& b < i
                        &&& self.ids()[b as int].world_name == name@
                        &&& forall|j: int|
                            0 <= j < i && self.ids()[j].world_name == name@ ==> loads@[b as int] <= loads@[j]
                        &&& forall|j: int|
                            0 <= j < b && self.ids()[j].world_name == name@ ==> loads@[b as int] < loads@[j]
                    },
                    None => forall|j: int| 0 <= j < i ==> self.ids()[j].world_name != name@,
                },
            decreases self.instances@.len() - i,
        {
            assert(self.ids()[i as int] == self.instances@[i as int].0@);
            if self.instances[i].0.world_name == name {
                match best {
                    Some(b) => {
                        if loads[i] < loads[b] {
                            best = Some(i);
                        }
                    },
                    None => {
                        best = Some(i);
                    },
                }
            }
            i = i + 1;
        }
        best
    }

    /// List all instance ids, in registration order.
    pub fn list_instances(&self) -> (ids: Vec<WorldId>)
        requires
            self.wf(),
        ensures
            ids@.map_values(|id: WorldId| id@) == self.ids(),
    {
        let mut ids: Vec<WorldId> = Vec::new();
        let mut i: usize = 0;
        while i < self.instances.len()
            invariant
                i <= self.instances@.len(),
                ids@.map_values(|id: WorldId| id@) == self.ids().take(i as int),
            decreases self.instances@.len() - i,
        {
            ids.push(self.instances[i].0.duplicate());
            assert(self.ids().take(i + 1) =~= self.ids().take(i as int).push(self.instances@[i as int].0@));
            assert(ids@.map_values(|id: WorldId| id@) =~= self.ids().take(i + 1));
            i = i + 1;
        }
        assert(self.ids().take(i as int) =~= self.ids());
        ids
    }
}

impl<H> Default for Gateway<H> {
    fn default() -> (g: Self)
        ensures
            g.wf(),
            g.ids() == Seq::<WorldIdView>::empty(),
    {
        Self::new()
    }
}

} // verus!
