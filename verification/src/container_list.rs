//! A plain list of containers: an ordered map from container id to what the
//! list knows of the container through its reference: the container's state
//! as last learned, or nothing once the container is gone.
use indexmap::IndexMap;
use vstd::prelude::*;

use crate::container::{Container, ContainerRef, ContainerRefView, ContainerStatus};
use crate::index_map::{
    container_entries, container_map_contains_key, container_map_get_index, container_map_insert_full, container_map_len,
    container_map_new, container_map_shift_remove_full, has_key, index_of, inserted, keys_distinct,
    lemma_index_of, lemma_push_keeps_distinct, lemma_remove_keeps_distinct,
    lemma_update_keeps_distinct, without_key,
};
use crate::list_model::{one_added, one_removed, ItemsChanged, PropertyValue};
use crate::text::str_equals;

verus! {

/// The properties that a container list shows to its observers.
#[derive(PartialEq, Eq, Structural, Clone, Copy, Debug)]
pub enum ContainerListProperty {
    Len,
    Created,
    Dead,
    Exited,
    Paused,
    Running,
}

/// The containers, keyed by container id, in the order they came in.
pub struct SimpleContainerList {
    list: IndexMap<String, ContainerRef>,
}

impl View for SimpleContainerList {
    type V = Seq<(Seq<char>, ContainerRefView)>;

    closed spec fn view(&self) -> Seq<(Seq<char>, ContainerRefView)> {
        container_entries(self.list)
    }
}

/// The number of entries whose reference still leads to a container in state `status`.
pub open spec fn status_count(e: Seq<(Seq<char>, ContainerRefView)>, status: ContainerStatus) -> int
    decreases e.len(),
{
    if e.len() == 0 {
        0
    } else {
        status_count(e.drop_last(), status) + match e.last().1 {
            Some(c) => if c.status == status {
                1int
            } else {
                0int
            },
            None => 0int,
        }
    }
}

/// The number of entries whose reference still leads to a container.
pub open spec fn live_count(e: Seq<(Seq<char>, ContainerRefView)>) -> int
    decreases e.len(),
{
    if e.len() == 0 {
        0
    } else {
        live_count(e.drop_last()) + if e.last().1 is Some {
            1int
        } else {
            0int
        }
    }
}

/// A prefix counts one more status than the prefix before it when its last
/// entry leads to a container in that state.
pub proof fn lemma_status_count_step(
    e: Seq<(Seq<char>, ContainerRefView)>,
    status: ContainerStatus,
    i: int,
)
    requires
        0 <= i < e.len(),
    ensures
        status_count(e.take(i + 1), status) == status_count(e.take(i), status) + match e[i].1 {
            Some(c) => if c.status == status {
                1int
            } else {
                0int
            },
            None => 0int,
        },
{
    assert(e.take(i + 1).drop_last() =~= e.take(i));
}

/// The value at `index` as the list hands it out: the container its
/// reference leads to, if any.
pub open spec fn upgraded_at(e: Seq<(Seq<char>, ContainerRefView)>, index: int) -> Option<
    crate::container::ContainerView,
> {
    if 0 <= index < e.len() {
        e[index].1
    } else {
        None
    }
}

/// The view of a container handed out, if any.
pub open spec fn container_views(c: Option<Container>) -> ContainerRefView {
    match c {
        Some(c) => Some(c@),
        None => None,
    }
}

/// Law: every container that is still there is in exactly one state, so the
/// counts of all states add up to the containers still there, which are no
/// more than the entries.
pub proof fn law_status_partition(e: Seq<(Seq<char>, ContainerRefView)>)
    ensures
        status_count(e, ContainerStatus::Created) + status_count(e, ContainerStatus::Dead)
            + status_count(e, ContainerStatus::Exited) + status_count(e, ContainerStatus::Paused)
            + status_count(e, ContainerStatus::Running) + status_count(e, ContainerStatus::Unknown)
            == live_count(e),
        0 <= live_count(e) <= e.len(),
    decreases e.len(),
{
    if e.len() > 0 {
        law_status_partition(e.drop_last());
    }
}

/// Law: a container just added is found at the position its id now has, and
/// no other id comes or goes.
pub proof fn law_added_container_found(
    e: Seq<(Seq<char>, ContainerRefView)>,
    c: crate::container::ContainerView,
)
    requires
        keys_distinct(e),
    ensures
        upgraded_at(inserted(e, c.id, Some(c)), index_of(inserted(e, c.id, Some(c)), c.id))
            == Some(c),
        index_of(inserted(e, c.id, Some(c)), c.id) == if has_key(e, c.id) {
            index_of(e, c.id)
        } else {
            e.len() as int
        },
        forall|k2: Seq<char>| k2 != c.id ==> has_key(inserted(e, c.id, Some(c)), k2) == has_key(e, k2),
{
    crate::index_map::law_read_after_insert(e, c.id, Some(c));
}

impl SimpleContainerList {
    /// The list's own invariant: no id occurs twice.
    pub open spec fn wf(&self) -> bool {
        keys_distinct(self@)
    }

    /// Every list keeps its ids distinct.
    #[verifier::type_invariant]
    spec fn ids_distinct(self) -> bool {
        keys_distinct(container_entries(self.list))
    }

    /// An empty list.
    pub fn new() -> (r: SimpleContainerList)
        ensures
            r.wf(),
            r@.len() == 0,
    {
        SimpleContainerList { list: container_map_new() }
    }

    /// The number of entries, as the list model counts them.
    pub fn n_items(&self) -> (r: u32)
        ensures
            self.wf(),
            r == self@.len() as u32,
    {
        proof {
            use_type_invariant(self);
        }
        container_map_len(&self.list) as u32
    }

    /// The number of entries.
    pub fn len(&self) -> (r: u32)
        ensures
            self.wf(),
            r == self@.len() as u32,
    {
        proof {
            use_type_invariant(self);
        }
        self.n_items()
    }

    /// The container at `index`, if there is an entry there and its container is still there.
    pub fn get(&self, index: usize) -> (r: Option<Container>)
        ensures
            self.wf(),
            container_views(r) == upgraded_at(self@, index as int),
    {
        proof {
            use_type_invariant(self);
        }
        match container_map_get_index(&self.list, index) {
            Some((_, weak)) => weak.upgrade(),
            None => None,
        }
    }

    /// The item at `position` of the list model, as `get` finds it.
    pub fn item(&self, position: u32) -> (r: Option<Container>)
        ensures
            self.wf(),
            container_views(r) == upgraded_at(self@, position as int),
    {
        proof {
            use_type_invariant(self);
        }
        self.get(position as usize)
    }

    /// Puts `container` into the list under its id: a present id keeps its
    /// place and now leads to `container`; a new id comes last. Returns the
    /// change to report, at the entry's position.
    pub fn add_container(&mut self, container: &Container) -> (r: ItemsChanged)
        ensures
            old(self).wf(),
            final(self).wf(),
            final(self)@ == inserted(old(self)@, container.id@, Some(container@)),
            r == one_added(
                (if has_key(old(self)@, container.id@) {
                    index_of(old(self)@, container.id@)
                } else {
                    old(self)@.len() as int
                }) as u32,
            ),
    {
        proof {
            use_type_invariant(&*self);
        }
        let ghost before = self@;
        let mut weak_ref = ContainerRef::new();
        weak_ref.set(Some(container));
        let key: String = container.id().to_owned();
        let mut list = container_map_new();
        std::mem::swap(&mut list, &mut self.list);
        let (index, _) = container_map_insert_full(&mut list, key, weak_ref);
        proof {
            let k = container.id@;
            let v = Some(container@);
            if has_key(before, k) {
                lemma_index_of(before, k, index as int);
                lemma_update_keeps_distinct(before, index as int, v);
            } else {
                lemma_push_keeps_distinct(before, k, v);
            }
        }
        self.list = list;
        ItemsChanged { position: index as u32, removed: 0, added: 1 }
    }

    /// Takes the entry with id `id` out of the list. If it was there, returns
    /// the change to report, at the position it had, and the container its
    /// reference still led to, if any.
    pub fn remove_container(&mut self, id: &str) -> (r: Option<(ItemsChanged, Option<Container>)>)
        ensures
            old(self).wf(),
            final(self).wf(),
            final(self)@ == without_key(old(self)@, id@),
            has_key(old(self)@, id@) ==> r is Some && r.unwrap().0 == one_removed(
                index_of(old(self)@, id@) as u32,
            ) && container_views(r.unwrap().1) == old(self)@[index_of(old(self)@, id@)].1,
            !has_key(old(self)@, id@) ==> r is None,
    {
        proof {
            use_type_invariant(&*self);
        }
        let ghost before = self@;
        let mut list = container_map_new();
        std::mem::swap(&mut list, &mut self.list);
        let removed = container_map_shift_remove_full(&mut list, id);
        proof {
            if let Some((idx, _, _)) = removed {
                lemma_remove_keeps_distinct(before, idx as int);
            }
        }
        self.list = list;
        match removed {
            Some((idx, _, weak)) => {
                proof {
                    lemma_index_of(before, id@, idx as int);
                }
                let container = weak.upgrade();
                Some((ItemsChanged { position: idx as u32, removed: 1, added: 0 }, container))
            },
            None => None,
        }
    }

    /// The container with the id of `container` changed: if the list holds
    /// that id, its reference now leads to the container as it is now, in the
    /// same place. Tells whether the list holds the id.
    pub fn update_container(&mut self, container: &Container) -> (r: bool)
        ensures
            old(self).wf(),
            final(self).wf(),
            r == has_key(old(self)@, container.id@),
            final(self)@ == if r {
                old(self)@.update(
                    index_of(old(self)@, container.id@),
                    (container.id@, Some(container@)),
                )
            } else {
                old(self)@
            },
    {
        proof {
            use_type_invariant(&*self);
        }
        if !container_map_contains_key(&self.list, container.id()) {
            return false;
        }
        let ghost before = self@;
        let mut weak_ref = ContainerRef::new();
        weak_ref.set(Some(container));
        let key: String = container.id().to_owned();
        let mut list = container_map_new();
        std::mem::swap(&mut list, &mut self.list);
        let (index, _) = container_map_insert_full(&mut list, key, weak_ref);
        proof {
            lemma_index_of(before, container.id@, index as int);
            lemma_update_keeps_distinct(before, index as int, Some(container@));
        }
        self.list = list;
        true
    }

    /// The container with id `id` is gone: if the list holds that id, its
    /// reference now leads to nothing, and the entry stays in its place.
    /// Tells whether the list holds the id.
    pub fn release_container(&mut self, id: &str) -> (r: bool)
        ensures
            old(self).wf(),
            final(self).wf(),
            r == has_key(old(self)@, id@),
            final(self)@ == if r {
                old(self)@.update(index_of(old(self)@, id@), (id@, None))
            } else {
                old(self)@
            },
    {
        proof {
            use_type_invariant(&*self);
        }
        if !container_map_contains_key(&self.list, id) {
            return false;
        }
        let ghost before = self@;
        let key: String = id.to_owned();
        let mut list = container_map_new();
        std::mem::swap(&mut list, &mut self.list);
        let (index, _) = container_map_insert_full(&mut list, key, ContainerRef::new());
        proof {
            lemma_index_of(before, id@, index as int);
            lemma_update_keeps_distinct(before, index as int, None);
        }
        self.list = list;
        true
    }

    /// The number of containers still there that are in state `status`.
    pub fn num_containers_of_status(&self, status: ContainerStatus) -> (r: u32)
        ensures
            self.wf(),
            r == status_count(self@, status) as u32,
    {
        proof {
            use_type_invariant(self);
        }
        let ghost e = self@;
        let n = container_map_len(&self.list);
        let mut count: usize = 0;
        let mut i: usize = 0;
        while i < n
            invariant
                e == self@,
                n == e.len(),
                i <= n,
                count == status_count(e.take(i as int), status),
                count <= i,
            decreases n - i,
        {
            let (_, weak) = container_map_get_index(&self.list, i).unwrap();
            proof {
                lemma_status_count_step(e, status, i as int);
            }
            match weak.upgrade() {
                Some(container) => {
                    if container.status() == status {
                        count = count + 1;
                    }
                },
                None => {},
            }
            i += 1;
        }
        assert(e.take(n as int) =~= e);
        count as u32
    }

    /// The number of created containers.
    pub fn created(&self) -> (r: u32)
        ensures
            r == status_count(self@, ContainerStatus::Created) as u32,
    {
        self.num_containers_of_status(ContainerStatus::Created)
    }

    /// The number of dead containers.
    pub fn dead(&self) -> (r: u32)
        ensures
            r == status_count(self@, ContainerStatus::Dead) as u32,
    {
        self.num_containers_of_status(ContainerStatus::Dead)
    }

    /// The number of exited containers.
    pub fn exited(&self) -> (r: u32)
        ensures
            r == status_count(self@, ContainerStatus::Exited) as u32,
    {
        self.num_containers_of_status(ContainerStatus::Exited)
    }

    /// The number of paused containers.
    pub fn paused(&self) -> (r: u32)
        ensures
            r == status_count(self@, ContainerStatus::Paused) as u32,
    {
        self.num_containers_of_status(ContainerStatus::Paused)
    }

    /// The number of running containers.
    pub fn running(&self) -> (r: u32)
        ensures
            r == status_count(self@, ContainerStatus::Running) as u32,
    {
        self.num_containers_of_status(ContainerStatus::Running)
    }

    /// The value of a property.
    pub fn property(&self, property: ContainerListProperty) -> (r: PropertyValue)
        ensures
            r == PropertyValue::UInt(
                match property {
                    ContainerListProperty::Len => self@.len() as u32,
                    ContainerListProperty::Created => status_count(
                        self@,
                        ContainerStatus::Created,
                    ) as u32,
                    ContainerListProperty::Dead => status_count(self@, ContainerStatus::Dead) as u32,
                    ContainerListProperty::Exited => status_count(
                        self@,
                        ContainerStatus::Exited,
                    ) as u32,
                    ContainerListProperty::Paused => status_count(
                        self@,
                        ContainerStatus::Paused,
                    ) as u32,
                    ContainerListProperty::Running => status_count(
                        self@,
                        ContainerStatus::Running,
                    ) as u32,
                },
            ),
    {
        match property {
            ContainerListProperty::Len => PropertyValue::UInt(self.len()),
            ContainerListProperty::Created => PropertyValue::UInt(self.created()),
            ContainerListProperty::Dead => PropertyValue::UInt(self.dead()),
            ContainerListProperty::Exited => PropertyValue::UInt(self.exited()),
            ContainerListProperty::Paused => PropertyValue::UInt(self.paused()),
            ContainerListProperty::Running => PropertyValue::UInt(self.running()),
        }
    }
}

/// The property that a name stands for, if any.
pub fn container_list_property(name: &str) -> (r: Option<ContainerListProperty>)
    ensures
        r == if name@ == "len"@ {
            Some(ContainerListProperty::Len)
        } else if name@ == "created"@ {
            Some(ContainerListProperty::Created)
        } else if name@ == "dead"@ {
            Some(ContainerListProperty::Dead)
        } else if name@ == "exited"@ {
            Some(ContainerListProperty::Exited)
        } else if name@ == "paused"@ {
            Some(ContainerListProperty::Paused)
        } else if name@ == "running"@ {
            Some(ContainerListProperty::Running)
        } else {
            None
        },
{
    if str_equals(name, "len") {
        Some(ContainerListProperty::Len)
    } else if str_equals(name, "created") {
        Some(ContainerListProperty::Created)
    } else if str_equals(name, "dead") {
        Some(ContainerListProperty::Dead)
    } else if str_equals(name, "exited") {
        Some(ContainerListProperty::Exited)
    } else if str_equals(name, "paused") {
        Some(ContainerListProperty::Paused)
    } else if str_equals(name, "running") {
        Some(ContainerListProperty::Running)
    } else {
        None
    }
}

} // verus!
