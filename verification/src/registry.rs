//! The metric groups that are rendered together.

use vstd::prelude::*;
use crate::bounded::BoundedVec;
use crate::erased::GroupModel;
use crate::erased::MetricGroup;

verus! {

/// A registry holds as many groups as its capacity allows.
#[derive(Debug, Clone, Copy, PartialEq, Eq)]
pub struct RegistryFull;

/// A borrowed metric group, and the number by which it is told from others.
pub struct GroupRef<'a> {
    /// A number that stands for this group and no other, such as the address of
    /// a static.
    pub id: usize,
    /// The group.
    pub group: &'a dyn MetricGroup,
}

/// What becomes of a group that is to be listed.
#[derive(Debug, Clone, Copy, PartialEq, Eq)]
pub enum Listing {
    /// It is listed already.
    Listed,
    /// It is to be added behind the others.
    Added,
    /// There is no room for it.
    Full,
}

/// A group is listed once, as long as there is room.
pub open spec fn listing(ids: Seq<usize>, id: usize, capacity: nat) -> Listing {
    if ids.contains(id) {
        Listing::Listed
    } else if ids.len() < capacity {
        Listing::Added
    } else {
        Listing::Full
    }
}

/// What becomes of group `id` in a list of at most `capacity` that holds the
/// groups `ids`.
pub fn listing_of(ids: &[usize], id: usize, capacity: usize) -> (r: Listing)
    ensures
        r == listing(ids@, id, capacity as nat),
{
    let mut i: usize = 0;
    while i < ids.len()
        invariant
            i <= ids@.len(),
            forall|j: int| 0 <= j < i ==> ids@[j] != id,
        decreases ids@.len() - i,
    {
        if ids[i] == id {
            assert(ids@.contains(id));
            return Listing::Listed;
        }
        i = i + 1;
    }
    if ids.len() < capacity {
        Listing::Added
    } else {
        Listing::Full
    }
}

/// The numbers of groups.
pub open spec fn ids_of(groups: Seq<GroupRef<'_>>) -> Seq<usize> {
    Seq::new(groups.len(), |i: int| groups[i].id)
}

/// What a renderer sees of groups.
pub open spec fn models_of(groups: Seq<GroupRef<'_>>) -> Seq<GroupModel> {
    Seq::new(groups.len(), |i: int| groups[i].group.group_model())
}

/// The groups held after one more was registered, if there is room for it.
pub open spec fn registered<'a>(
    groups: Seq<GroupRef<'a>>,
    group: GroupRef<'a>,
    capacity: nat,
) -> Seq<GroupRef<'a>> {
    match listing(ids_of(groups), group.id, capacity) {
        Listing::Added => groups.push(group),
        _ => groups,
    }
}

/// Registering a group leaves it listed once if it fits, changes no other
/// group, and does nothing when repeated.
pub proof fn law_groups_are_listed_once<'a>(
    groups: Seq<GroupRef<'a>>,
    group: GroupRef<'a>,
    capacity: nat,
)
    requires
        groups.len() <= capacity,
        ids_of(groups).no_duplicates(),
    ensures
        ({
            let after = registered(groups, group, capacity);
            &&& after.len() <= capacity
            &&& ids_of(after).no_duplicates()
            &&& groups.is_prefix_of(after)
            &&& registered(after, group, capacity) == after
            &&& listing(ids_of(groups), group.id, capacity) !is Full ==> ids_of(after).contains(
                group.id,
            )
        }),
{
    let after = registered(groups, group, capacity);
    if listing(ids_of(groups), group.id, capacity) is Added {
        assert(ids_of(after) =~= ids_of(groups).push(group.id));
        assert(ids_of(after)[groups.len() as int] == group.id);
    }
}

/// At most `N` metric groups, each listed once, in the order of their
/// registration.
pub struct Registry<'a, const N: usize> {
    groups: BoundedVec<GroupRef<'a>, N>,
}

impl<'a, const N: usize> View for Registry<'a, N> {
    type V = Seq<GroupModel>;

    open spec fn view(&self) -> Seq<GroupModel> {
        models_of(self.held())
    }
}

impl<'a, const N: usize> Registry<'a, N> {
    /// The groups, in the order of their registration.
    pub closed spec fn held(&self) -> Seq<GroupRef<'a>> {
        self.groups@
    }

    /// A registry without groups.
    pub fn new() -> (r: Self)
        ensures
            r.held() == Seq::<GroupRef<'a>>::empty(),
            r@ == Seq::<GroupModel>::empty(),
    {
        let r = Registry { groups: BoundedVec::new() };
        assert(r@ =~= Seq::<GroupModel>::empty());
        r
    }

    /// The numbers of the groups, in the order of their registration.
    fn ids(&self) -> (ids: BoundedVec<usize, N>)
        ensures
            ids@ == ids_of(self.held()),
    {
        let groups = self.groups.as_slice();
        let mut ids: BoundedVec<usize, N> = BoundedVec::new();
        let mut i: usize = 0;
        while i < groups.len()
            invariant
                i <= groups@.len() <= N,
                groups@ == self.held(),
                ids@ =~= ids_of(self.held()).take(i as int),
            decreases groups@.len() - i,
        {
            let _r = ids.push(groups[i].id);
            i = i + 1;
        }
        ids
    }

    /// Add a group after those already registered, unless it is among them.
    /// Fails and changes nothing if there are `N` others.
    pub fn register(&mut self, group: GroupRef<'a>) -> (r: Result<(), RegistryFull>)
        ensures
            r is Err <==> listing(ids_of(old(self).held()), group.id, N as nat) is Full,
            final(self).held() == registered(old(self).held(), group, N as nat),
            listing(ids_of(old(self).held()), group.id, N as nat) is Added ==> final(self)@
                == old(self)@.push(group.group.group_model()),
    {
        let ghost before = self@;
        let ids = self.ids();
        match listing_of(ids.as_slice(), group.id, N) {
            Listing::Listed => Ok(()),
            Listing::Added => {
                let _r = self.groups.push(group);
                assert(self@ =~= before.push(group.group.group_model()));
                Ok(())
            },
            Listing::Full => Err(RegistryFull),
        }
    }

    /// Number of groups.
    pub fn len(&self) -> (n: usize)
        ensures
            n == self@.len(),
            n <= N,
    {
        self.groups.as_slice().len()
    }

    /// Whether there are no groups.
    pub fn is_empty(&self) -> (e: bool)
        ensures
            e == (self@.len() == 0),
    {
        self.len() == 0
    }

    /// The groups, in the order of their registration.
    pub fn snapshot(&self) -> (groups: &[GroupRef<'a>])
        ensures
            groups@ == self.held(),
            groups@.len() <= N,
    {
        self.groups.as_slice()
    }
}

/// A group is added behind the others where its number is new and there is
/// room; where the number is listed nothing changes; and else the registry is
/// full and nothing changes either.
pub proof fn law_registries_hold_each_group_once<'a, const N: usize>()
    ensures
        forall|r: Registry<'a, N>| #[trigger]
            call_ensures(Registry::<'a, N>::new, (), r) ==> r.held().len() == 0,
        forall|r: &mut Registry<'a, N>, group: GroupRef<'a>, done: Result<(), RegistryFull>|
            #[trigger]
            call_ensures(Registry::<'a, N>::register, (r, group), done) ==> {
                let listed = exists|i: int|
                    0 <= i < r.held().len() && (#[trigger] r.held()[i]).id == group.id;
                &&& done is Ok <==> listed || r.held().len() < N
                &&& (*final(r)).held() == if !listed && r.held().len() < N {
                    r.held().push(group)
                } else {
                    r.held()
                }
            },
        forall|r: &Registry<'a, N>, n: usize| #[trigger]
            call_ensures(Registry::<'a, N>::len, (r,), n) ==> n == r.held().len(),
        forall|r: &Registry<'a, N>, e: bool| #[trigger]
            call_ensures(Registry::<'a, N>::is_empty, (r,), e) ==> e == (r.held().len() == 0),
        forall|r: &Registry<'a, N>, groups: &[GroupRef<'a>]| #[trigger]
            call_ensures(Registry::<'a, N>::snapshot, (r,), groups) ==> groups@ == r.held(),
        forall|r: &Registry<'a, N>| (#[trigger] r@) == Seq::new(
            r.held().len(),
            |i: int| r.held()[i].group.group_model(),
        ),
        forall|ids: &[usize], id: usize, capacity: usize, what: Listing| #[trigger]
            call_ensures(listing_of, (ids, id, capacity), what) ==> {
                &&& what == Listing::Listed <==> ids@.contains(id)
                &&& what == Listing::Full <==> !ids@.contains(id) && ids@.len() >= capacity
                &&& what == Listing::Added <==> !ids@.contains(id) && ids@.len() < capacity
            },
{
    assert forall|r: &Registry<'a, N>| (#[trigger] r@) == Seq::new(
        r.held().len(),
        |i: int| r.held()[i].group.group_model(),
    ) by {
        assert(r@ =~= Seq::new(r.held().len(), |i: int| r.held()[i].group.group_model()));
    }
    assert forall|r: &mut Registry<'a, N>, group: GroupRef<'a>, done: Result<(), RegistryFull>|
        #[trigger]
        call_ensures(Registry::<'a, N>::register, (r, group), done) implies {
        let listed = exists|i: int|
            0 <= i < r.held().len() && (#[trigger] r.held()[i]).id == group.id;
        &&& done is Ok <==> listed || r.held().len() < N
        &&& (*final(r)).held() == if !listed && r.held().len() < N {
            r.held().push(group)
        } else {
            r.held()
        }
    } by {
        let ids = ids_of(r.held());
        if ids.contains(group.id) {
            let i = choose|i: int| 0 <= i < ids.len() && ids[i] == group.id;
            assert(r.held()[i].id == group.id);
        }
        if exists|i: int| 0 <= i < r.held().len() && (#[trigger] r.held()[i]).id == group.id {
            let i = choose|i: int|
                0 <= i < r.held().len() && (#[trigger] r.held()[i]).id == group.id;
            assert(ids[i] == group.id);
        }
    }
}

} // verus!
