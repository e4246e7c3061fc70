use crate::bitset::{bits_add, bits_clear, bits_contains, bits_new, bits_of, bits_remove};
use crate::handle::{Allocator, Handle, WeakHandle, MAX_ID};
use hibitset::BitSet;
use vstd::prelude::*;

verus! {

/// Describes the loading state of an asset, as returned by a conversion.
pub enum ProcessingState<A, D> {
    /// The asset is not fully loaded yet; the data is handed back to retry.
    Loading(D),
    /// The asset has finished loading.
    Loaded(A),
}

/// What processing a newly loaded record came to.
pub enum NewAssetStep<A, D, R, E> {
    /// The asset was committed; `unused` tells that the record's handle was
    /// the only strong one, and `evicted` is an asset that it displaced.
    Committed { unused: bool, evicted: Option<A> },
    /// The asset is still loading: the record goes back on the queue with
    /// this data and reload object.
    Requeue { data: D, reload: Option<R> },
    /// The conversion failed.
    Failed(E),
}

/// What processing a hot-reload record came to.
pub enum HotReloadStep<A, D, R, E> {
    /// The asset was swapped in; `evicted` is the asset it replaced.
    Committed { evicted: A },
    /// Still loading: the record goes back on the queue.
    Requeue { data: D, reload: Option<R>, old_reload: R },
    /// The conversion failed; the previous reload object is registered again.
    Failed(E),
    /// The handle points at no asset (or its version cannot grow); the new
    /// asset is handed back unstored.
    Invalid(A),
}

/// An object that can tell whether the asset behind a handle must be reloaded.
pub trait Reload {
    fn needs_reload(&self) -> bool;
}

/// Whether some handle in `hs` has id `i`.
pub open spec fn has_handle<A>(hs: Seq<Handle<A>>, i: u32) -> bool {
    exists|j: int| 0 <= j < hs.len() && #[trigger] hs[j].spec_id() == i
}

/// Stores assets by handle id, with a version per asset, and keeps one strong
/// handle per stored asset so that unreferenced assets can be found.
pub struct AssetStorage<A, R> {
    assets: Vec<Option<(A, u32)>>,
    bitset: BitSet,
    handles: Vec<Handle<A>>,
    handle_alloc: Allocator,
    reloads: Vec<(WeakHandle<A>, R)>,
}

impl<A, R> AssetStorage<A, R> {
    /// The ids whose assets are present.
    pub closed spec fn occupied(&self) -> Set<u32> {
        bits_of(self.bitset)
    }

    /// The asset and version stored at `id`, if any.
    pub closed spec fn slot(&self, id: u32) -> Option<(A, u32)> {
        if id < self.assets.len() {
            self.assets@[id as int]
        } else {
            None
        }
    }

    /// The id that the next freshly allocated handle gets.
    pub closed spec fn next_id(&self) -> nat {
        self.handle_alloc.count()
    }

    /// The ids of the strong handles that the storage holds, in order.
    pub closed spec fn held_id(&self, j: int) -> u32 {
        self.handles@[j].spec_id()
    }

    pub closed spec fn num_held(&self) -> nat {
        self.handles.len() as nat
    }

    /// The ids that the reload entries point at, in order.
    pub closed spec fn reload_ids(&self) -> Seq<u32> {
        self.reloads@.map_values(|e: (WeakHandle<A>, R)| e.0.spec_id())
    }

    /// The id that the next freshly allocated handle gets.
    pub fn next_id_exec(&self) -> (r: usize)
        ensures
            r == self.next_id(),
    {
        self.handle_alloc.count_exec()
    }

    /// The number of registered reload entries.
    pub fn reload_count(&self) -> (r: usize)
        ensures
            r == self.reload_ids().len(),
    {
        self.reloads.len()
    }

    /// `a` is the asset of an id that is present in `self` and not in `new`.
    pub open spec fn left_with(&self, new: &Self, a: A) -> bool {
        exists|id: u32| #[trigger] self.occupied().contains(id) && !new.occupied().contains(id) && a == self.slot(id)->Some_0.0
    }

    /// `other` stores the same assets, versions and reload entries as `self`.
    pub open spec fn same_contents(&self, other: &Self) -> bool {
        &&& forall|i: u32| other.slot(i) == self.slot(i)
        &&& other.occupied() == self.occupied()
        &&& other.reload_ids() == self.reload_ids()
    }

    /// `new` is `self` with `asset` committed at version zero under `id`, and
    /// `reload`, if any, registered for `id`.
    pub open spec fn loaded_new(&self, new: &Self, id: u32, asset: A, reload: Option<R>) -> bool {
        &&& new.slot(id) == Some((asset, 0u32))
        &&& forall|i: u32| i != id ==> new.slot(i) == self.slot(i)
        &&& new.occupied() == self.occupied().insert(id)
        &&& new.reload_ids() == (if reload is Some { self.reload_ids().push(id) } else { self.reload_ids() })
    }

    /// `new` is `self` with the asset under `id` replaced by `asset` at the
    /// next version and `reload`, if any, registered for `id`; where `id`
    /// holds no asset, or its version cannot grow, `new` is `self` unchanged.
    pub open spec fn loaded_reload(&self, new: &Self, id: u32, asset: A, reload: Option<R>) -> bool {
        if self.slot(id) is Some && self.slot(id)->Some_0.1 < u32::MAX {
            &&& new.slot(id) == Some((asset, (self.slot(id)->Some_0.1 + 1) as u32))
            &&& forall|i: u32| i != id ==> new.slot(i) == self.slot(i)
            &&& new.occupied() == self.occupied()
            &&& new.reload_ids() == (if reload is Some { self.reload_ids().push(id) } else { self.reload_ids() })
        } else {
            self.same_contents(new)
        }
    }

    /// `new` is `self` with the previous reload object registered again for `id`.
    pub open spec fn failed_reload(&self, new: &Self, id: u32) -> bool {
        &&& forall|i: u32| new.slot(i) == self.slot(i)
        &&& new.occupied() == self.occupied()
        &&& new.reload_ids() == self.reload_ids().push(id)
    }

    /// Whether one more fresh id can be handed out.
    pub open spec fn can_allocate(&self) -> bool {
        self.next_id() < MAX_ID
    }

    /// The storage's invariant.
    pub closed spec fn wf(&self) -> bool {
        &&& self.handle_alloc.count() <= MAX_ID
        &&& forall|i: u32| #[trigger]
            bits_of(self.bitset).contains(i) <==> (i < self.assets.len() && self.assets@[i as int] is Some)
        &&& forall|i: u32| #[trigger] bits_of(self.bitset).contains(i) ==> (i as nat) < self.next_id()
        &&& forall|j: int| 0 <= j < self.handles.len() ==> bits_of(self.bitset).contains(#[trigger] self.handles@[j].spec_id())
        &&& forall|j: int, k: int|
            0 <= j < self.handles.len() && 0 <= k < self.handles.len() && j != k
                ==> #[trigger] self.handles@[j].spec_id() != #[trigger] self.handles@[k].spec_id()
        &&& forall|i: u32| #[trigger]
            bits_of(self.bitset).contains(i) ==> has_handle(self.handles@, i)
    }

    /// Creates an empty storage.
    pub fn new() -> (r: Self)
        ensures
            r.wf(),
            r.occupied() == Set::<u32>::empty(),
            r.next_id() == 0,
            r.num_held() == 0,
            r.reload_ids() == Seq::<u32>::empty(),
    {
        let r = AssetStorage {
            assets: Vec::new(),
            bitset: bits_new(),
            handles: Vec::new(),
            handle_alloc: Allocator::new(),
            reloads: Vec::new(),
        };
        assert(r.reload_ids() =~= Seq::<u32>::empty());
        r
    }

    /// Checks if the given asset id points to a stored asset.
    pub fn contains_id(&self, id: u32) -> (r: bool)
        requires
            self.wf(),
        ensures
            r == self.occupied().contains(id),
            r == self.slot(id) is Some,
    {
        bits_contains(&self.bitset, id)
    }

    /// Checks if the given handle points to a stored asset.
    pub fn contains(&self, handle: &Handle<A>) -> (r: bool)
        requires
            self.wf(),
        ensures
            r == self.occupied().contains(handle.spec_id()),
            r == self.slot(handle.spec_id()) is Some,
    {
        self.contains_id(handle.id())
    }

    /// Gets an asset by its handle id.
    pub fn get_by_id(&self, id: u32) -> (r: Option<&A>)
        requires
            self.wf(),
        ensures
            r is Some == self.slot(id) is Some,
            r matches Some(a) ==> *a == self.slot(id)->Some_0.0,
    {
        if bits_contains(&self.bitset, id) {
            match &self.assets[id as usize] {
                Some(p) => Some(&p.0),
                None => None,
            }
        } else {
            None
        }
    }

    /// Gets an asset by its handle id; the id must be present.
    pub fn get_by_id_unchecked(&self, id: u32) -> (r: &A)
        requires
            self.wf(),
            self.occupied().contains(id),
        ensures
            *r == self.slot(id)->Some_0.0,
    {
        let p = self.assets[id as usize].as_ref().unwrap();
        &p.0
    }

    /// Gets an asset from a given handle.
    pub fn get(&self, handle: &Handle<A>) -> (r: Option<&A>)
        requires
            self.wf(),
        ensures
            r is Some == self.slot(handle.spec_id()) is Some,
            r matches Some(a) ==> *a == self.slot(handle.spec_id())->Some_0.0,
    {
        self.get_by_id(handle.id())
    }

    /// Gets an asset's version from a given handle.
    pub fn get_version(&self, handle: &Handle<A>) -> (r: Option<u32>)
        requires
            self.wf(),
        ensures
            r is Some == self.slot(handle.spec_id()) is Some,
            r matches Some(v) ==> v == self.slot(handle.spec_id())->Some_0.1,
    {
        let id = handle.id();
        if bits_contains(&self.bitset, id) {
            match &self.assets[id as usize] {
                Some(p) => Some(p.1),
                None => None,
            }
        } else {
            None
        }
    }

    /// Gets an asset and its version from a given handle.
    pub fn get_with_version(&self, handle: &Handle<A>) -> (r: Option<&(A, u32)>)
        requires
            self.wf(),
        ensures
            r is Some == self.slot(handle.spec_id()) is Some,
            r matches Some(p) ==> *p == self.slot(handle.spec_id())->Some_0,
    {
        let id = handle.id();
        if bits_contains(&self.bitset, id) {
            match &self.assets[id as usize] {
                Some(p) => Some(p),
                None => None,
            }
        } else {
            None
        }
    }

    /// Mints a handle with a fresh cell and the next id.
    fn allocate_new(&mut self) -> (h: Handle<A>)
        requires
            old(self).wf(),
            old(self).can_allocate(),
        ensures
            final(self).wf(),
            h.spec_id() == old(self).next_id(),
            final(self).next_id() == old(self).next_id() + 1,
            final(self).occupied() == old(self).occupied(),
            forall|i: u32| final(self).slot(i) == old(self).slot(i),
            final(self).num_held() == old(self).num_held(),
            forall|j: int| 0 <= j < final(self).num_held() ==> final(self).held_id(j) == old(self).held_id(j),
            final(self).reload_ids() == old(self).reload_ids(),
    {
        let id = self.handle_alloc.next_id() as u32;
        Handle::fresh(id)
    }

    /// Allocates a new handle, bound to a fresh id that no handle had before.
    pub fn allocate(&mut self) -> (h: Handle<A>)
        requires
            old(self).wf(),
            old(self).can_allocate(),
        ensures
            final(self).wf(),
            h.spec_id() == old(self).next_id(),
            forall|i: u32| #[trigger] old(self).occupied().contains(i) ==> i < h.spec_id(),
            final(self).next_id() == old(self).next_id() + 1,
            final(self).occupied() == old(self).occupied(),
            forall|i: u32| final(self).slot(i) == old(self).slot(i),
            final(self).num_held() == old(self).num_held(),
            forall|j: int| 0 <= j < final(self).num_held() ==> final(self).held_id(j) == old(self).held_id(j),
            final(self).reload_ids() == old(self).reload_ids(),
    {
        self.allocate_new()
    }

    /// Makes sure that a cell exists at `id`.
    fn reserve_slot(&mut self, id: u32)
        requires
            old(self).wf(),
            id < MAX_ID,
        ensures
            final(self).wf(),
            id < final(self).assets.len(),
            final(self).bitset == old(self).bitset,
            final(self).handles == old(self).handles,
            final(self).handle_alloc == old(self).handle_alloc,
            final(self).reloads == old(self).reloads,
            forall|i: u32| final(self).slot(i) == old(self).slot(i),
    {
        while self.assets.len() <= id as usize
            invariant
                self.wf(),
                self.bitset == old(self).bitset,
                self.handles == old(self).handles,
                self.handle_alloc == old(self).handle_alloc,
                self.reloads == old(self).reloads,
                forall|i: u32| self.slot(i) == old(self).slot(i),
            decreases id as int + 1 - self.assets.len(),
        {
            self.assets.push(None);
        }
    }

    /// Stores `asset` at version zero under the unoccupied id of `handle`,
    /// and keeps a strong copy of `handle`.
    fn occupy(&mut self, handle: &Handle<A>, asset: A)
        requires
            old(self).wf(),
            !old(self).occupied().contains(handle.spec_id()),
            (handle.spec_id() as nat) < old(self).next_id(),
        ensures
            final(self).wf(),
            final(self).next_id() == old(self).next_id(),
            final(self).occupied() == old(self).occupied().insert(handle.spec_id()),
            final(self).slot(handle.spec_id()) == Some((asset, 0u32)),
            forall|i: u32| i != handle.spec_id() ==> final(self).slot(i) == old(self).slot(i),
            final(self).num_held() == old(self).num_held() + 1,
            forall|j: int| 0 <= j < old(self).num_held() ==> final(self).held_id(j) == old(self).held_id(j),
            final(self).held_id(old(self).num_held() as int) == handle.spec_id(),
            final(self).reload_ids() == old(self).reload_ids(),
    {
        let id = handle.id();
        self.reserve_slot(id);
        bits_add(&mut self.bitset, id);
        self.handles.push(handle.clone());
        self.assets.set(id as usize, Some((asset, 0)));
        assert forall|i: u32| #[trigger] bits_of(self.bitset).contains(i) implies has_handle(self.handles@, i) by {
            if i == id {
                assert(self.handles@[self.handles.len() - 1].spec_id() == i);
            } else {
                assert(bits_of(old(self).bitset).contains(i));
                let j = choose|j: int| 0 <= j < old(self).handles.len() && old(self).handles@[j].spec_id() == i;
                assert(self.handles@[j] == old(self).handles@[j]);
            }
        }
    }

    /// Inserts an asset directly, at version zero, under a fresh handle.
    pub fn insert(&mut self, asset: A) -> (h: Handle<A>)
        requires
            old(self).wf(),
            old(self).can_allocate(),
        ensures
            final(self).wf(),
            h.spec_id() == old(self).next_id(),
            final(self).next_id() == old(self).next_id() + 1,
            final(self).occupied() == old(self).occupied().insert(h.spec_id()),
            final(self).slot(h.spec_id()) == Some((asset, 0u32)),
            forall|i: u32| i != h.spec_id() ==> final(self).slot(i) == old(self).slot(i),
            final(self).num_held() == old(self).num_held() + 1,
            forall|j: int| 0 <= j < old(self).num_held() ==> final(self).held_id(j) == old(self).held_id(j),
            final(self).held_id(old(self).num_held() as int) == h.spec_id(),
            final(self).reload_ids() == old(self).reload_ids(),
    {
        let handle = self.allocate();
        self.occupy(&handle, asset);
        handle
    }

    /// Replaces the asset under `handle`, which must be present, incrementing
    /// its version. Returns the old asset.
    pub fn replace(&mut self, handle: &Handle<A>, asset: A) -> (r: A)
        requires
            old(self).wf(),
            old(self).occupied().contains(handle.spec_id()),
            old(self).slot(handle.spec_id())->Some_0.1 < u32::MAX,
        ensures
            final(self).wf(),
            r == old(self).slot(handle.spec_id())->Some_0.0,
            final(self).slot(handle.spec_id()) == Some((asset, (old(self).slot(handle.spec_id())->Some_0.1 + 1) as u32)),
            final(self).slot(handle.spec_id())->Some_0.1 > old(self).slot(handle.spec_id())->Some_0.1,
            forall|i: u32| i != handle.spec_id() ==> final(self).slot(i) == old(self).slot(i),
            final(self).occupied() == old(self).occupied(),
            final(self).next_id() == old(self).next_id(),
            final(self).num_held() == old(self).num_held(),
            forall|j: int| 0 <= j < final(self).num_held() ==> final(self).held_id(j) == old(self).held_id(j),
            final(self).reload_ids() == old(self).reload_ids(),
    {
        let id = handle.id();
        let mut cell: Option<(A, u32)> = None;
        std::mem::swap(&mut self.assets[id as usize], &mut cell);
        let (prev, version) = cell.unwrap();
        self.assets.set(id as usize, Some((asset, version + 1)));
        prev
    }

    /// Removes every asset; all outstanding handles stop pointing at one.
    pub fn unload_all(&mut self)
        requires
            old(self).wf(),
        ensures
            final(self).wf(),
            final(self).occupied() == Set::<u32>::empty(),
            forall|i: u32| final(self).slot(i) is None,
            final(self).next_id() == old(self).next_id(),
            final(self).num_held() == 0,
            final(self).reload_ids() == old(self).reload_ids(),
    {
        self.assets = Vec::new();
        bits_clear(&mut self.bitset);
        self.handles = Vec::new();
    }

    /// Gets an asset mutably from a given handle.
    pub fn get_mut(&mut self, handle: &Handle<A>) -> (r: Option<&mut A>)
        requires
            old(self).wf(),
        ensures
            r is Some == old(self).slot(handle.spec_id()) is Some,
            r matches Some(a) ==> *a == old(self).slot(handle.spec_id())->Some_0.0,
    {
        let id = handle.id();
        if bits_contains(&self.bitset, id) {
            match &mut self.assets[id as usize] {
                Some(p) => Some(&mut p.0),
                None => None,
            }
        } else {
            None
        }
    }

    /// Copies the asset under `handle` into a new asset, at version zero,
    /// under a fresh handle; `None` where `handle` points at no asset.
    pub fn clone_asset(&mut self, handle: &Handle<A>) -> (r: Option<Handle<A>>)
        where
            A: Clone,
        requires
            old(self).wf(),
            old(self).occupied().contains(handle.spec_id()) ==> old(self).can_allocate(),
        ensures
            final(self).wf(),
            r is Some == old(self).occupied().contains(handle.spec_id()),
            r is None ==> {
                &&& final(self).occupied() == old(self).occupied()
                &&& final(self).next_id() == old(self).next_id()
                &&& final(self).num_held() == old(self).num_held()
                &&& forall|j: int| 0 <= j < old(self).num_held() ==> final(self).held_id(j) == old(self).held_id(j)
            },
            r matches Some(h) ==> {
                &&& h.spec_id() == old(self).next_id()
                &&& h.spec_id() != handle.spec_id()
                &&& final(self).next_id() == old(self).next_id() + 1
                &&& final(self).occupied() == old(self).occupied().insert(h.spec_id())
                &&& final(self).slot(h.spec_id()) matches Some(p) && p.1 == 0
                    && cloned(old(self).slot(handle.spec_id())->Some_0.0, p.0)
                &&& final(self).num_held() == old(self).num_held() + 1
                &&& forall|j: int| 0 <= j < old(self).num_held() ==> final(self).held_id(j) == old(self).held_id(j)
            },
            forall|i: u32| i as nat != old(self).next_id() ==> final(self).slot(i) == old(self).slot(i),
            final(self).reload_ids() == old(self).reload_ids(),
    {
        proof {
            if self.occupied().contains(handle.spec_id()) {
                assert(bits_of(self.bitset).contains(handle.spec_id()));
            }
        }
        let copy = match self.get(handle) {
            Some(a) => Some(a.clone()),
            None => None,
        };
        match copy {
            Some(asset) => Some(self.insert(asset)),
            None => None,
        }
    }

    /// Commits a newly loaded asset at version zero under `handle`, which this
    /// storage allocated, and keeps a strong copy of `handle`. Returns the
    /// asset that stood there before, if any.
    pub fn commit_new_asset(&mut self, handle: &Handle<A>, asset: A) -> (r: Option<A>)
        requires
            old(self).wf(),
            (handle.spec_id() as nat) < old(self).next_id(),
        ensures
            final(self).wf(),
            final(self).slot(handle.spec_id()) == Some((asset, 0u32)),
            forall|i: u32| i != handle.spec_id() ==> final(self).slot(i) == old(self).slot(i),
            final(self).occupied() == old(self).occupied().insert(handle.spec_id()),
            r is Some == old(self).slot(handle.spec_id()) is Some,
            r matches Some(a) ==> a == old(self).slot(handle.spec_id())->Some_0.0,
            final(self).next_id() == old(self).next_id(),
            final(self).reload_ids() == old(self).reload_ids(),
    {
        let id = handle.id();
        if bits_contains(&self.bitset, id) {
            let mut cell: Option<(A, u32)> = Some((asset, 0));
            std::mem::swap(&mut self.assets[id as usize], &mut cell);
            match cell {
                Some(p) => Some(p.0),
                None => None,
            }
        } else {
            self.occupy(handle, asset);
            None
        }
    }

    /// Commits a reloaded asset under `handle`, incrementing its version, and
    /// returns the asset it replaces. Where `handle` points at no asset, or its
    /// version cannot grow, nothing changes and `asset` comes back as `Err`.
    pub fn commit_hot_reload(&mut self, handle: &Handle<A>, asset: A) -> (r: Result<A, A>)
        requires
            old(self).wf(),
        ensures
            final(self).wf(),
            r is Ok == (old(self).slot(handle.spec_id()) matches Some(p) && p.1 < u32::MAX),
            r matches Ok(a) ==> {
                &&& a == old(self).slot(handle.spec_id())->Some_0.0
                &&& final(self).slot(handle.spec_id())
                    == Some((asset, (old(self).slot(handle.spec_id())->Some_0.1 + 1) as u32))
                &&& forall|i: u32| i != handle.spec_id() ==> final(self).slot(i) == old(self).slot(i)
            },
            r matches Err(a) ==> a == asset && forall|i: u32| final(self).slot(i) == old(self).slot(i),
            final(self).occupied() == old(self).occupied(),
            final(self).next_id() == old(self).next_id(),
            final(self).reload_ids() == old(self).reload_ids(),
    {
        match self.get_version(handle) {
            Some(v) => {
                if v < u32::MAX {
                    Ok(self.replace(handle, asset))
                } else {
                    Err(asset)
                }
            },
            None => Err(asset),
        }
    }

    /// Drops the storage's `i`-th held handle and takes its id out, returning
    /// the asset stored under it. The last held handle takes position `i`.
    pub fn free_held(&mut self, i: usize) -> (a: A)
        requires
            old(self).wf(),
            i < old(self).num_held(),
        ensures
            final(self).wf(),
            old(self).occupied().contains(old(self).held_id(i as int)),
            final(self).occupied() == old(self).occupied().remove(old(self).held_id(i as int)),
            final(self).slot(old(self).held_id(i as int)) is None,
            a == old(self).slot(old(self).held_id(i as int))->Some_0.0,
            forall|x: u32| x != old(self).held_id(i as int) ==> final(self).slot(x) == old(self).slot(x),
            final(self).num_held() == old(self).num_held() - 1,
            i < final(self).num_held() ==> final(self).held_id(i as int) == old(self).held_id(old(self).num_held() - 1),
            forall|j: int| 0 <= j < final(self).num_held() && j != i ==> final(self).held_id(j) == old(self).held_id(j),
            final(self).next_id() == old(self).next_id(),
            final(self).reload_ids() == old(self).reload_ids(),
    {
        let ghost pre = *self;
        let h = self.handles.swap_remove(i);
        let id = h.id();
        assert(bits_of(pre.bitset).contains(id));
        let mut cell: Option<(A, u32)> = None;
        std::mem::swap(&mut self.assets[id as usize], &mut cell);
        bits_remove(&mut self.bitset, id);
        assert(pre.handles@[i as int].spec_id() == id);
        assert forall|j: int, k: int|
            0 <= j < self.handles.len() && 0 <= k < self.handles.len() && j != k
                implies #[trigger] self.handles@[j].spec_id() != #[trigger] self.handles@[k].spec_id() by {
            let jj = if j == i { pre.handles.len() - 1 } else { j };
            let kk = if k == i { pre.handles.len() - 1 } else { k };
            assert(self.handles@[j] == pre.handles@[jj]);
            assert(self.handles@[k] == pre.handles@[kk]);
        }
        assert forall|j: int| 0 <= j < self.handles.len()
            implies bits_of(self.bitset).contains(#[trigger] self.handles@[j].spec_id()) by {
            let jj = if j == i { pre.handles.len() - 1 } else { j };
            assert(self.handles@[j] == pre.handles@[jj]);
            assert(pre.handles@[jj].spec_id() != pre.handles@[i as int].spec_id());
        }
        assert forall|x: u32| #[trigger] bits_of(self.bitset).contains(x)
            implies has_handle(self.handles@, x) by {
            assert(has_handle(pre.handles@, x));
            let j = choose|j: int| 0 <= j < pre.handles.len() && #[trigger] pre.handles@[j].spec_id() == x;
            assert(j != i);
            if j == pre.handles.len() - 1 {
                assert(self.handles@[i as int].spec_id() == x);
            } else {
                assert(self.handles@[j].spec_id() == x);
            }
        }
        cell.unwrap().0
    }

    /// Frees every asset whose only strong handle left is the storage's own:
    /// its id leaves the storage, and the asset is handed back. `freed` holds
    /// exactly the assets of the ids that left, one for each.
    pub fn sweep_unused(&mut self) -> (freed: Vec<A>)
        requires
            old(self).wf(),
        ensures
            final(self).wf(),
            final(self).occupied().subset_of(old(self).occupied()),
            forall|i: u32| #[trigger] final(self).slot(i)
                == (if final(self).occupied().contains(i) { old(self).slot(i) } else { None::<(A, u32)> }),
            forall|k: int| 0 <= k < freed.len() ==> old(self).left_with(final(self), #[trigger] freed@[k]),
            forall|id: u32| #[trigger] old(self).occupied().contains(id) && !final(self).occupied().contains(id)
                ==> exists|k: int| 0 <= k < freed.len() && freed@[k] == old(self).slot(id)->Some_0.0,
            freed.len() + final(self).num_held() == old(self).num_held(),
            final(self).next_id() == old(self).next_id(),
            final(self).reload_ids() == old(self).reload_ids(),
    {
        let mut freed: Vec<A> = Vec::new();
        let ghost mut gone: Seq<u32> = Seq::empty();
        let mut i: usize = 0;
        while i < self.handles.len()
            invariant
                self.wf(),
                self.occupied().subset_of(old(self).occupied()),
                forall|x: u32| #[trigger] self.slot(x)
                    == (if self.occupied().contains(x) { old(self).slot(x) } else { None::<(A, u32)> }),
                gone.len() == freed.len(),
                forall|k: int| 0 <= k < gone.len() ==> old(self).occupied().contains(#[trigger] gone[k])
                    && !self.occupied().contains(gone[k]) && freed@[k] == old(self).slot(gone[k])->Some_0.0,
                forall|x: u32| #[trigger] old(self).occupied().contains(x) && !self.occupied().contains(x)
                    ==> gone.contains(x),
                freed.len() + self.handles.len() == old(self).handles.len(),
                self.next_id() == old(self).next_id(),
                self.reload_ids() == old(self).reload_ids(),
            decreases self.handles.len() - i,
        {
            if self.handles[i].is_unique() {
                let ghost pre = *self;
                let ghost id = self.held_id(i as int);
                let ghost gone0 = gone;
                let a = self.free_held(i);
                freed.push(a);
                proof {
                    gone = gone.push(id);
                    assert forall|x: u32| #[trigger] self.slot(x)
                        == (if self.occupied().contains(x) { old(self).slot(x) } else { None::<(A, u32)> }) by {
                        assert(pre.slot(x) == (if pre.occupied().contains(x) { old(self).slot(x) } else { None::<(A, u32)> }));
                    }
                    assert forall|k: int| 0 <= k < gone.len() implies old(self).occupied().contains(#[trigger] gone[k])
                        && !self.occupied().contains(gone[k]) && freed@[k] == old(self).slot(gone[k])->Some_0.0 by {
                        if k < gone.len() - 1 {
                            assert(gone[k] == gone0[k]);
                        }
                    }
                    assert forall|x: u32| #[trigger] old(self).occupied().contains(x) && !self.occupied().contains(x)
                        implies gone.contains(x) by {
                        if x == id {
                            assert(gone[gone.len() - 1] == x);
                        } else {
                            assert(gone0.contains(x));
                            let k = choose|k: int| 0 <= k < gone0.len() && gone0[k] == x;
                            assert(gone[k] == x);
                        }
                    }
                }
            } else {
                i = i + 1;
            }
        }
        proof {
            assert forall|k: int| 0 <= k < freed.len() implies old(self).left_with(self, #[trigger] freed@[k]) by {
                let id = gone[k];
                assert(old(self).occupied().contains(id) && !self.occupied().contains(id)
                    && freed@[k] == old(self).slot(id)->Some_0.0);
            }
            assert forall|id: u32| #[trigger] old(self).occupied().contains(id) && !self.occupied().contains(id)
                implies exists|k: int| 0 <= k < freed.len() && freed@[k] == old(self).slot(id)->Some_0.0 by {
                assert(gone.contains(id));
                let k = choose|k: int| 0 <= k < gone.len() && gone[k] == id;
                assert(freed@[k] == old(self).slot(gone[k])->Some_0.0);
            }
        }
        freed
    }

    /// Registers `reload` for the asset behind `handle`; the entry holds the
    /// handle weakly.
    pub fn add_reload(&mut self, handle: &Handle<A>, reload: R)
        requires
            old(self).wf(),
        ensures
            final(self).wf(),
            final(self).reload_ids() == old(self).reload_ids().push(handle.spec_id()),
            forall|i: u32| final(self).slot(i) == old(self).slot(i),
            final(self).occupied() == old(self).occupied(),
            final(self).next_id() == old(self).next_id(),
    {
        self.reloads.push((handle.downgrade(), reload));
        assert(self.reload_ids() =~= old(self).reload_ids().push(handle.spec_id()));
    }

    /// Settles one reload entry `(weak, rel)` taken out of the registry, given
    /// what upgrading `weak` gave (`alive`) and whether `rel` is due. A dead
    /// entry is dropped; a live, due one goes onto `due` with its strong
    /// handle; a live one that is not due is registered again.
    pub fn settle_reload_entry(
        &mut self,
        weak: WeakHandle<A>,
        rel: R,
        alive: Option<Handle<A>>,
        is_due: bool,
        due: &mut Vec<(Handle<A>, R)>,
    )
        requires
            old(self).wf(),
            alive matches Some(h) ==> h.spec_id() == weak.spec_id(),
        ensures
            final(self).wf(),
            forall|i: u32| final(self).slot(i) == old(self).slot(i),
            final(self).occupied() == old(self).occupied(),
            final(self).next_id() == old(self).next_id(),
            match alive {
                None => final(self).reload_ids() == old(self).reload_ids() && final(due)@ == old(due)@,
                Some(h) => if is_due {
                    final(self).reload_ids() == old(self).reload_ids() && final(due)@ == old(due)@.push((h, rel))
                } else {
                    final(self).reload_ids() == old(self).reload_ids().push(weak.spec_id()) && final(due)@ == old(due)@
                },
            },
    {
        match alive {
            Some(h) => {
                if is_due {
                    due.push((h, rel));
                } else {
                    self.add_reload_weak(weak, rel);
                }
            },
            None => {},
        }
    }

    /// Registers a reload entry that holds `weak`.
    fn add_reload_weak(&mut self, weak: WeakHandle<A>, reload: R)
        requires
            old(self).wf(),
        ensures
            final(self).wf(),
            final(self).reload_ids() == old(self).reload_ids().push(weak.spec_id()),
            forall|i: u32| final(self).slot(i) == old(self).slot(i),
            final(self).occupied() == old(self).occupied(),
            final(self).next_id() == old(self).next_id(),
    {
        let ghost id = weak.spec_id();
        self.reloads.push((weak, reload));
        assert(self.reload_ids() =~= old(self).reload_ids().push(id));
    }

    /// Scans the reload entries once: entries whose handle is dead are
    /// dropped, entries that need a reload are taken out and returned with a
    /// strong handle (unless the handle died meanwhile), the others stay.
    pub fn take_due_reloads(&mut self) -> (due: Vec<(Handle<A>, R)>)
        where
            R: Reload,
        requires
            old(self).wf(),
        ensures
            final(self).wf(),
            forall|k: int| 0 <= k < due.len() ==> old(self).reload_ids().contains(#[trigger] due@[k].0.spec_id()),
            forall|k: int| 0 <= k < final(self).reload_ids().len()
                ==> old(self).reload_ids().contains(#[trigger] final(self).reload_ids()[k]),
            due.len() + final(self).reload_ids().len() <= old(self).reload_ids().len(),
            forall|i: u32| final(self).slot(i) == old(self).slot(i),
            final(self).occupied() == old(self).occupied(),
            final(self).next_id() == old(self).next_id(),
    {
        let ghost ids = old(self).reload_ids();
        let mut rest: Vec<(WeakHandle<A>, R)> = Vec::new();
        std::mem::swap(&mut self.reloads, &mut rest);
        let mut due: Vec<(Handle<A>, R)> = Vec::new();
        assert(self.reload_ids() =~= Seq::<u32>::empty());
        assert forall|k: int| 0 <= k < rest.len() implies ids.contains(#[trigger] rest@[k].0.spec_id()) by {
            assert(ids[k] == rest@[k].0.spec_id());
        }
        while rest.len() > 0
            invariant
                self.wf(),
                forall|i: u32| self.slot(i) == old(self).slot(i),
                self.occupied() == old(self).occupied(),
                self.next_id() == old(self).next_id(),
                ids == old(self).reload_ids(),
                forall|k: int| 0 <= k < rest.len() ==> ids.contains(#[trigger] rest@[k].0.spec_id()),
                forall|k: int| 0 <= k < self.reload_ids().len() ==> ids.contains(#[trigger] self.reload_ids()[k]),
                forall|k: int| 0 <= k < due.len() ==> ids.contains(#[trigger] due@[k].0.spec_id()),
                due.len() + self.reload_ids().len() + rest.len() <= ids.len(),
            decreases rest.len(),
        {
            assert(ids.contains(rest@[rest.len() - 1].0.spec_id()));
            let entry = rest.pop().unwrap();
            let (weak, rel) = entry;
            let alive = weak.upgrade();
            let is_due = match &alive {
                Some(_) => rel.needs_reload(),
                None => false,
            };
            self.settle_reload_entry(weak, rel, alive, is_due, &mut due);
        }
        due
    }

    /// Applies the conversion outcome of a newly loaded record for `handle`.
    /// A loaded asset is committed at version zero (whether or not anyone
    /// else holds `handle`) and its reload object, if any, is registered;
    /// a partial load is handed back for requeueing; an error changes nothing.
    pub fn process_new_asset<D, E>(
        &mut self,
        handle: &Handle<A>,
        converted: Result<ProcessingState<A, D>, E>,
        reload: Option<R>,
    ) -> (r: NewAssetStep<A, D, R, E>)
        requires
            old(self).wf(),
            (handle.spec_id() as nat) < old(self).next_id(),
        ensures
            final(self).wf(),
            final(self).next_id() == old(self).next_id(),
            match converted {
                Ok(ProcessingState::Loaded(a)) => {
                    &&& r matches NewAssetStep::Committed { evicted, .. }
                        && (evicted is Some == old(self).slot(handle.spec_id()) is Some)
                    &&& final(self).slot(handle.spec_id()) == Some((a, 0u32))
                    &&& forall|i: u32| i != handle.spec_id() ==> final(self).slot(i) == old(self).slot(i)
                    &&& final(self).occupied() == old(self).occupied().insert(handle.spec_id())
                    &&& final(self).reload_ids() == (if reload is Some {
                        old(self).reload_ids().push(handle.spec_id())
                    } else {
                        old(self).reload_ids()
                    })
                },
                Ok(ProcessingState::Loading(d)) => {
                    &&& r == NewAssetStep::<A, D, R, E>::Requeue { data: d, reload }
                    &&& forall|i: u32| final(self).slot(i) == old(self).slot(i)
                    &&& final(self).occupied() == old(self).occupied()
                    &&& final(self).reload_ids() == old(self).reload_ids()
                },
                Err(e) => {
                    &&& r == NewAssetStep::<A, D, R, E>::Failed(e)
                    &&& forall|i: u32| final(self).slot(i) == old(self).slot(i)
                    &&& final(self).occupied() == old(self).occupied()
                    &&& final(self).reload_ids() == old(self).reload_ids()
                },
            },
    {
        match converted {
            Ok(ProcessingState::Loaded(asset)) => {
                let unused = handle.is_unique();
                let evicted = self.commit_new_asset(handle, asset);
                match reload {
                    Some(rel) => self.add_reload(handle, rel),
                    None => {},
                }
                NewAssetStep::Committed { unused, evicted }
            },
            Ok(ProcessingState::Loading(data)) => NewAssetStep::Requeue { data, reload },
            Err(e) => NewAssetStep::Failed(e),
        }
    }

    /// Applies the conversion outcome of a hot-reload record for `handle`.
    /// A loaded asset replaces the stored one and bumps its version, and the
    /// new reload object, if any, is registered; a partial load is handed
    /// back for requeueing; on an error the asset stays as it was and
    /// `old_reload` is registered again.
    pub fn process_hot_reload<D, E>(
        &mut self,
        handle: &Handle<A>,
        converted: Result<ProcessingState<A, D>, E>,
        reload: Option<R>,
        old_reload: R,
    ) -> (r: HotReloadStep<A, D, R, E>)
        requires
            old(self).wf(),
        ensures
            final(self).wf(),
            final(self).next_id() == old(self).next_id(),
            final(self).occupied() == old(self).occupied(),
            match converted {
                Ok(ProcessingState::Loaded(a)) => {
                    if old(self).slot(handle.spec_id()) is Some && old(self).slot(handle.spec_id())->Some_0.1 < u32::MAX {
                        &&& r matches HotReloadStep::Committed { evicted }
                            && evicted == old(self).slot(handle.spec_id())->Some_0.0
                        &&& final(self).slot(handle.spec_id())
                            == Some((a, (old(self).slot(handle.spec_id())->Some_0.1 + 1) as u32))
                        &&& forall|i: u32| i != handle.spec_id() ==> final(self).slot(i) == old(self).slot(i)
                        &&& final(self).reload_ids() == (if reload is Some {
                            old(self).reload_ids().push(handle.spec_id())
                        } else {
                            old(self).reload_ids()
                        })
                    } else {
                        &&& r == HotReloadStep::<A, D, R, E>::Invalid(a)
                        &&& forall|i: u32| final(self).slot(i) == old(self).slot(i)
                        &&& final(self).reload_ids() == old(self).reload_ids()
                    }
                },
                Ok(ProcessingState::Loading(d)) => {
                    &&& r == HotReloadStep::<A, D, R, E>::Requeue { data: d, reload, old_reload }
                    &&& forall|i: u32| final(self).slot(i) == old(self).slot(i)
                    &&& final(self).reload_ids() == old(self).reload_ids()
                },
                Err(e) => {
                    &&& r == HotReloadStep::<A, D, R, E>::Failed(e)
                    &&& forall|i: u32| final(self).slot(i) == old(self).slot(i)
                    &&& final(self).reload_ids() == old(self).reload_ids().push(handle.spec_id())
                },
            },
    {
        match converted {
            Ok(ProcessingState::Loaded(asset)) => {
                match self.commit_hot_reload(handle, asset) {
                    Ok(evicted) => {
                        match reload {
                            Some(rel) => self.add_reload(handle, rel),
                            None => {},
                        }
                        HotReloadStep::Committed { evicted }
                    },
                    Err(asset) => HotReloadStep::Invalid(asset),
                }
            },
            Ok(ProcessingState::Loading(data)) => HotReloadStep::Requeue { data, reload, old_reload },
            Err(e) => {
                self.add_reload(handle, old_reload);
                HotReloadStep::Failed(e)
            },
        }
    }

    /// The maintenance that closes a processing tick: frees the assets that
    /// nobody else references, then, where `scan_reloads` holds, takes out
    /// the reload entries that are due.
    pub fn maintain(&mut self, scan_reloads: bool) -> (r: (Vec<A>, Vec<(Handle<A>, R)>))
        where
            R: Reload,
        requires
            old(self).wf(),
        ensures
            final(self).wf(),
            final(self).occupied().subset_of(old(self).occupied()),
            forall|i: u32| #[trigger] final(self).slot(i)
                == (if final(self).occupied().contains(i) { old(self).slot(i) } else { None::<(A, u32)> }),
            final(self).next_id() == old(self).next_id(),
            !scan_reloads ==> r.1.len() == 0 && final(self).reload_ids() == old(self).reload_ids(),
            forall|k: int| 0 <= k < r.1.len() ==> old(self).reload_ids().contains(#[trigger] r.1@[k].0.spec_id()),
    {
        let freed = self.sweep_unused();
        let due = if scan_reloads {
            self.take_due_reloads()
        } else {
            Vec::new()
        };
        (freed, due)
    }

    /// An id is present exactly when an asset and a version are stored under
    /// it, so `contains` holding means that `get` and `get_version` succeed.
    pub proof fn lemma_contains_has_slot(&self, id: u32)
        requires
            self.wf(),
        ensures
            self.occupied().contains(id) <==> self.slot(id) is Some,
    {
        assert(bits_of(self.bitset).contains(id) <==> (id < self.assets.len() && self.assets@[id as int] is Some));
    }

    /// Every present id is held by exactly one of the storage's strong
    /// handles, and every held handle's id is present.
    pub proof fn lemma_one_handle_per_id(&self, id: u32)
        requires
            self.wf(),
        ensures
            self.occupied().contains(id) <==> exists|j: int| 0 <= j < self.num_held() && #[trigger] self.held_id(j) == id,
            forall|j: int, k: int|
                0 <= j < self.num_held() && 0 <= k < self.num_held() && self.held_id(j) == id && self.held_id(k) == id
                    ==> j == k,
    {
        if bits_of(self.bitset).contains(id) {
            assert(has_handle(self.handles@, id));
            let j = choose|j: int| 0 <= j < self.handles.len() && #[trigger] self.handles@[j].spec_id() == id;
            assert(self.held_id(j) == id);
        }
        assert forall|j: int| 0 <= j < self.num_held() && #[trigger] self.held_id(j) == id
            implies self.occupied().contains(id) by {
            assert(bits_of(self.bitset).contains(self.handles@[j].spec_id()));
        }
        assert forall|j: int, k: int|
            0 <= j < self.num_held() && 0 <= k < self.num_held() && self.held_id(j) == id && self.held_id(k) == id
                implies j == k by {
            if j != k {
                assert(self.handles@[j].spec_id() != self.handles@[k].spec_id());
            }
        }
    }

    /// Every id stored is below the next fresh id, so ids handed out one
    /// after another strictly increase and never meet a stored id.
    pub proof fn lemma_fresh_id_above_stored(&self, id: u32)
        requires
            self.wf(),
            self.occupied().contains(id),
        ensures
            (id as nat) < self.next_id(),
    {
        assert(bits_of(self.bitset).contains(id));
    }
}

} // verus!
