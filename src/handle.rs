use std::marker::PhantomData;
use std::sync::{Arc, Weak};
use vstd::prelude::*;

verus! {

/// A bound on ids that the presence bitset can index on every target
/// (`hibitset::BitSet` panics beyond 2^20 ids where `usize` has 32 bits).
pub const MAX_ID: u32 = 1048576;

/// A counter producing unique, strictly increasing ids.
#[derive(Debug, Default)]
pub struct Allocator {
    store_count: usize,
}

impl Allocator {
    /// Number of ids handed out so far; also the next id.
    pub closed spec fn count(&self) -> nat {
        self.store_count as nat
    }

    /// Creates an allocator whose first id is zero.
    pub fn new() -> (r: Allocator)
        ensures
            r.count() == 0,
    {
        Allocator { store_count: 0 }
    }

    /// Number of ids handed out so far.
    pub fn count_exec(&self) -> (r: usize)
        ensures
            r == self.count(),
    {
        self.store_count
    }

    /// Produces a new id: the number of ids produced before.
    pub fn next_id(&mut self) -> (r: usize)
        requires
            old(self).count() < usize::MAX,
        ensures
            r == old(self).count(),
            final(self).count() == old(self).count() + 1,
    {
        let id = self.store_count;
        self.store_count = id + 1;
        id
    }
}

/// A `std::sync::Weak` pointer to a handle cell. Held opaquely: Verus refuses
/// a declaration of `Weak`, whose allocator parameter is unstable.
#[verifier::external_body]
pub struct WeakCell {
    inner: Weak<()>,
}

/// Relies on `Arc::downgrade`: a weak pointer to the same allocation.
#[verifier::external_body]
fn downgrade_cell(cell: &Arc<()>) -> (r: WeakCell) {
    WeakCell { inner: Arc::downgrade(cell) }
}

/// Relies on `Weak::upgrade`: a strong pointer while a strong one exists.
#[verifier::external_body]
fn upgrade_cell(cell: &WeakCell) -> (r: Option<Arc<()>>) {
    cell.inner.upgrade()
}

/// Relies on `Arc::strong_count`: a live `Arc` counts at least itself.
#[verifier::external_body]
fn strong_count_of(cell: &Arc<()>) -> (r: usize)
    ensures
        r >= 1,
{
    Arc::strong_count(cell)
}

/// Relies on `Arc::ptr_eq`: whether two `Arc`s share one allocation.
#[verifier::external_body]
fn same_cell(a: &Arc<()>, b: &Arc<()>) -> (r: bool) {
    Arc::ptr_eq(a, b)
}

/// Relies on `Arc::clone`: another strong pointer to the same allocation.
#[verifier::external_body]
fn clone_cell(cell: &Arc<()>) -> (r: Arc<()>) {
    Arc::clone(cell)
}

/// A handle to an asset: an id and a shared, reference-counted cell whose
/// identity tells handles apart and whose strong count tracks liveness.
pub struct Handle<A> {
    id: u32,
    cell: Arc<()>,
    marker: PhantomData<A>,
}

impl<A> Handle<A> {
    pub closed spec fn spec_id(&self) -> u32 {
        self.id
    }

    /// Makes a handle with a fresh cell for `id`.
    pub(crate) fn fresh(id: u32) -> (r: Handle<A>)
        ensures
            r.spec_id() == id,
    {
        Handle { id, cell: Arc::new(()), marker: PhantomData }
    }

    /// Returns the 32 bit id of this handle.
    pub fn id(&self) -> (r: u32)
        ensures
            r == self.spec_id(),
    {
        self.id
    }

    /// Another strong handle on the same cell.
    pub fn clone(&self) -> (r: Handle<A>)
        ensures
            r.spec_id() == self.spec_id(),
    {
        Handle { id: self.id, cell: clone_cell(&self.cell), marker: PhantomData }
    }

    /// Downgrades the handle and creates a `WeakHandle`.
    pub fn downgrade(&self) -> (r: WeakHandle<A>)
        ensures
            r.spec_id() == self.spec_id(),
    {
        WeakHandle { id: self.id, cell: downgrade_cell(&self.cell), marker: PhantomData }
    }

    /// Returns `true` if this is the only strong handle on its cell.
    pub fn is_unique(&self) -> (r: bool) {
        strong_count_of(&self.cell) == 1
    }

    /// Whether both handles share one cell.
    pub fn same_as(&self, other: &Handle<A>) -> (r: bool)
        ensures
            r ==> self.spec_id() == other.spec_id(),
    {
        self.id == other.id && same_cell(&self.cell, &other.cell)
    }
}

/// Handles are equal when they share one cell, not merely one id.
impl<A> PartialEq for Handle<A> {
    fn eq(&self, other: &Handle<A>) -> (r: bool) {
        self.same_as(other)
    }
}

impl<A> vstd::std_specs::cmp::PartialEqSpecImpl for Handle<A> {
    /// Cell identity is not a value that a spec function can see.
    open spec fn obeys_eq_spec() -> bool {
        false
    }

    open spec fn eq_spec(&self, other: &Handle<A>) -> bool {
        self.spec_id() == other.spec_id()
    }
}

impl<A> Eq for Handle<A> {}

/// A weak handle: it observes a handle's cell without keeping it alive.
pub struct WeakHandle<A> {
    id: u32,
    cell: WeakCell,
    marker: PhantomData<A>,
}

impl<A> WeakHandle<A> {
    pub closed spec fn spec_id(&self) -> u32 {
        self.id
    }

    /// Tries to upgrade to a `Handle` on the same cell and id.
    pub fn upgrade(&self) -> (r: Option<Handle<A>>)
        ensures
            r matches Some(h) ==> h.spec_id() == self.spec_id(),
    {
        match upgrade_cell(&self.cell) {
            Some(cell) => Some(Handle { id: self.id, cell, marker: PhantomData }),
            None => None,
        }
    }

    /// Returns `true` if no strong handle on the cell is left.
    pub fn is_dead(&self) -> (r: bool) {
        match upgrade_cell(&self.cell) {
            Some(_) => false,
            None => true,
        }
    }
}

} // verus!
