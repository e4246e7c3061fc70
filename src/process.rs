use crate::handle::Handle;
use crate::storage::{AssetStorage, HotReloadStep, NewAssetStep, ProcessingState, Reload};
use crossbeam_queue::SegQueue;
use vstd::prelude::*;

verus! {

#[verifier::external_type_specification]
#[verifier::external_body]
#[verifier::reject_recursive_types(T)]
pub struct ExSegQueue<T>(SegQueue<T>);

/// Relies on `SegQueue::pop`: takes an element off the front, if any. Other
/// threads may push at any time, so nothing is promised of the result.
#[verifier::external_body]
fn queue_pop<T>(q: &SegQueue<T>) -> (r: Option<T>) {
    q.pop()
}

/// Relies on `SegQueue::push`: appends an element at the back.
#[verifier::external_body]
fn queue_push<T>(q: &SegQueue<T>, value: T) {
    q.push(value)
}

/// Relies on `SegQueue::len`: the number of elements at the time of the call.
#[verifier::external_body]
fn queue_len<T>(q: &SegQueue<T>) -> (r: usize) {
    q.len()
}

/// Raw asset data together with an optional reload object for it.
pub struct FormatValue<D, R> {
    pub data: D,
    pub reload: Option<R>,
}

/// Why a load did not produce a usable asset.
pub enum LoadError<E> {
    /// The asset finished loading, but nothing besides the record held its
    /// handle. The asset is still stored, and freed by the next sweep.
    UnusedHandle,
    /// Producing the asset named `name` failed.
    Asset { name: String, cause: E },
    /// The record's handle was not allocated by this storage; nothing is stored.
    ForeignHandle,
}

/// Observes the outcome of one load; told exactly once.
pub trait Tracker<E> {
    fn success(self);

    fn fail(self, handle_id: u32, asset_name: String, error: LoadError<E>);
}

/// A result of processing work, pushed onto the storage's queue by loaders and
/// reload jobs.
pub enum Processed<A, D, R, T, E> {
    NewAsset { data: Result<FormatValue<D, R>, E>, handle: Handle<A>, name: String, tracker: T },
    HotReload { data: Result<FormatValue<D, R>, E>, handle: Handle<A>, name: String, old_reload: R },
}

/// Runs the conversion on a record's data; the reload object travels along.
fn convert<A, D, R, E, F>(data: Result<FormatValue<D, R>, E>, f: &F) -> (r: (
    Result<ProcessingState<A, D>, E>,
    Option<R>,
))
    where
        F: Fn(D) -> Result<ProcessingState<A, D>, E>,
    requires
        forall|d: D| f.requires((d,)),
    ensures
        data is Err ==> r.0 == Err::<ProcessingState<A, D>, E>(data->Err_0) && r.1 is None,
        data matches Ok(v) ==> r.1 == v.reload && f.ensures((v.data,), r.0),
{
    match data {
        Ok(v) => {
            let FormatValue { data, reload } = v;
            let converted = f(data);
            (converted, reload)
        },
        Err(e) => (Err(e), None),
    }
}

impl<A, R: Reload> AssetStorage<A, R> {
    /// Processes one record: commits, requeues (pushing onto `requeue`), or
    /// reports failure, and hands every displaced asset to `drop_fn`. The
    /// handle of a committed new asset goes to `committed`, so that it stays
    /// alive until this tick's sweep is over.
    fn process_record<D, E, T, F, G>(
        &mut self,
        record: Processed<A, D, R, T, E>,
        f: &F,
        drop_fn: &G,
        requeue: &mut Vec<Processed<A, D, R, T, E>>,
        committed: &mut Vec<Handle<A>>,
    )
        where
            T: Tracker<E>,
            F: Fn(D) -> Result<ProcessingState<A, D>, E>,
            G: Fn(A),
        requires
            old(self).wf(),
            forall|d: D| f.requires((d,)),
            forall|a: A| drop_fn.requires((a,)),
        ensures
            final(self).wf(),
            final(self).next_id() == old(self).next_id(),
            old(self).reload_ids().is_prefix_of(final(self).reload_ids()),
            match record {
                Processed::NewAsset { data, handle, name, tracker } => {
                    if data is Ok && (handle.spec_id() as nat) < old(self).next_id() {
                        exists|c: Result<ProcessingState<A, D>, E>| #[trigger] f.ensures((data->Ok_0.data,), c) && match c {
                            Ok(ProcessingState::Loaded(a)) => {
                                &&& old(self).loaded_new(final(self), handle.spec_id(), a, data->Ok_0.reload)
                                &&& final(committed)@ == old(committed)@.push(handle)
                                &&& final(requeue)@ == old(requeue)@
                            },
                            Ok(ProcessingState::Loading(d)) => {
                                &&& old(self).same_contents(final(self))
                                &&& final(committed)@ == old(committed)@
                                &&& final(requeue)@ == old(requeue)@.push(Processed::NewAsset {
                                    data: Ok(FormatValue { data: d, reload: data->Ok_0.reload }),
                                    handle,
                                    name,
                                    tracker,
                                })
                            },
                            Err(_) => {
                                &&& old(self).same_contents(final(self))
                                &&& final(committed)@ == old(committed)@
                                &&& final(requeue)@ == old(requeue)@
                            },
                        }
                    } else {
                        &&& old(self).same_contents(final(self))
                        &&& final(committed)@ == old(committed)@
                        &&& final(requeue)@ == old(requeue)@
                    }
                },
                Processed::HotReload { data, handle, name, old_reload } => {
                    &&& final(committed)@ == old(committed)@
                    &&& if data is Ok {
                        exists|c: Result<ProcessingState<A, D>, E>| #[trigger] f.ensures((data->Ok_0.data,), c) && match c {
                            Ok(ProcessingState::Loaded(a)) => {
                                &&& old(self).loaded_reload(final(self), handle.spec_id(), a, data->Ok_0.reload)
                                &&& final(requeue)@ == old(requeue)@
                            },
                            Ok(ProcessingState::Loading(d)) => {
                                &&& old(self).same_contents(final(self))
                                &&& final(requeue)@ == old(requeue)@.push(Processed::HotReload {
                                    data: Ok(FormatValue { data: d, reload: data->Ok_0.reload }),
                                    handle,
                                    name,
                                    old_reload,
                                })
                            },
                            Err(_) => {
                                &&& old(self).failed_reload(final(self), handle.spec_id())
                                &&& final(requeue)@ == old(requeue)@
                            },
                        }
                    } else {
                        &&& old(self).failed_reload(final(self), handle.spec_id())
                        &&& final(requeue)@ == old(requeue)@
                    }
                },
            },
    {
        match record {
            Processed::NewAsset { data, handle, name, tracker } => {
                let (converted, reload) = convert(data, f);
                if (handle.id() as usize) >= self.next_id_exec() {
                    tracker.fail(handle.id(), name, LoadError::ForeignHandle);
                    return ;
                }
                match self.process_new_asset(&handle, converted, reload) {
                    NewAssetStep::Committed { unused, evicted } => {
                        if unused {
                            tracker.fail(handle.id(), name, LoadError::UnusedHandle);
                        } else {
                            tracker.success();
                        }
                        if let Some(a) = evicted {
                            drop_fn(a);
                        }
                        committed.push(handle);
                    },
                    NewAssetStep::Requeue { data, reload } => {
                        requeue.push(
                            Processed::NewAsset {
                                data: Ok(FormatValue { data, reload }),
                                handle,
                                name,
                                tracker,
                            },
                        );
                    },
                    NewAssetStep::Failed(e) => {
                        let id = handle.id();
                        tracker.fail(id, name.clone(), LoadError::Asset { name, cause: e });
                    },
                }
            },
            Processed::HotReload { data, handle, name, old_reload } => {
                let (converted, reload) = convert(data, f);
                match self.process_hot_reload(&handle, converted, reload, old_reload) {
                    HotReloadStep::Committed { evicted } => drop_fn(evicted),
                    HotReloadStep::Requeue { data, reload, old_reload } => {
                        requeue.push(
                            Processed::HotReload {
                                data: Ok(FormatValue { data, reload }),
                                handle,
                                name,
                                old_reload,
                            },
                        );
                    },
                    HotReloadStep::Failed(_) => {},
                    HotReloadStep::Invalid(a) => drop_fn(a),
                }
            },
        }
    }

    /// Processes finished asset data and maintains the storage. Takes off
    /// `queue` as many records as it held on entry and processes each;
    /// records still loading go back on the queue afterwards. Then frees the
    /// assets that nobody else references (an asset committed in this call
    /// is not freed before the next one), passing each removed or replaced
    /// asset to `drop_fn`, and, where `scan_reloads` holds, returns the
    /// reload entries that are due, for the caller to run.
    pub fn process_custom_drop<D, E, T, F, G>(
        &mut self,
        queue: &SegQueue<Processed<A, D, R, T, E>>,
        f: F,
        drop_fn: G,
        scan_reloads: bool,
    ) -> (due: Vec<(Handle<A>, R)>)
        where
            T: Tracker<E>,
            F: Fn(D) -> Result<ProcessingState<A, D>, E>,
            G: Fn(A),
        requires
            old(self).wf(),
            forall|d: D| f.requires((d,)),
            forall|a: A| drop_fn.requires((a,)),
        ensures
            final(self).wf(),
            final(self).next_id() == old(self).next_id(),
            !scan_reloads ==> due.len() == 0,
            !scan_reloads ==> old(self).reload_ids().is_prefix_of(final(self).reload_ids()),
    {
        let mut requeue: Vec<Processed<A, D, R, T, E>> = Vec::new();
        let mut committed: Vec<Handle<A>> = Vec::new();
        let n = queue_len(queue);
        let mut k: usize = 0;
        while k < n
            invariant
                self.wf(),
                self.next_id() == old(self).next_id(),
                old(self).reload_ids().is_prefix_of(self.reload_ids()),
                forall|d: D| f.requires((d,)),
                forall|a: A| drop_fn.requires((a,)),
            decreases n - k,
        {
            match queue_pop(queue) {
                Some(record) => {
                    let ghost before = self.reload_ids();
                    self.process_record(record, &f, &drop_fn, &mut requeue, &mut committed);
                    proof {
                        assert(before.is_prefix_of(self.reload_ids()));
                        assert(old(self).reload_ids().is_prefix_of(self.reload_ids()));
                    }
                },
                None => break,
            }
            k = k + 1;
        }
        while requeue.len() > 0
            decreases requeue.len(),
        {
            let record = requeue.remove(0);
            queue_push(queue, record);
        }
        let (freed, due) = self.maintain(scan_reloads);
        let mut freed = freed;
        while freed.len() > 0
            invariant
                forall|a: A| drop_fn.requires((a,)),
            decreases freed.len(),
        {
            let a = freed.pop().unwrap();
            drop_fn(a);
        }
        due
    }

    /// Processes finished asset data and maintains the storage, dropping
    /// removed and replaced assets; see `process_custom_drop`.
    pub fn process<D, E, T, F>(
        &mut self,
        queue: &SegQueue<Processed<A, D, R, T, E>>,
        f: F,
        scan_reloads: bool,
    ) -> (due: Vec<(Handle<A>, R)>)
        where
            T: Tracker<E>,
            F: Fn(D) -> Result<ProcessingState<A, D>, E>,
        requires
            old(self).wf(),
            forall|d: D| f.requires((d,)),
        ensures
            final(self).wf(),
            final(self).next_id() == old(self).next_id(),
            !scan_reloads ==> due.len() == 0,
            !scan_reloads ==> old(self).reload_ids().is_prefix_of(final(self).reload_ids()),
    {
        self.process_custom_drop(queue, f, |_a: A| {}, scan_reloads)
    }
}

/// The processing system for assets of type `A`, run once per frame.
pub struct Processor<A> {
    marker: std::marker::PhantomData<A>,
}

impl<A> Processor<A> {
    /// Creates a new asset processor for assets of type `A`.
    pub fn new() -> (r: Self) {
        Processor { marker: std::marker::PhantomData }
    }
}

} // verus!
