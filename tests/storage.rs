use amethyst_assets::handle::{Allocator, Handle};
use amethyst_assets::process::{FormatValue, LoadError, Processed, Tracker};
use amethyst_assets::storage::{AssetStorage, HotReloadStep, NewAssetStep, ProcessingState, Reload};
use crossbeam_queue::SegQueue;
use std::cell::RefCell;
use std::rc::Rc;

#[derive(Clone)]
struct TestReload {
    due: bool,
}

impl Reload for TestReload {
    fn needs_reload(&self) -> bool {
        self.due
    }
}

struct TestTracker {
    log: Rc<RefCell<Vec<String>>>,
}

impl Tracker<String> for TestTracker {
    fn success(self) {
        self.log.borrow_mut().push("success".to_string());
    }

    fn fail(self, handle_id: u32, asset_name: String, error: LoadError<String>) {
        let kind = match error {
            LoadError::UnusedHandle => "unused".to_string(),
            LoadError::Asset { name, cause } => format!("asset {} {}", name, cause),
            LoadError::ForeignHandle => "foreign".to_string(),
        };
        self.log.borrow_mut().push(format!("fail {} {} {}", handle_id, asset_name, kind));
    }
}

type Store = AssetStorage<String, TestReload>;
type Queue = SegQueue<Processed<String, String, TestReload, TestTracker, String>>;

fn upper(d: String) -> Result<ProcessingState<String, String>, String> {
    Ok(ProcessingState::Loaded(d.to_uppercase()))
}

fn new_asset(data: &str, handle: Handle<String>, log: &Rc<RefCell<Vec<String>>>) -> Processed<String, String, TestReload, TestTracker, String> {
    Processed::NewAsset {
        data: Ok(FormatValue { data: data.to_string(), reload: None }),
        handle,
        name: "x".to_string(),
        tracker: TestTracker { log: log.clone() },
    }
}

#[test]
fn insert_and_get() {
    let mut store = Store::new();
    let h = store.insert("A".to_string());
    assert_eq!(store.get(&h), Some(&"A".to_string()));
    assert_eq!(store.get_version(&h), Some(0));
    assert!(store.contains(&h));
    assert_eq!(store.get_with_version(&h), Some(&("A".to_string(), 0)));
    assert_eq!(store.get_by_id(h.id()), Some(&"A".to_string()));
    assert_eq!(store.get_by_id_unchecked(h.id()), &"A".to_string());
}

#[test]
fn async_load() {
    let mut store = Store::new();
    let queue = Queue::new();
    let log = Rc::new(RefCell::new(Vec::new()));
    let h = store.allocate();
    assert_eq!(h.id(), 0);
    queue.push(new_asset("raw", h.clone(), &log));
    let due = store.process(&queue, upper, false);
    assert!(due.is_empty());
    assert_eq!(*log.borrow(), vec!["success".to_string()]);
    assert_eq!(store.get(&h), Some(&"RAW".to_string()));
    assert_eq!(store.get_version(&h), Some(0));
}

#[test]
fn unused_handle_warning() {
    let mut store = Store::new();
    let queue = Queue::new();
    let log = Rc::new(RefCell::new(Vec::new()));
    let h = store.allocate();
    queue.push(new_asset("raw", h, &log));
    store.process(&queue, upper, false);
    assert_eq!(*log.borrow(), vec!["fail 0 x unused".to_string()]);
    assert!(store.contains_id(0));
    assert_eq!(store.get_by_id(0), Some(&"RAW".to_string()));
    store.process(&queue, upper, false);
    assert!(!store.contains_id(0));
    assert_eq!(store.get_by_id(0), None);
}

#[test]
fn partial_load_requeue() {
    let mut store = Store::new();
    let queue = Queue::new();
    let log = Rc::new(RefCell::new(Vec::new()));
    let h = store.allocate();
    queue.push(new_asset("raw", h.clone(), &log));
    let f = |d: String| -> Result<ProcessingState<String, String>, String> {
        if d == "partial" {
            Ok(ProcessingState::Loaded("final".to_string()))
        } else {
            Ok(ProcessingState::Loading("partial".to_string()))
        }
    };
    store.process(&queue, f, false);
    assert_eq!(store.get(&h), None);
    assert!(log.borrow().is_empty());
    assert_eq!(queue.len(), 1);
    store.process(&queue, f, false);
    assert_eq!(store.get(&h), Some(&"final".to_string()));
    assert_eq!(store.get_version(&h), Some(0));
    assert_eq!(*log.borrow(), vec!["success".to_string()]);
}

#[test]
fn load_error_reported() {
    let mut store = Store::new();
    let queue = Queue::new();
    let log = Rc::new(RefCell::new(Vec::new()));
    let h = store.allocate();
    queue.push(new_asset("raw", h.clone(), &log));
    store.process(&queue, |_d: String| -> Result<ProcessingState<String, String>, String> { Err("bad".to_string()) }, false);
    assert_eq!(*log.borrow(), vec!["fail 0 x asset x bad".to_string()]);
    assert!(!store.contains(&h));
}

fn reload_job(store: &mut Store, queue: &Queue, data: Result<&str, &str>) {
    let due = store.process(queue, upper, true);
    assert_eq!(due.len(), 1);
    for (handle, rel) in due {
        let data = match data {
            Ok(d) => Ok(FormatValue { data: d.to_string(), reload: None }),
            Err(e) => Err(e.to_string()),
        };
        queue.push(Processed::HotReload { data, handle, name: "x".to_string(), old_reload: rel.clone() });
    }
    let none = store.process(queue, |d: String| -> Result<ProcessingState<String, String>, String> { Ok(ProcessingState::Loaded(d)) }, false);
    assert!(none.is_empty());
}

#[test]
fn hot_reload_success() {
    let mut store = Store::new();
    let queue = Queue::new();
    let h = store.insert("v1".to_string());
    store.add_reload(&h, TestReload { due: true });
    reload_job(&mut store, &queue, Ok("v2"));
    assert_eq!(store.get(&h), Some(&"v2".to_string()));
    assert_eq!(store.get_version(&h), Some(1));
    assert_eq!(store.reload_count(), 0);
}

#[test]
fn hot_reload_failure() {
    let mut store = Store::new();
    let queue = Queue::new();
    let h = store.insert("v1".to_string());
    store.add_reload(&h, TestReload { due: true });
    reload_job(&mut store, &queue, Err("io"));
    assert_eq!(store.get(&h), Some(&"v1".to_string()));
    assert_eq!(store.get_version(&h), Some(0));
    assert_eq!(store.reload_count(), 1);
}

#[test]
fn reload_not_due_stays_and_dead_entries_go() {
    let mut store = Store::new();
    let h = store.insert("v1".to_string());
    let gone = store.insert("v2".to_string());
    store.add_reload(&h, TestReload { due: false });
    store.add_reload(&gone, TestReload { due: true });
    drop(gone);
    let (freed, due) = store.maintain(true);
    assert_eq!(freed, vec!["v2".to_string()]);
    assert!(due.is_empty());
    assert_eq!(store.reload_count(), 1);
    assert_eq!(store.take_due_reloads().len(), 0);
}

#[test]
fn replace_bumps_version() {
    let mut store = Store::new();
    let h = store.insert("a".to_string());
    let before = store.get_version(&h).unwrap();
    let old = store.replace(&h, "b".to_string());
    assert_eq!(old, "a".to_string());
    assert!(store.get_version(&h).unwrap() > before);
    assert_eq!(store.get_version(&h), Some(1));
    assert_eq!(store.get(&h), Some(&"b".to_string()));
}

#[test]
fn unload_all_invalidates_handles() {
    let mut store = Store::new();
    let a = store.insert("a".to_string());
    let b = store.insert("b".to_string());
    store.unload_all();
    assert_eq!(store.get(&a), None);
    assert_eq!(store.get(&b), None);
    assert!(!store.contains(&a));
    assert!(!store.contains(&b));
    let c = store.insert("c".to_string());
    assert_eq!(c.id(), 2);
    assert_eq!(store.get(&c), Some(&"c".to_string()));
}

#[test]
fn downgrade_upgrade_while_live() {
    let mut store = Store::new();
    let h = store.insert("a".to_string());
    let w = h.downgrade();
    let up = w.upgrade();
    assert!(up.is_some());
    assert_eq!(up.unwrap().id(), h.id());
    assert!(!w.is_dead());
    drop(h);
    store.sweep_unused();
    assert!(w.is_dead());
    assert!(w.upgrade().is_none());
}

#[test]
fn allocate_ids_increase() {
    let mut store = Store::new();
    let a = store.allocate();
    let b = store.allocate();
    let c = store.allocate();
    assert!(a.id() < b.id() && b.id() < c.id());
    assert_eq!((a.id(), b.id(), c.id()), (0, 1, 2));
}

#[test]
fn allocator_counts_up() {
    let mut alloc = Allocator::new();
    assert_eq!(alloc.next_id(), 0);
    assert_eq!(alloc.next_id(), 1);
    assert_eq!(alloc.count_exec(), 2);
}

#[test]
fn handle_equality_by_cell() {
    let mut store = Store::new();
    let a = store.allocate();
    let b = store.allocate();
    assert!(!a.same_as(&b));
    let a2 = a.clone();
    assert!(a.same_as(&a2));
    assert!(a == a2);
    assert!(a != b);
    assert!(a.is_unique() == false);
}

#[test]
fn clone_asset_present_and_absent() {
    let mut store = Store::new();
    let h = store.insert("a".to_string());
    let c = store.clone_asset(&h).unwrap();
    assert_ne!(c.id(), h.id());
    assert_eq!(store.get(&c), Some(&"a".to_string()));
    assert_eq!(store.get_version(&c), Some(0));
    let absent = store.allocate();
    assert!(store.clone_asset(&absent).is_none());
}

#[test]
fn get_mut_changes_asset() {
    let mut store = Store::new();
    let h = store.insert("a".to_string());
    *store.get_mut(&h).unwrap() = "z".to_string();
    assert_eq!(store.get(&h), Some(&"z".to_string()));
    let absent = store.allocate();
    assert!(store.get_mut(&absent).is_none());
}

#[test]
fn sweep_frees_only_unreferenced() {
    let mut store = Store::new();
    let keep = store.insert("k".to_string());
    let gone = store.insert("g".to_string());
    let gone_id = gone.id();
    drop(gone);
    let freed = store.sweep_unused();
    assert_eq!(freed, vec!["g".to_string()]);
    assert!(store.contains(&keep));
    assert!(!store.contains_id(gone_id));
}

#[test]
fn step_functions_report_outcomes() {
    let mut store = Store::new();
    let h = store.allocate();
    let step = store.process_new_asset::<String, String>(&h, Ok(ProcessingState::Loading("p".to_string())), None);
    assert!(matches!(step, NewAssetStep::Requeue { ref data, .. } if data == "p"));
    let step = store.process_new_asset::<String, String>(&h, Ok(ProcessingState::Loaded("a".to_string())), Some(TestReload { due: false }));
    assert!(matches!(step, NewAssetStep::Committed { unused: true, evicted: None }));
    assert_eq!(store.reload_count(), 1);
    let step = store.process_hot_reload::<String, String>(&h, Err("e".to_string()), None, TestReload { due: false });
    assert!(matches!(step, HotReloadStep::Failed(ref e) if e == "e"));
    assert_eq!(store.reload_count(), 2);
    let absent = store.allocate();
    let step = store.process_hot_reload::<String, String>(&absent, Ok(ProcessingState::Loaded("b".to_string())), None, TestReload { due: false });
    assert!(matches!(step, HotReloadStep::Invalid(ref a) if a == "b"));
    let r = store.commit_hot_reload(&h, "c".to_string());
    assert_eq!(r, Ok("a".to_string()));
    assert_eq!(store.commit_new_asset(&h, "d".to_string()), Some("c".to_string()));
    assert_eq!(store.get_version(&h), Some(0));
}

#[test]
fn settle_reload_entry_outcomes() {
    let mut store = Store::new();
    let h = store.insert("a".to_string());
    let mut due = Vec::new();
    store.settle_reload_entry(h.downgrade(), TestReload { due: true }, Some(h.clone()), true, &mut due);
    assert_eq!(due.len(), 1);
    assert_eq!(due[0].0.id(), h.id());
    assert_eq!(store.reload_count(), 0);
    store.settle_reload_entry(h.downgrade(), TestReload { due: false }, Some(h.clone()), false, &mut due);
    assert_eq!(due.len(), 1);
    assert_eq!(store.reload_count(), 1);
    store.settle_reload_entry(h.downgrade(), TestReload { due: true }, None, false, &mut due);
    assert_eq!(due.len(), 1);
    assert_eq!(store.reload_count(), 1);
}

#[test]
fn free_held_takes_the_asset_out() {
    let mut store = Store::new();
    let a = store.insert("a".to_string());
    let b = store.insert("b".to_string());
    let freed = store.free_held(0);
    assert_eq!(freed, "a".to_string());
    assert!(!store.contains(&a));
    assert_eq!(store.get(&b), Some(&"b".to_string()));
}
