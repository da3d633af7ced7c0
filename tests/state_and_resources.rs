use sierra_class_hash::resources::{ExecutionResources, ResourceError, BUILTIN_COUNT};
use sierra_class_hash::state::{AccountRecord, AccountStore, CachedState};

fn addr(n: u8) -> [u8; 32] {
    let mut a = [0u8; 32];
    a[31] = n;
    a
}

fn record(class: u8, nonce: u64) -> AccountRecord {
    AccountRecord { class_hash: addr(class), nonce }
}

#[test]
fn unknown_address_reads_uninitialized() {
    let store = AccountStore::new();
    let layer = CachedState::new();
    let r = layer.get_account_record(&store, &addr(1));
    assert_eq!(r.class_hash, [0u8; 32]);
    assert_eq!(r.nonce, 0);
}

#[test]
fn layer_reads_its_own_write_then_the_store() {
    let mut store = AccountStore::new();
    store.set(addr(1), record(5, 1));
    store.set(addr(2), record(6, 2));
    let mut layer = CachedState::new();
    layer.set_account_record(addr(1), record(7, 3));
    assert_eq!(layer.get_account_record(&store, &addr(1)).nonce, 3);
    assert_eq!(layer.get_account_record(&store, &addr(2)).nonce, 2);
    assert_eq!(store.get(&addr(1)).unwrap().nonce, 1);
}

#[test]
fn last_write_wins() {
    let mut layer = CachedState::new();
    layer.set_account_record(addr(4), record(1, 1));
    layer.set_account_record(addr(4), record(2, 9));
    let store = AccountStore::new();
    let r = layer.get_account_record(&store, &addr(4));
    assert_eq!(r.nonce, 9);
    assert_eq!(r.class_hash, addr(2));
}

#[test]
fn sibling_layers_do_not_see_each_other() {
    let mut store = AccountStore::new();
    store.set(addr(1), record(5, 1));
    let mut first = CachedState::new();
    let second = CachedState::new();
    first.set_account_record(addr(1), record(8, 4));
    first.set_account_record(addr(3), record(8, 4));
    assert_eq!(second.get_account_record(&store, &addr(1)).nonce, 1);
    assert_eq!(second.get_account_record(&store, &addr(3)).nonce, 0);
    assert_eq!(first.get_account_record(&store, &addr(1)).nonce, 4);
}

#[test]
fn merge_commits_writes_in_order() {
    let mut store = AccountStore::new();
    store.set(addr(1), record(5, 1));
    let mut layer = CachedState::new();
    layer.set_account_record(addr(1), record(6, 2));
    layer.set_account_record(addr(2), record(7, 3));
    layer.set_account_record(addr(1), record(8, 4));
    layer.merge_into(&mut store);
    assert_eq!(store.get(&addr(1)).unwrap().nonce, 4);
    assert_eq!(store.get(&addr(2)).unwrap().nonce, 3);
    assert!(store.get(&addr(3)).is_none());
}

#[test]
fn charge_adds_steps_and_builtins() {
    let mut r = ExecutionResources::new();
    let mut usage = vec![0u64; BUILTIN_COUNT];
    usage[1] = 3;
    assert!(r.charge(10, &usage, 100).is_ok());
    assert!(r.charge(5, &usage, 100).is_ok());
    assert_eq!(r.n_steps, 15);
    assert_eq!(r.builtin_usage[1], 6);
    assert_eq!(r.remaining_budget(100), 85);
}

#[test]
fn root_totals_are_sum_of_frames() {
    let usage = |k: usize, n: u64| {
        let mut u = vec![0u64; BUILTIN_COUNT];
        u[k] = n;
        u
    };
    let mut grandchild = ExecutionResources::new();
    grandchild.charge(7, &usage(2, 1), 1000).unwrap();
    let mut child = ExecutionResources::new();
    child.charge(20, &usage(0, 4), 1000).unwrap();
    child.merge_child(&grandchild, 1000).unwrap();
    let mut root = ExecutionResources::new();
    root.charge(100, &usage(0, 1), 1000).unwrap();
    root.merge_child(&child, 1000).unwrap();
    assert_eq!(root.n_steps, 127);
    assert_eq!(root.builtin_usage[0], 5);
    assert_eq!(root.builtin_usage[2], 1);
}

#[test]
fn exceeding_budget_fails_and_keeps_counters() {
    let mut r = ExecutionResources::new();
    let usage = vec![0u64; BUILTIN_COUNT];
    r.charge(90, &usage, 100).unwrap();
    assert_eq!(r.charge(11, &usage, 100), Err(ResourceError::ResourceExhausted));
    assert_eq!(r.n_steps, 90);
    assert!(r.charge(10, &usage, 100).is_ok());
    assert_eq!(r.remaining_budget(100), 0);
    assert_eq!(r.remaining_budget(50), 0);
}

#[test]
fn child_overrun_fails_merge() {
    let usage = vec![0u64; BUILTIN_COUNT];
    let mut child = ExecutionResources::new();
    child.charge(60, &usage, 1000).unwrap();
    let mut root = ExecutionResources::new();
    root.charge(50, &usage, 100).unwrap();
    assert_eq!(root.merge_child(&child, 100), Err(ResourceError::ResourceExhausted));
    assert_eq!(root.n_steps, 50);
}

#[test]
fn builtin_counter_overflow_is_exhaustion() {
    let mut usage = vec![0u64; BUILTIN_COUNT];
    usage[7] = u64::MAX;
    let mut r = ExecutionResources::new();
    r.charge(0, &usage, 10).unwrap();
    let mut one = vec![0u64; BUILTIN_COUNT];
    one[7] = 1;
    assert_eq!(r.charge(0, &one, 10), Err(ResourceError::ResourceExhausted));
    assert_eq!(r.builtin_usage[7], u64::MAX);
}
