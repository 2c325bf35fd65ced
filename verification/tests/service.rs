use ds_tuner::conf::Config;
use ds_tuner::service::{handle_event, BpfStore, Event};
use ds_tuner::SCALE;

/// The packed entry for a centered output: raw (127, 127).
const CENTER_PACKED: u16 = 127 + 127 * 256;

/// A hook handle stand-in: the tests only watch session bookkeeping.
type Handle = u32;

#[test]
fn store_tracks_sessions() {
    let mut store: BpfStore<Handle> = BpfStore::new();
    let a = String::from("0005:054C:0CE6.000A");
    let b = String::from("0005:054C:0CE6.000B");

    assert!(!store.contains(&a));
    assert_eq!(store.keys().len(), 0);

    store.insert(a.clone(), 1);
    assert!(store.contains(&a));
    assert!(!store.contains(&b));

    store.insert(b.clone(), 2);
    assert_eq!(store.keys(), vec![a.clone(), b.clone()]);

    store.unload(&a);
    assert!(!store.contains(&a));
    assert!(store.contains(&b));
    assert_eq!(store.keys(), vec![b.clone()]);

    // Unloading an absent device is a no-op.
    store.unload(&a);
    assert_eq!(store.keys(), vec![b]);
}

#[test]
fn added_plans_one_fresh_hook() {
    let mut store: BpfStore<Handle> = BpfStore::new();
    let config = Config::default();
    let x = String::from("0005:054C:0CE6.000E");

    let plans = handle_event(&mut store, &Event::DeviceAdded(x.clone()), &config);
    assert_eq!(plans.len(), 1);
    assert_eq!(plans[0].sysname, x);
    assert_eq!(plans[0].sysnum, 14);
    assert_eq!(plans[0].left_stick.len(), 65536);
    assert_eq!(plans[0].right_stick.len(), 65536);
    // The orchestrator itself records nothing: the caller inserts on success.
    assert!(!store.contains(&x));
}

#[test]
fn added_without_numeric_id_plans_nothing() {
    let mut store: BpfStore<Handle> = BpfStore::new();
    let config = Config::default();
    let bad = String::from("device-without-tail.");

    let plans = handle_event(&mut store, &Event::DeviceAdded(bad.clone()), &config);
    assert_eq!(plans.len(), 0);
    assert!(!store.contains(&bad));
}

#[test]
fn duplicate_added_is_idempotent() {
    let mut store: BpfStore<Handle> = BpfStore::new();
    let config = Config::default();
    let x = String::from("0005:054C:0CE6.000E");

    let plans = handle_event(&mut store, &Event::DeviceAdded(x.clone()), &config);
    assert_eq!(plans.len(), 1);
    store.insert(plans[0].sysname.clone(), 1);

    // The same device reported again: no new plan, no state change,
    // exactly one session.
    let duplicate = handle_event(&mut store, &Event::DeviceAdded(x.clone()), &config);
    assert_eq!(duplicate.len(), 0);
    assert!(store.contains(&x));
    assert_eq!(store.keys().len(), 1);
}

#[test]
fn removed_drops_the_session() {
    let mut store: BpfStore<Handle> = BpfStore::new();
    let config = Config::default();
    let x = String::from("0005:054C:0CE6.000E");

    store.insert(x.clone(), 1);
    let plans = handle_event(&mut store, &Event::DeviceRemoved(x.clone()), &config);
    assert_eq!(plans.len(), 0);
    assert!(!store.contains(&x));

    // Removing an unknown device is a no-op.
    let plans = handle_event(&mut store, &Event::DeviceRemoved(x.clone()), &config);
    assert_eq!(plans.len(), 0);
    assert_eq!(store.keys().len(), 0);
}

#[test]
fn rebuild_isolates_failures() {
    let mut store: BpfStore<Handle> = BpfStore::new();
    let config = Config::default();
    let a = String::from("0005:054C:0CE6.000A");
    let b = String::from("0005:054C:0CE6.000B");

    store.insert(a.clone(), 1);
    store.insert(b.clone(), 2);

    let plans = handle_event(&mut store, &Event::ConfigChanged, &config);
    // Both sessions were torn down and both got a rebuild plan.
    assert_eq!(plans.len(), 2);
    assert!(!store.contains(&a));
    assert!(!store.contains(&b));

    // A's rebuild fails: its plan is dropped. B's succeeds.
    let plan_b = plans.iter().find(|p| p.sysname == b).unwrap();
    store.insert(plan_b.sysname.clone(), 3);

    assert!(store.contains(&b));
    assert!(!store.contains(&a));
    assert_eq!(store.keys().len(), 1);
}

#[test]
fn end_to_end_scenario() {
    let mut store: BpfStore<Handle> = BpfStore::new();
    let mut config = Config::default();

    // The enumeration scan found device X; its Added event arrives.
    let x = String::from("0005:054C:0CE6.000E");
    assert!(ds_tuner::device::check_sysname(&x));
    let plans = handle_event(&mut store, &Event::DeviceAdded(x.clone()), &config);
    assert_eq!(plans.len(), 1);
    // The default configuration compiles to the identity table:
    // raw (0, 0) maps to packed 0x0000.
    assert_eq!(plans[0].left_stick[0], 0);
    store.insert(plans[0].sysname.clone(), 1);
    assert_eq!(store.keys().len(), 1);
    assert!(store.contains(&x));

    // The configuration changes: left stick deadzone 0.2, rescale on.
    config.stick.left.deadzone = SCALE / 5;
    config.stick.left.rescale = true;
    let plans = handle_event(&mut store, &Event::ConfigChanged, &config);
    assert_eq!(plans.len(), 1);
    // The regenerated table zeroes the center region: an input just off
    // center, within radius 0.2, packs to raw (127, 127).
    assert_eq!(plans[0].left_stick[127 + 127 * 256], CENTER_PACKED);
    assert_eq!(plans[0].left_stick[120 + 130 * 256], CENTER_PACKED);
    store.insert(plans[0].sysname.clone(), 2);
    assert_eq!(store.keys().len(), 1);

    // Device X is unplugged: its session goes away.
    let plans = handle_event(&mut store, &Event::DeviceRemoved(x.clone()), &config);
    assert_eq!(plans.len(), 0);
    assert_eq!(store.keys().len(), 0);
}
