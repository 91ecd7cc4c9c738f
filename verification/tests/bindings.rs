use spectral_editor::binding::{BindingRegistry, Subscription};
use spectral_editor::dispatch::{dispatch, Gesture};
use spectral_editor::param::{ParameterDescriptor, ValueKind};
use spectral_editor::store::ParameterStore;

const THRESHOLD: u32 = 10;
const RATIO: u32 = 11;
const SLIDER: u32 = 100;
const READOUT: u32 = 101;
const KNOB: u32 = 102;

fn store() -> ParameterStore {
    let mut store = ParameterStore::new();
    let threshold = ParameterDescriptor {
        id: THRESHOLD,
        name: String::from("Upwards Threshold"),
        kind: ValueKind::Continuous {
            min: -600,
            max: 0,
            default: -300,
            decimals: 1,
            unit: String::from("dB"),
        },
    };
    assert_eq!(store.register(threshold, vec![String::from("Upwards")]), Ok(()));
    let ratio = ParameterDescriptor {
        id: RATIO,
        name: String::from("Upwards Ratio"),
        kind: ValueKind::Continuous {
            min: 10,
            max: 5000,
            default: 10,
            decimals: 1,
            unit: String::new(),
        },
    };
    assert_eq!(store.register(ratio, vec![String::from("Upwards")]), Ok(()));
    store
}

fn bound(store: &ParameterStore) -> BindingRegistry {
    let mut registry = BindingRegistry::new();
    registry.bind(SLIDER, THRESHOLD, store);
    registry.bind(READOUT, THRESHOLD, store);
    registry.bind(KNOB, RATIO, store);
    registry
}

#[test]
fn a_new_registry_is_empty() {
    let registry = BindingRegistry::new();
    assert_eq!(registry.len(), 0);
    assert!(registry.subscriptions().is_empty());
}

#[test]
fn bind_hands_out_the_current_value() {
    let mut store = store();
    store.write(THRESHOLD, -120);
    let mut registry = BindingRegistry::new();
    assert_eq!(registry.bind(SLIDER, THRESHOLD, &store), -120);
    assert_eq!(registry.bind(KNOB, RATIO, &store), 10);
    assert_eq!(
        registry.subscriptions(),
        vec![
            Subscription { observer: SLIDER, source: THRESHOLD, seen: -120 },
            Subscription { observer: KNOB, source: RATIO, seen: 10 },
        ]
    );
}

#[test]
fn refresh_schedules_nothing_while_nothing_changes() {
    let store = store();
    let mut registry = bound(&store);
    assert_eq!(registry.refresh(&store), Vec::<u32>::new());
    assert_eq!(registry.len(), 3);
}

#[test]
fn a_change_from_outside_reaches_every_observer_within_one_refresh() {
    let mut store = store();
    let mut registry = bound(&store);
    store.write(THRESHOLD, -450);
    assert_eq!(registry.refresh(&store), vec![SLIDER, READOUT]);
    assert_eq!(
        registry.subscriptions(),
        vec![
            Subscription { observer: SLIDER, source: THRESHOLD, seen: -450 },
            Subscription { observer: READOUT, source: THRESHOLD, seen: -450 },
            Subscription { observer: KNOB, source: RATIO, seen: 10 },
        ]
    );
}

#[test]
fn a_second_refresh_schedules_nothing() {
    let mut store = store();
    let mut registry = bound(&store);
    store.write(RATIO, 4000);
    assert_eq!(registry.refresh(&store), vec![KNOB]);
    assert_eq!(registry.refresh(&store), Vec::<u32>::new());
}

#[test]
fn an_edit_in_the_editor_reaches_the_other_observers_too() {
    let mut store = store();
    let mut registry = bound(&store);
    let control = dispatch(store.descriptor(THRESHOLD));
    assert_eq!(control.commit(&mut store, Gesture::Drag(10)), -240);
    assert_eq!(registry.refresh(&store), vec![SLIDER, READOUT]);
    assert_eq!(control.shown(&store), -240);
    assert_eq!(control.shown_text(&store), "-24.0 dB");
}

#[test]
fn a_write_of_the_value_already_shown_schedules_nothing() {
    let mut store = store();
    let mut registry = bound(&store);
    store.write(THRESHOLD, -300);
    assert_eq!(registry.refresh(&store), Vec::<u32>::new());
}

#[test]
fn release_ends_the_subscriptions_of_one_node() {
    let store = store();
    let mut registry = bound(&store);
    registry.bind(SLIDER, RATIO, &store);
    registry.release(SLIDER);
    assert_eq!(
        registry.subscriptions(),
        vec![
            Subscription { observer: READOUT, source: THRESHOLD, seen: -300 },
            Subscription { observer: KNOB, source: RATIO, seen: 10 },
        ]
    );
}

#[test]
fn release_of_a_node_without_subscriptions_changes_nothing() {
    let store = store();
    let mut registry = bound(&store);
    registry.release(999);
    assert_eq!(registry.len(), 3);
}

#[test]
fn a_released_node_is_not_scheduled_again() {
    let mut store = store();
    let mut registry = bound(&store);
    registry.release(SLIDER);
    store.write(THRESHOLD, -10);
    assert_eq!(registry.refresh(&store), vec![READOUT]);
}

#[test]
fn close_ends_all_subscriptions() {
    let mut store = store();
    let mut registry = bound(&store);
    registry.close();
    assert_eq!(registry.len(), 0);
    store.write(THRESHOLD, -10);
    assert_eq!(registry.refresh(&store), Vec::<u32>::new());
}

#[test]
fn the_registry_knows_whether_its_sources_are_in_a_store() {
    let full = store();
    let registry = bound(&full);
    assert!(registry.observes_only(&full));
    let empty = ParameterStore::new();
    assert!(!registry.observes_only(&empty));
    assert!(BindingRegistry::new().observes_only(&empty));
}
