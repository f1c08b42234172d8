use rkvm_server::focus::Hotkey;
use rkvm_server::{
    loopback_result, AbsInfo, DeviceFailure, DeviceInfo, Error, Event, Loopback, Route, Router,
    Update,
};

const KEY_LEFTCTRL: u16 = 29;
const KEY_LEFTALT: u16 = 56;
const KEY_A: u16 = 30;

fn keyboard(name: &str) -> DeviceInfo {
    DeviceInfo {
        name: name.to_string(),
        vendor: 0x046d,
        product: 0xc31c,
        version: 0x0111,
        rel: vec![],
        abs: vec![],
        keys: vec![KEY_LEFTCTRL, KEY_LEFTALT, KEY_A],
    }
}

fn tablet() -> DeviceInfo {
    DeviceInfo {
        name: "tablet".to_string(),
        vendor: 0x056a,
        product: 0x0300,
        version: 1,
        rel: vec![0, 1],
        abs: vec![AbsInfo { axis: 0, min: 0, max: 4095, fuzz: 0, flat: 0, resolution: 10 }],
        keys: vec![],
    }
}

fn down(code: u16) -> Event {
    Event::Key { code, down: true }
}

fn up(code: u16) -> Event {
    Event::Key { code, down: false }
}

fn combo_router() -> Router {
    Router::new(vec![KEY_LEFTCTRL, KEY_LEFTALT])
}

fn press_combo(r: &mut Router, dev: usize) {
    r.route_event(dev, down(KEY_LEFTCTRL));
    r.route_event(dev, down(KEY_LEFTALT));
    r.route_event(dev, up(KEY_LEFTALT));
    r.route_event(dev, up(KEY_LEFTCTRL));
}

#[test]
fn switch_combo_moves_focus_to_first_client() {
    let mut r = combo_router();
    let (dev, _) = r.add_device(keyboard("kbd"));
    let (c1, _) = r.accept_client(&vec![]);
    let (c2, _) = r.accept_client(&vec![]);
    assert_eq!((c1, c2), (0, 1));
    assert_eq!(r.focused_client(), None);

    match r.route_event(dev, down(KEY_LEFTCTRL)) {
        Route::Local { device, event } => {
            assert_eq!(device, dev);
            assert_eq!(event, down(KEY_LEFTCTRL));
        }
        other => panic!("expected local, got {:?}", other),
    }
    assert_eq!(r.focused_client(), None);
    // The event that completes the combination still goes to the old focus.
    match r.route_event(dev, down(KEY_LEFTALT)) {
        Route::Local { device, .. } => assert_eq!(device, dev),
        other => panic!("expected local, got {:?}", other),
    }
    assert_eq!(r.focused_client(), Some(0));

    let motion = Event::Rel { axis: 0, value: 5 };
    match r.route_event(dev, motion) {
        Route::Remote { client, update: Update::Event { id, event } } => {
            assert_eq!(client, c1);
            assert_eq!(id, dev);
            assert_eq!(event, motion);
        }
        other => panic!("expected client 1, got {:?}", other),
    }
}

#[test]
fn partial_press_and_release_do_not_switch() {
    let mut r = combo_router();
    let (dev, _) = r.add_device(keyboard("kbd"));
    r.accept_client(&vec![]);
    r.route_event(dev, down(KEY_LEFTCTRL));
    assert_eq!(r.focused_client(), None);
    r.route_event(dev, up(KEY_LEFTCTRL));
    assert_eq!(r.focused_client(), None);
    r.route_event(dev, down(KEY_A));
    assert_eq!(r.focused_client(), None);
}

#[test]
fn held_combo_does_not_switch_again() {
    let mut r = combo_router();
    let (dev, _) = r.add_device(keyboard("kbd"));
    r.accept_client(&vec![]);
    r.accept_client(&vec![]);
    r.route_event(dev, down(KEY_LEFTCTRL));
    r.route_event(dev, down(KEY_LEFTALT));
    assert_eq!(r.focused_client(), Some(0));
    // Key repeat of a held key, and an unrelated key, while all are held.
    r.route_event(dev, down(KEY_LEFTALT));
    r.route_event(dev, down(KEY_A));
    assert_eq!(r.focused_client(), Some(0));
    // Release one and press it again: a new completion.
    r.route_event(dev, up(KEY_LEFTALT));
    assert_eq!(r.focused_client(), Some(0));
    r.route_event(dev, down(KEY_LEFTALT));
    assert_eq!(r.focused_client(), Some(1));
}

#[test]
fn focus_cycles_and_wraps_to_local() {
    let mut r = combo_router();
    let (dev, _) = r.add_device(keyboard("kbd"));
    r.accept_client(&vec![]);
    r.accept_client(&vec![]);
    press_combo(&mut r, dev);
    assert_eq!(r.focused_client(), Some(0));
    press_combo(&mut r, dev);
    assert_eq!(r.focused_client(), Some(1));
    press_combo(&mut r, dev);
    assert_eq!(r.focused_client(), None);
    press_combo(&mut r, dev);
    assert_eq!(r.focused_client(), Some(0));
}

#[test]
fn focus_skips_freed_slot() {
    let mut r = combo_router();
    let (dev, _) = r.add_device(keyboard("kbd"));
    r.accept_client(&vec![]);
    r.accept_client(&vec![]);
    r.accept_client(&vec![]);
    r.remote_failed(1);
    assert_eq!(r.client_count(), 2);
    press_combo(&mut r, dev);
    assert_eq!(r.focused_client(), Some(0));
    // Slot 1 is free: focus goes on to the client in slot 2.
    press_combo(&mut r, dev);
    assert_eq!(r.focused_client(), Some(2));
    press_combo(&mut r, dev);
    assert_eq!(r.focused_client(), None);
    press_combo(&mut r, dev);
    assert_eq!(r.focused_client(), Some(0));
}

#[test]
fn focus_reaches_client_above_count() {
    let mut r = combo_router();
    let (dev, _) = r.add_device(keyboard("kbd"));
    r.accept_client(&vec![]);
    r.accept_client(&vec![]);
    r.accept_client(&vec![]);
    r.remote_failed(0);
    r.remote_failed(1);
    assert_eq!(r.client_count(), 1);
    press_combo(&mut r, dev);
    assert_eq!(r.focused_client(), Some(2));
    press_combo(&mut r, dev);
    assert_eq!(r.focused_client(), None);
}

#[test]
fn empty_combination_never_switches() {
    let mut r = Router::new(vec![]);
    let (dev, _) = r.add_device(keyboard("kbd"));
    r.accept_client(&vec![]);
    press_combo(&mut r, dev);
    assert_eq!(r.focused_client(), None);
}

#[test]
fn focused_client_failure_resets_focus() {
    let mut r = combo_router();
    let (dev, _) = r.add_device(keyboard("kbd"));
    r.accept_client(&vec![]);
    r.accept_client(&vec![]);
    press_combo(&mut r, dev);
    press_combo(&mut r, dev);
    assert_eq!(r.focused_client(), Some(1));
    r.remote_failed(1);
    assert_eq!(r.focused_client(), None);
    assert!(!r.has_client(1));
    match r.route_event(dev, Event::Sync) {
        Route::Local { device, .. } => assert_eq!(device, dev),
        other => panic!("expected local, got {:?}", other),
    }
}

#[test]
fn other_client_failure_keeps_focus() {
    let mut r = combo_router();
    let (dev, _) = r.add_device(keyboard("kbd"));
    r.accept_client(&vec![]);
    r.accept_client(&vec![]);
    press_combo(&mut r, dev);
    assert_eq!(r.focused_client(), Some(0));
    r.remote_failed(1);
    assert_eq!(r.focused_client(), Some(0));
    assert!(r.has_client(0));
}

#[test]
fn accept_prunes_closed_sessions_and_resets_focus() {
    let mut r = combo_router();
    let (dev, _) = r.add_device(keyboard("kbd"));
    r.accept_client(&vec![]);
    r.accept_client(&vec![]);
    press_combo(&mut r, dev);
    assert_eq!(r.focused_client(), Some(0));
    let (id, _) = r.accept_client(&vec![0]);
    assert_eq!(r.focused_client(), None);
    assert_eq!(id, 0);
    assert!(r.has_client(1));
    assert_eq!(r.client_count(), 2);
}

#[test]
fn accept_snapshot_lists_devices_in_slot_order() {
    let mut r = combo_router();
    let (a, _) = r.add_device(keyboard("first"));
    let (b, _) = r.add_device(tablet());
    let (c, _) = r.add_device(keyboard("third"));
    assert_eq!((a, b, c), (0, 1, 2));
    r.device_failed(b, DeviceFailure::Disconnected).unwrap();
    let (_, snapshot) = r.accept_client(&vec![]);
    assert_eq!(snapshot.len(), 2);
    match &snapshot[0] {
        Update::CreateDevice { id, info } => {
            assert_eq!(*id, 0);
            assert_eq!(info.name, "first");
            assert_eq!(info.keys, vec![KEY_LEFTCTRL, KEY_LEFTALT, KEY_A]);
        }
        other => panic!("unexpected {:?}", other),
    }
    match &snapshot[1] {
        Update::CreateDevice { id, info } => {
            assert_eq!(*id, 2);
            assert_eq!(info.name, "third");
        }
        other => panic!("unexpected {:?}", other),
    }
    // The freed slot is taken again by the next device.
    let (d, _) = r.add_device(tablet());
    assert_eq!(d, 1);
}

#[test]
fn accept_with_no_devices_gives_empty_snapshot() {
    let mut r = combo_router();
    let (id, snapshot) = r.accept_client(&vec![]);
    assert_eq!(id, 0);
    assert!(snapshot.is_empty());
}

#[test]
fn new_device_is_announced_to_every_client() {
    let mut r = combo_router();
    r.accept_client(&vec![]);
    r.accept_client(&vec![]);
    r.accept_client(&vec![]);
    r.remote_failed(1);
    let (id, deliveries) = r.add_device(tablet());
    assert_eq!(id, 0);
    assert!(r.has_device(0));
    let clients: Vec<usize> = deliveries.iter().map(|d| d.client).collect();
    assert_eq!(clients, vec![0, 2]);
    for d in &deliveries {
        match &d.update {
            Update::CreateDevice { id, info } => {
                assert_eq!(*id, 0);
                assert_eq!(info.name, "tablet");
                assert_eq!(info.vendor, 0x056a);
                assert_eq!(info.product, 0x0300);
                assert_eq!(info.rel, vec![0, 1]);
                assert_eq!(info.abs[0].max, 4095);
            }
            other => panic!("unexpected {:?}", other),
        }
    }
}

#[test]
fn disconnected_device_is_removed_and_destroyed_everywhere() {
    let mut r = combo_router();
    r.accept_client(&vec![]);
    r.accept_client(&vec![]);
    let (dev, _) = r.add_device(tablet());
    let deliveries = r.device_failed(dev, DeviceFailure::Disconnected).unwrap();
    assert!(!r.has_device(dev));
    assert_eq!(deliveries.len(), 2);
    for (i, d) in deliveries.iter().enumerate() {
        assert_eq!(d.client, i);
        assert!(matches!(d.update, Update::DestroyDevice { id } if id == dev));
    }
}

#[test]
fn other_device_failure_is_fatal() {
    let mut r = combo_router();
    let (dev, _) = r.add_device(tablet());
    match r.device_failed(dev, DeviceFailure::Other("permission denied".to_string())) {
        Err(Error::Input(m)) => assert_eq!(m, "permission denied"),
        other => panic!("unexpected {:?}", other),
    }
    assert!(r.has_device(dev));
}

#[test]
fn full_loopback_is_overflow() {
    assert!(matches!(loopback_result(Loopback::Full), Err(Error::Overflow)));
    assert!(loopback_result(Loopback::Sent).is_ok());
    assert!(loopback_result(Loopback::Closed).is_ok());
}

#[test]
fn hotkey_reports_completion_once() {
    let mut h = Hotkey::new(vec![KEY_LEFTCTRL, KEY_LEFTALT]);
    assert!(!h.is_full());
    assert!(!h.feed(down(KEY_LEFTCTRL)));
    assert!(h.feed(down(KEY_LEFTALT)));
    assert!(h.is_full());
    assert!(!h.feed(down(KEY_LEFTCTRL)));
    assert!(!h.feed(up(KEY_LEFTCTRL)));
    assert!(!h.is_full());
}

#[test]
fn device_validity_rejects_repeated_codes() {
    assert!(keyboard("kbd").is_valid());
    assert!(tablet().is_valid());
    let mut d = keyboard("kbd");
    d.keys.push(KEY_A);
    assert!(!d.is_valid());
    let mut t = tablet();
    t.rel = vec![1, 1];
    assert!(!t.is_valid());
    let mut t = tablet();
    t.abs.push(AbsInfo { axis: 0, min: 1, max: 2, fuzz: 0, flat: 0, resolution: 0 });
    assert!(!t.is_valid());
}
