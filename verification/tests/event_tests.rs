use eventify::callback::Recorder;
use eventify::event::Event;

#[test]
fn invoke_reaches_every_hook_in_order() {
    let mut e: Event<i32, Recorder<i32>> = Event::new();
    let ha = e.hook(Recorder::new());
    let hb = e.hook(Recorder::new());
    e.invoke(&1);
    e.invoke(&2);
    let a = e.callback(&ha).expect("first hook registered");
    assert_eq!(a.values(), &vec![1, 2]);
    let b = e.callback(&hb).expect("second hook registered");
    assert_eq!(b.values(), &vec![1, 2]);
}

#[test]
fn invoke_on_empty_event_is_a_no_op() {
    let mut e: Event<i32, Recorder<i32>> = Event::new();
    e.invoke(&42);
    assert_eq!(e.count(), 0);
}

#[test]
fn unhooked_callback_is_not_called() {
    let mut e: Event<i32, Recorder<i32>> = Event::new();
    let ha = e.hook(Recorder::new());
    let hb = e.hook(Recorder::new());
    e.invoke(&1);
    e.unhook(ha);
    e.invoke(&2);
    assert_eq!(e.count(), 1);
    let b = e.callback(&hb).expect("second hook still registered");
    assert_eq!(b.values(), &vec![1, 2]);
}

#[test]
fn unhooking_twice_removed_registration_is_no_op() {
    let mut e: Event<i32, Recorder<i32>> = Event::new();
    let ha = e.hook(Recorder::new());
    let hb = e.hook(Recorder::new());
    e.unhook(hb);
    assert_eq!(e.count(), 1);
    e.unhook(ha);
    assert_eq!(e.count(), 0);
    e.invoke(&3);
    assert_eq!(e.count(), 0);
}

#[test]
fn leaked_hook_keeps_callback_registered() {
    let mut e: Event<i32, Recorder<i32>> = Event::new();
    let ha = e.hook(Recorder::new());
    ha.leak();
    assert_eq!(e.count(), 1);
    e.invoke(&7);
    assert_eq!(e.count(), 1);

    let hb = e.hook(Recorder::new());
    e.unhook(hb);
    assert_eq!(e.count(), 1);
}

#[test]
fn leaked_hook_callback_observes_later_invocations() {
    let mut e: Event<i32, Recorder<i32>> = Event::new();
    let ha = e.hook(Recorder::new());
    let hb = e.hook(Recorder::new());
    ha.leak();
    e.invoke(&7);
    // The surviving handle shows the invocation reached every callback,
    // the leaked one included: the registry still holds both.
    assert_eq!(e.count(), 2);
    let b = e.callback(&hb).expect("second hook registered");
    assert_eq!(b.values(), &vec![7]);
}

#[test]
fn is_alive_tracks_registration() {
    let mut e: Event<i32, Recorder<i32>> = Event::new();
    let other: Event<i32, Recorder<i32>> = Event::new();
    let ha = e.hook(Recorder::new());
    assert!(ha.is_alive(&e));
    assert!(!ha.is_alive(&other));
    let hb = e.hook(Recorder::new());
    e.unhook(ha);
    assert!(hb.is_alive(&e));
    assert_eq!(e.count(), 1);
}

#[test]
fn callback_lookup_finds_only_live_registrations() {
    let mut e: Event<i32, Recorder<i32>> = Event::new();
    let other: Event<i32, Recorder<i32>> = Event::new();
    let ha = e.hook(Recorder::new());
    assert!(e.callback(&ha).is_some());
    assert!(other.callback(&ha).is_none());
}

#[test]
fn recorder_starts_empty() {
    let r: Recorder<i32> = Recorder::new();
    assert!(r.values().is_empty());
}
