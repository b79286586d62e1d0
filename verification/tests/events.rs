use qk::events::{bubbles, family_of, find_event, name_of, Event, EventFamily, EventStatus};

#[test]
fn events_are_found_by_name() {
    assert_eq!(find_event("afterprint"), Some(0));
    assert_eq!(find_event("click"), Some(29));
    assert_eq!(find_event("visibilitychange"), Some(127));
    assert_eq!(find_event("Click"), None);
    assert_eq!(find_event(""), None);
    for id in 0..128u16 {
        assert_eq!(find_event(name_of(id)), Some(id));
    }
    assert_eq!(name_of(128), "");
}

#[test]
fn the_table_says_what_bubbles() {
    let click = Event::named("click").unwrap();
    assert_eq!(click.id, 29);
    assert!(click.event_bubbles());
    assert_eq!(click.event_name(), "click");
    assert_eq!(click.family(), EventFamily::MouseEvent);
    let focus = Event::named("focus").unwrap();
    assert!(!focus.event_bubbles());
    assert_eq!(family_of(focus.id), EventFamily::FocusEvent);
    assert!(!bubbles(0));
    assert_eq!((0..128u16).filter(|id| bubbles(*id)).count(), 69);
    assert!(Event::named("tap").is_none());
}

#[test]
fn status_records_events() {
    let mut status = EventStatus::new();
    assert!(!status.get_event(0));
    status.add_event(0);
    status.add_event(63);
    status.add_event(64);
    status.add_event(127);
    status.add_event(64);
    for id in 0..128 {
        assert_eq!(status.get_event(id), [0, 63, 64, 127].contains(&id));
    }
    assert_eq!(status.low, 1 | 1 << 63);
    assert_eq!(status.high, 1 | 1 << 63);
}

struct Plain;

impl qk::events::PlatformEvents for Plain {
    type AnimationEvent = ();
    type BeforeUnloadEvent = ();
    type CompositionEvent = ();
    type DeviceMotionEvent = ();
    type DeviceOrientationEvent = ();
    type DragEvent = ();
    type ErrorEvent = ();
    type Event = ();
    type FocusEvent = ();
    type GamepadEvent = ();
    type HashChangeEvent = ();
    type InputEvent = ();
    type KeyboardEvent = ();
    type MessageEvent = ();
    type MouseEvent = ();
    type PageTransitionEvent = ();
    type PointerEvent = ();
    type PopStateEvent = ();
    type PromiseRejectionEvent = ();
    type SecurityPolicyViolationEvent = ();
    type StorageEvent = ();
    type SubmitEvent = ();
    type TouchEvent = ();
    type TransitionEvent = ();
    type UiEvent = ();
    type WheelEvent = ();
    type ProgressEvent = ();
}

#[test]
fn an_event_describes_itself() {
    let blur = Event::named("blur").unwrap();
    assert_eq!(<Event as qk::events::EventDescription<Plain>>::id(&blur), 25);
    assert_eq!(<Event as qk::events::EventDescription<Plain>>::name(&blur), "blur");
    assert!(!<Event as qk::events::EventDescription<Plain>>::bubbles(&blur));
    let click = Event::named("click").unwrap();
    assert_eq!(<Event as qk::events::EventDescription<Plain>>::id(&click), 29);
    assert_eq!(<Event as qk::events::EventDescription<Plain>>::name(&click), "click");
    assert!(<Event as qk::events::EventDescription<Plain>>::bubbles(&click));
}
