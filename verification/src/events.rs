//! How events are described to a backend.

use vstd::prelude::*;
use crate::tracking::BitMask;

verus! {

/// The number of events that a record of events has room for.
pub const EVENT_COUNT: usize = 128;

/// Which events have a listener at the root, by the number of the event.
pub struct EventStatus {
    pub low: u64,
    pub high: u64,
}

impl EventStatus {
    /// Whether the event with the number `event_id` is recorded.
    pub open spec fn holds(&self, event_id: nat) -> bool {
        if event_id < 64 {
            self.low.has(event_id)
        } else {
            event_id < 128 && self.high.has((event_id - 64) as nat)
        }
    }

    /// A record without events.
    pub fn new() -> (status: Self)
        ensures
            forall|event_id: nat| !status.holds(event_id),
    {
        EventStatus { low: u64::zero(), high: u64::zero() }
    }

    /// Records the event with the number `event_id`.
    pub fn add_event(&mut self, event_id: usize)
        requires
            event_id < EVENT_COUNT,
        ensures
            forall|other: nat|
                final(self).holds(other) == (old(self).holds(other) || other == event_id),
    {
        let index = event_id / 64;
        let offset = (event_id % 64) as u8;
        if index == 0 {
            self.low = self.low.with_bit(offset);
        } else {
            self.high = self.high.with_bit(offset);
        }
    }

    /// Whether the event with the number `event_id` was recorded.
    pub fn get_event(&self, event_id: usize) -> (recorded: bool)
        requires
            event_id < EVENT_COUNT,
        ensures
            recorded == self.holds(event_id as nat),
    {
        let index = event_id / 64;
        let offset = (event_id % 64) as u8;
        if index == 0 {
            self.low.test_bit(offset)
        } else {
            self.high.test_bit(offset)
        }
    }
}

/// The types of the events of a platform, one for each family of events.
pub trait PlatformEvents {
    type AnimationEvent;

    type BeforeUnloadEvent;

    type CompositionEvent;

    type DeviceMotionEvent;

    type DeviceOrientationEvent;

    type DragEvent;

    type ErrorEvent;

    type Event;

    type FocusEvent;

    type GamepadEvent;

    type HashChangeEvent;

    type InputEvent;

    type KeyboardEvent;

    type MessageEvent;

    type MouseEvent;

    type PageTransitionEvent;

    type PointerEvent;

    type PopStateEvent;

    type PromiseRejectionEvent;

    type SecurityPolicyViolationEvent;

    type StorageEvent;

    type SubmitEvent;

    type TouchEvent;

    type TransitionEvent;

    type UiEvent;

    type WheelEvent;

    type ProgressEvent;
}

/// One kind of event on the platform `P`: the type of its argument, its
/// number, its name, and whether it bubbles up the tree.
pub trait EventDescription<P: PlatformEvents> {
    type EventType;

    /// The number of the event.
    spec fn number(&self) -> u16;

    /// The name of the event.
    spec fn title(&self) -> Seq<char>;

    /// Whether the event bubbles up the tree.
    spec fn rises(&self) -> bool;

    /// The number of the event.
    fn id(&self) -> (id: u16)
        ensures
            id == self.number(),
    ;

    /// The name of the event, as a listener's key has it after its `on`.
    fn name(&self) -> (name: String)
        ensures
            name@ == self.title(),
    ;

    /// Whether the event bubbles, so that one listener at the root can
    /// serve every node.
    fn bubbles(&self) -> (bubbles: bool)
        ensures
            bubbles == self.rises(),
    ;
}

/// The families of events. The events of one family hand the same type of
/// argument to their listeners.
#[derive(Clone, Copy, Debug, PartialEq, Eq, Structural)]
pub enum EventFamily {
    AnimationEvent,
    BeforeUnloadEvent,
    CompositionEvent,
    DeviceMotionEvent,
    DeviceOrientationEvent,
    DragEvent,
    ErrorEvent,
    Event,
    FocusEvent,
    GamepadEvent,
    HashChangeEvent,
    InputEvent,
    KeyboardEvent,
    MessageEvent,
    MouseEvent,
    PageTransitionEvent,
    PointerEvent,
    PopStateEvent,
    PromiseRejectionEvent,
    SecurityPolicyViolationEvent,
    StorageEvent,
    SubmitEvent,
    TouchEvent,
    TransitionEvent,
    UiEvent,
    WheelEvent,
    ProgressEvent,
}

/// The name of the event with the number `id`; no name for a number that
/// no event has.
pub open spec fn event_name(id: u16) -> Seq<char> {
    match id {
        0 => "afterprint"@,
        1 => "beforeprint"@,
        2 => "beforeunload"@,
        3 => "gamepadconnected"@,
        4 => "gamepaddisconnected"@,
        5 => "hashchange"@,
        6 => "languagechange"@,
        7 => "message"@,
        8 => "messageerror"@,
        9 => "offline"@,
        10 => "online"@,
        11 => "pagehide"@,
        12 => "pageshow"@,
        13 => "popstate"@,
        14 => "rejectionhandled"@,
        15 => "storage"@,
        16 => "unhandledrejection"@,
        17 => "unload"@,
        18 => "abort"@,
        19 => "animationcancel"@,
        20 => "animationend"@,
        21 => "animationiteration"@,
        22 => "animationstart"@,
        23 => "auxclick"@,
        24 => "beforeinput"@,
        25 => "blur"@,
        26 => "canplay"@,
        27 => "canplaythrough"@,
        28 => "change"@,
        29 => "click"@,
        30 => "close"@,
        31 => "compositionend"@,
        32 => "compositionstart"@,
        33 => "compositionupdate"@,
        34 => "contextmenu"@,
        35 => "cuechange"@,
        36 => "doubleclick"@,
        37 => "drag"@,
        38 => "dragend"@,
        39 => "dragenter"@,
        40 => "dragleave"@,
        41 => "dragover"@,
        42 => "dragexit"@,
        43 => "dragstart"@,
        44 => "drop"@,
        45 => "durationchange"@,
        46 => "emptied"@,
        47 => "encrypted"@,
        48 => "ended"@,
        49 => "error"@,
        50 => "focus"@,
        51 => "focusin"@,
        52 => "focusout"@,
        53 => "formdata"@,
        54 => "gotpointercapture"@,
        55 => "input"@,
        56 => "invalid"@,
        57 => "keydown"@,
        58 => "keypress"@,
        59 => "keyup"@,
        60 => "load"@,
        61 => "loadeddata"@,
        62 => "loadedmetadata"@,
        63 => "loadstart"@,
        64 => "lostpointercapture"@,
        65 => "mousedown"@,
        66 => "mouseenter"@,
        67 => "mouseleave"@,
        68 => "mousemove"@,
        69 => "mouseout"@,
        70 => "mouseover"@,
        71 => "mouseup"@,
        72 => "pause"@,
        73 => "play"@,
        74 => "playing"@,
        75 => "pointercancel"@,
        76 => "pointerdown"@,
        77 => "pointerenter"@,
        78 => "pointerleave"@,
        79 => "pointermove"@,
        80 => "pointerout"@,
        81 => "pointerover"@,
        82 => "pointerup"@,
        83 => "progress"@,
        84 => "ratechange"@,
        85 => "reset"@,
        86 => "resize"@,
        87 => "scroll"@,
        88 => "securitypolicyviolation"@,
        89 => "seeked"@,
        90 => "seeking"@,
        91 => "select"@,
        92 => "selectionchange"@,
        93 => "selectstart"@,
        94 => "slotchange"@,
        95 => "stalled"@,
        96 => "submit"@,
        97 => "suspend"@,
        98 => "timeupdate"@,
        99 => "toggle"@,
        100 => "touchcancel"@,
        101 => "touchend"@,
        102 => "touchmove"@,
        103 => "touchstart"@,
        104 => "transitioncancel"@,
        105 => "transitionend"@,
        106 => "transitionrun"@,
        107 => "transitionstart"@,
        108 => "volumechange"@,
        109 => "waiting"@,
        110 => "webkitanimationend"@,
        111 => "webkitanimationiteration"@,
        112 => "webkitanimationstart"@,
        113 => "webkittransitionend"@,
        114 => "wheel"@,
        115 => "DOMContentLoaded"@,
        116 => "devicemotion"@,
        117 => "deviceorientation"@,
        118 => "orientationchange"@,
        119 => "copy"@,
        120 => "cut"@,
        121 => "paste"@,
        122 => "fullscrehange"@,
        123 => "fullscreenerror"@,
        124 => "pointerlockchange"@,
        125 => "pointerlockerror"@,
        126 => "readystatechange"@,
        127 => "visibilitychange"@,
        _ => ""@,
    }
}

/// Whether the event with the number `id` bubbles up the tree.
pub open spec fn event_bubbles(id: u16) -> bool {
    match id {
        0 => false,
        1 => false,
        2 => false,
        3 => false,
        4 => false,
        5 => true,
        6 => false,
        7 => false,
        8 => false,
        9 => false,
        10 => false,
        11 => false,
        12 => false,
        13 => true,
        14 => true,
        15 => false,
        16 => false,
        17 => false,
        18 => false,
        19 => true,
        20 => true,
        21 => true,
        22 => true,
        23 => true,
        24 => true,
        25 => false,
        26 => false,
        27 => false,
        28 => true,
        29 => true,
        30 => false,
        31 => true,
        32 => true,
        33 => true,
        34 => true,
        35 => false,
        36 => true,
        37 => true,
        38 => true,
        39 => true,
        40 => true,
        41 => true,
        42 => true,
        43 => true,
        44 => true,
        45 => false,
        46 => false,
        47 => false,
        48 => false,
        49 => false,
        50 => false,
        51 => false,
        52 => false,
        53 => true,
        54 => false,
        55 => true,
        56 => false,
        57 => true,
        58 => true,
        59 => true,
        60 => false,
        61 => false,
        62 => false,
        63 => false,
        64 => true,
        65 => true,
        66 => false,
        67 => false,
        68 => true,
        69 => true,
        70 => true,
        71 => true,
        72 => false,
        73 => false,
        74 => false,
        75 => true,
        76 => true,
        77 => false,
        78 => false,
        79 => true,
        80 => true,
        81 => true,
        82 => true,
        83 => false,
        84 => false,
        85 => true,
        86 => false,
        87 => false,
        88 => true,
        89 => false,
        90 => false,
        91 => true,
        92 => false,
        93 => true,
        94 => true,
        95 => false,
        96 => true,
        97 => false,
        98 => false,
        99 => false,
        100 => true,
        101 => true,
        102 => true,
        103 => true,
        104 => true,
        105 => true,
        106 => true,
        107 => true,
        108 => false,
        109 => false,
        110 => true,
        111 => true,
        112 => true,
        113 => true,
        114 => true,
        115 => true,
        116 => false,
        117 => false,
        118 => false,
        119 => true,
        120 => true,
        121 => true,
        122 => true,
        123 => true,
        124 => true,
        125 => true,
        126 => false,
        127 => true,
        _ => false,
    }
}

/// The family of the event with the number `id`.
pub open spec fn event_family(id: u16) -> EventFamily {
    match id {
        0 => EventFamily::Event,
        1 => EventFamily::Event,
        2 => EventFamily::BeforeUnloadEvent,
        3 => EventFamily::GamepadEvent,
        4 => EventFamily::GamepadEvent,
        5 => EventFamily::HashChangeEvent,
        6 => EventFamily::Event,
        7 => EventFamily::MessageEvent,
        8 => EventFamily::MessageEvent,
        9 => EventFamily::Event,
        10 => EventFamily::Event,
        11 => EventFamily::PageTransitionEvent,
        12 => EventFamily::PageTransitionEvent,
        13 => EventFamily::PopStateEvent,
        14 => EventFamily::PromiseRejectionEvent,
        15 => EventFamily::StorageEvent,
        16 => EventFamily::PromiseRejectionEvent,
        17 => EventFamily::Event,
        18 => EventFamily::UiEvent,
        19 => EventFamily::AnimationEvent,
        20 => EventFamily::AnimationEvent,
        21 => EventFamily::AnimationEvent,
        22 => EventFamily::AnimationEvent,
        23 => EventFamily::MouseEvent,
        24 => EventFamily::InputEvent,
        25 => EventFamily::FocusEvent,
        26 => EventFamily::Event,
        27 => EventFamily::Event,
        28 => EventFamily::Event,
        29 => EventFamily::MouseEvent,
        30 => EventFamily::Event,
        31 => EventFamily::CompositionEvent,
        32 => EventFamily::CompositionEvent,
        33 => EventFamily::CompositionEvent,
        34 => EventFamily::MouseEvent,
        35 => EventFamily::Event,
        36 => EventFamily::MouseEvent,
        37 => EventFamily::DragEvent,
        38 => EventFamily::DragEvent,
        39 => EventFamily::DragEvent,
        40 => EventFamily::DragEvent,
        41 => EventFamily::DragEvent,
        42 => EventFamily::DragEvent,
        43 => EventFamily::DragEvent,
        44 => EventFamily::DragEvent,
        45 => EventFamily::Event,
        46 => EventFamily::Event,
        47 => EventFamily::Event,
        48 => EventFamily::Event,
        49 => EventFamily::ErrorEvent,
        50 => EventFamily::FocusEvent,
        51 => EventFamily::FocusEvent,
        52 => EventFamily::FocusEvent,
        53 => EventFamily::Event,
        54 => EventFamily::PointerEvent,
        55 => EventFamily::Event,
        56 => EventFamily::Event,
        57 => EventFamily::KeyboardEvent,
        58 => EventFamily::KeyboardEvent,
        59 => EventFamily::KeyboardEvent,
        60 => EventFamily::Event,
        61 => EventFamily::Event,
        62 => EventFamily::Event,
        63 => EventFamily::Event,
        64 => EventFamily::PointerEvent,
        65 => EventFamily::MouseEvent,
        66 => EventFamily::MouseEvent,
        67 => EventFamily::MouseEvent,
        68 => EventFamily::MouseEvent,
        69 => EventFamily::MouseEvent,
        70 => EventFamily::MouseEvent,
        71 => EventFamily::MouseEvent,
        72 => EventFamily::Event,
        73 => EventFamily::Event,
        74 => EventFamily::Event,
        75 => EventFamily::PointerEvent,
        76 => EventFamily::PointerEvent,
        77 => EventFamily::PointerEvent,
        78 => EventFamily::PointerEvent,
        79 => EventFamily::PointerEvent,
        80 => EventFamily::PointerEvent,
        81 => EventFamily::PointerEvent,
        82 => EventFamily::PointerEvent,
        83 => EventFamily::ProgressEvent,
        84 => EventFamily::Event,
        85 => EventFamily::Event,
        86 => EventFamily::UiEvent,
        87 => EventFamily::Event,
        88 => EventFamily::SecurityPolicyViolationEvent,
        89 => EventFamily::Event,
        90 => EventFamily::Event,
        91 => EventFamily::Event,
        92 => EventFamily::Event,
        93 => EventFamily::Event,
        94 => EventFamily::Event,
        95 => EventFamily::Event,
        96 => EventFamily::SubmitEvent,
        97 => EventFamily::Event,
        98 => EventFamily::Event,
        99 => EventFamily::Event,
        100 => EventFamily::TouchEvent,
        101 => EventFamily::TouchEvent,
        102 => EventFamily::TouchEvent,
        103 => EventFamily::TouchEvent,
        104 => EventFamily::TransitionEvent,
        105 => EventFamily::TransitionEvent,
        106 => EventFamily::TransitionEvent,
        107 => EventFamily::TransitionEvent,
        108 => EventFamily::Event,
        109 => EventFamily::Event,
        110 => EventFamily::Event,
        111 => EventFamily::Event,
        112 => EventFamily::Event,
        113 => EventFamily::Event,
        114 => EventFamily::WheelEvent,
        115 => EventFamily::Event,
        116 => EventFamily::DeviceMotionEvent,
        117 => EventFamily::DeviceOrientationEvent,
        118 => EventFamily::Event,
        119 => EventFamily::Event,
        120 => EventFamily::Event,
        121 => EventFamily::Event,
        122 => EventFamily::Event,
        123 => EventFamily::Event,
        124 => EventFamily::Event,
        125 => EventFamily::Event,
        126 => EventFamily::Event,
        127 => EventFamily::Event,
        _ => EventFamily::Event,
    }
}

/// Whether there is an event called `name`.
pub open spec fn known_event(name: Seq<char>) -> bool {
    exists|id: u16| id < EVENT_COUNT && event_name(id) == name
}

/// The name of the event with the number `id`.
pub fn name_of(id: u16) -> (name: &'static str)
    ensures
        name@ == event_name(id),
{
    match id {
        0 => "afterprint",
        1 => "beforeprint",
        2 => "beforeunload",
        3 => "gamepadconnected",
        4 => "gamepaddisconnected",
        5 => "hashchange",
        6 => "languagechange",
        7 => "message",
        8 => "messageerror",
        9 => "offline",
        10 => "online",
        11 => "pagehide",
        12 => "pageshow",
        13 => "popstate",
        14 => "rejectionhandled",
        15 => "storage",
        16 => "unhandledrejection",
        17 => "unload",
        18 => "abort",
        19 => "animationcancel",
        20 => "animationend",
        21 => "animationiteration",
        22 => "animationstart",
        23 => "auxclick",
        24 => "beforeinput",
        25 => "blur",
        26 => "canplay",
        27 => "canplaythrough",
        28 => "change",
        29 => "click",
        30 => "close",
        31 => "compositionend",
        32 => "compositionstart",
        33 => "compositionupdate",
        34 => "contextmenu",
        35 => "cuechange",
        36 => "doubleclick",
        37 => "drag",
        38 => "dragend",
        39 => "dragenter",
        40 => "dragleave",
        41 => "dragover",
        42 => "dragexit",
        43 => "dragstart",
        44 => "drop",
        45 => "durationchange",
        46 => "emptied",
        47 => "encrypted",
        48 => "ended",
        49 => "error",
        50 => "focus",
        51 => "focusin",
        52 => "focusout",
        53 => "formdata",
        54 => "gotpointercapture",
        55 => "input",
        56 => "invalid",
        57 => "keydown",
        58 => "keypress",
        59 => "keyup",
        60 => "load",
        61 => "loadeddata",
        62 => "loadedmetadata",
        63 => "loadstart",
        64 => "lostpointercapture",
        65 => "mousedown",
        66 => "mouseenter",
        67 => "mouseleave",
        68 => "mousemove",
        69 => "mouseout",
        70 => "mouseover",
        71 => "mouseup",
        72 => "pause",
        73 => "play",
        74 => "playing",
        75 => "pointercancel",
        76 => "pointerdown",
        77 => "pointerenter",
        78 => "pointerleave",
        79 => "pointermove",
        80 => "pointerout",
        81 => "pointerover",
        82 => "pointerup",
        83 => "progress",
        84 => "ratechange",
        85 => "reset",
        86 => "resize",
        87 => "scroll",
        88 => "securitypolicyviolation",
        89 => "seeked",
        90 => "seeking",
        91 => "select",
        92 => "selectionchange",
        93 => "selectstart",
        94 => "slotchange",
        95 => "stalled",
        96 => "submit",
        97 => "suspend",
        98 => "timeupdate",
        99 => "toggle",
        100 => "touchcancel",
        101 => "touchend",
        102 => "touchmove",
        103 => "touchstart",
        104 => "transitioncancel",
        105 => "transitionend",
        106 => "transitionrun",
        107 => "transitionstart",
        108 => "volumechange",
        109 => "waiting",
        110 => "webkitanimationend",
        111 => "webkitanimationiteration",
        112 => "webkitanimationstart",
        113 => "webkittransitionend",
        114 => "wheel",
        115 => "DOMContentLoaded",
        116 => "devicemotion",
        117 => "deviceorientation",
        118 => "orientationchange",
        119 => "copy",
        120 => "cut",
        121 => "paste",
        122 => "fullscrehange",
        123 => "fullscreenerror",
        124 => "pointerlockchange",
        125 => "pointerlockerror",
        126 => "readystatechange",
        127 => "visibilitychange",
        _ => "",
    }
}

/// Whether the event with the number `id` bubbles up the tree, so that one
/// listener at the root can serve every node.
pub fn bubbles(id: u16) -> (bubbles: bool)
    ensures
        bubbles == event_bubbles(id),
{
    match id {
        0 => false,
        1 => false,
        2 => false,
        3 => false,
        4 => false,
        5 => true,
        6 => false,
        7 => false,
        8 => false,
        9 => false,
        10 => false,
        11 => false,
        12 => false,
        13 => true,
        14 => true,
        15 => false,
        16 => false,
        17 => false,
        18 => false,
        19 => true,
        20 => true,
        21 => true,
        22 => true,
        23 => true,
        24 => true,
        25 => false,
        26 => false,
        27 => false,
        28 => true,
        29 => true,
        30 => false,
        31 => true,
        32 => true,
        33 => true,
        34 => true,
        35 => false,
        36 => true,
        37 => true,
        38 => true,
        39 => true,
        40 => true,
        41 => true,
        42 => true,
        43 => true,
        44 => true,
        45 => false,
        46 => false,
        47 => false,
        48 => false,
        49 => false,
        50 => false,
        51 => false,
        52 => false,
        53 => true,
        54 => false,
        55 => true,
        56 => false,
        57 => true,
        58 => true,
        59 => true,
        60 => false,
        61 => false,
        62 => false,
        63 => false,
        64 => true,
        65 => true,
        66 => false,
        67 => false,
        68 => true,
        69 => true,
        70 => true,
        71 => true,
        72 => false,
        73 => false,
        74 => false,
        75 => true,
        76 => true,
        77 => false,
        78 => false,
        79 => true,
        80 => true,
        81 => true,
        82 => true,
        83 => false,
        84 => false,
        85 => true,
        86 => false,
        87 => false,
        88 => true,
        89 => false,
        90 => false,
        91 => true,
        92 => false,
        93 => true,
        94 => true,
        95 => false,
        96 => true,
        97 => false,
        98 => false,
        99 => false,
        100 => true,
        101 => true,
        102 => true,
        103 => true,
        104 => true,
        105 => true,
        106 => true,
        107 => true,
        108 => false,
        109 => false,
        110 => true,
        111 => true,
        112 => true,
        113 => true,
        114 => true,
        115 => true,
        116 => false,
        117 => false,
        118 => false,
        119 => true,
        120 => true,
        121 => true,
        122 => true,
        123 => true,
        124 => true,
        125 => true,
        126 => false,
        127 => true,
        _ => false,
    }
}

/// The family of the event with the number `id`.
pub fn family_of(id: u16) -> (family: EventFamily)
    ensures
        family == event_family(id),
{
    match id {
        0 => EventFamily::Event,
        1 => EventFamily::Event,
        2 => EventFamily::BeforeUnloadEvent,
        3 => EventFamily::GamepadEvent,
        4 => EventFamily::GamepadEvent,
        5 => EventFamily::HashChangeEvent,
        6 => EventFamily::Event,
        7 => EventFamily::MessageEvent,
        8 => EventFamily::MessageEvent,
        9 => EventFamily::Event,
        10 => EventFamily::Event,
        11 => EventFamily::PageTransitionEvent,
        12 => EventFamily::PageTransitionEvent,
        13 => EventFamily::PopStateEvent,
        14 => EventFamily::PromiseRejectionEvent,
        15 => EventFamily::StorageEvent,
        16 => EventFamily::PromiseRejectionEvent,
        17 => EventFamily::Event,
        18 => EventFamily::UiEvent,
        19 => EventFamily::AnimationEvent,
        20 => EventFamily::AnimationEvent,
        21 => EventFamily::AnimationEvent,
        22 => EventFamily::AnimationEvent,
        23 => EventFamily::MouseEvent,
        24 => EventFamily::InputEvent,
        25 => EventFamily::FocusEvent,
        26 => EventFamily::Event,
        27 => EventFamily::Event,
        28 => EventFamily::Event,
        29 => EventFamily::MouseEvent,
        30 => EventFamily::Event,
        31 => EventFamily::CompositionEvent,
        32 => EventFamily::CompositionEvent,
        33 => EventFamily::CompositionEvent,
        34 => EventFamily::MouseEvent,
        35 => EventFamily::Event,
        36 => EventFamily::MouseEvent,
        37 => EventFamily::DragEvent,
        38 => EventFamily::DragEvent,
        39 => EventFamily::DragEvent,
        40 => EventFamily::DragEvent,
        41 => EventFamily::DragEvent,
        42 => EventFamily::DragEvent,
        43 => EventFamily::DragEvent,
        44 => EventFamily::DragEvent,
        45 => EventFamily::Event,
        46 => EventFamily::Event,
        47 => EventFamily::Event,
        48 => EventFamily::Event,
        49 => EventFamily::ErrorEvent,
        50 => EventFamily::FocusEvent,
        51 => EventFamily::FocusEvent,
        52 => EventFamily::FocusEvent,
        53 => EventFamily::Event,
        54 => EventFamily::PointerEvent,
        55 => EventFamily::Event,
        56 => EventFamily::Event,
        57 => EventFamily::KeyboardEvent,
        58 => EventFamily::KeyboardEvent,
        59 => EventFamily::KeyboardEvent,
        60 => EventFamily::Event,
        61 => EventFamily::Event,
        62 => EventFamily::Event,
        63 => EventFamily::Event,
        64 => EventFamily::PointerEvent,
        65 => EventFamily::MouseEvent,
        66 => EventFamily::MouseEvent,
        67 => EventFamily::MouseEvent,
        68 => EventFamily::MouseEvent,
        69 => EventFamily::MouseEvent,
        70 => EventFamily::MouseEvent,
        71 => EventFamily::MouseEvent,
        72 => EventFamily::Event,
        73 => EventFamily::Event,
        74 => EventFamily::Event,
        75 => EventFamily::PointerEvent,
        76 => EventFamily::PointerEvent,
        77 => EventFamily::PointerEvent,
        78 => EventFamily::PointerEvent,
        79 => EventFamily::PointerEvent,
        80 => EventFamily::PointerEvent,
        81 => EventFamily::PointerEvent,
        82 => EventFamily::PointerEvent,
        83 => EventFamily::ProgressEvent,
        84 => EventFamily::Event,
        85 => EventFamily::Event,
        86 => EventFamily::UiEvent,
        87 => EventFamily::Event,
        88 => EventFamily::SecurityPolicyViolationEvent,
        89 => EventFamily::Event,
        90 => EventFamily::Event,
        91 => EventFamily::Event,
        92 => EventFamily::Event,
        93 => EventFamily::Event,
        94 => EventFamily::Event,
        95 => EventFamily::Event,
        96 => EventFamily::SubmitEvent,
        97 => EventFamily::Event,
        98 => EventFamily::Event,
        99 => EventFamily::Event,
        100 => EventFamily::TouchEvent,
        101 => EventFamily::TouchEvent,
        102 => EventFamily::TouchEvent,
        103 => EventFamily::TouchEvent,
        104 => EventFamily::TransitionEvent,
        105 => EventFamily::TransitionEvent,
        106 => EventFamily::TransitionEvent,
        107 => EventFamily::TransitionEvent,
        108 => EventFamily::Event,
        109 => EventFamily::Event,
        110 => EventFamily::Event,
        111 => EventFamily::Event,
        112 => EventFamily::Event,
        113 => EventFamily::Event,
        114 => EventFamily::WheelEvent,
        115 => EventFamily::Event,
        116 => EventFamily::DeviceMotionEvent,
        117 => EventFamily::DeviceOrientationEvent,
        118 => EventFamily::Event,
        119 => EventFamily::Event,
        120 => EventFamily::Event,
        121 => EventFamily::Event,
        122 => EventFamily::Event,
        123 => EventFamily::Event,
        124 => EventFamily::Event,
        125 => EventFamily::Event,
        126 => EventFamily::Event,
        127 => EventFamily::Event,
        _ => EventFamily::Event,
    }
}

/// The number of the event called `name`, if there is such an event.
pub fn find_event(name: &str) -> (found: Option<u16>)
    ensures
        match found {
            Some(id) => id < EVENT_COUNT && event_name(id) == name@,
            None => forall|id: u16| id < EVENT_COUNT ==> event_name(id) != name@,
        },
        found.is_some() == known_event(name@),
{
    let mut id: u16 = 0;
    while id < 128
        invariant
            id <= 128,
            forall|other: u16| other < id ==> event_name(other) != name@,
        decreases 128 - id,
    {
        if crate::text::same_text(name_of(id), name) {
            return Some(id);
        }
        id = id + 1;
    }
    None
}

/// One kind of event: its number, and what the table says of it.
#[derive(Clone, Copy, Debug)]
pub struct Event {
    pub id: u16,
}

impl Event {
    /// The event called `name`, if there is such an event.
    pub fn named(name: &str) -> (found: Option<Event>)
        ensures
            match found {
                Some(event) => event.id < EVENT_COUNT && event_name(event.id) == name@,
                None => forall|id: u16| id < EVENT_COUNT ==> event_name(id) != name@,
            },
    {
        match find_event(name) {
            Some(id) => Some(Event { id }),
            None => None,
        }
    }

    /// The name of the event.
    pub fn event_name(&self) -> (name: String)
        ensures
            name@ == event_name(self.id),
    {
        name_of(self.id).to_owned()
    }

    /// Whether the event bubbles up the tree.
    pub fn event_bubbles(&self) -> (bubbles: bool)
        ensures
            bubbles == event_bubbles(self.id),
    {
        bubbles(self.id)
    }

    /// The family of the event.
    pub fn family(&self) -> (family: EventFamily)
        ensures
            family == event_family(self.id),
    {
        family_of(self.id)
    }
}

impl<P: PlatformEvents> EventDescription<P> for Event {
    type EventType = EventFamily;

    open spec fn number(&self) -> u16 {
        self.id
    }

    open spec fn title(&self) -> Seq<char> {
        event_name(self.id)
    }

    open spec fn rises(&self) -> bool {
        event_bubbles(self.id)
    }

    fn id(&self) -> u16 {
        self.id
    }

    fn name(&self) -> String {
        self.event_name()
    }

    fn bubbles(&self) -> bool {
        self.event_bubbles()
    }
}

} // verus!
