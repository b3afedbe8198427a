use vstd::prelude::*;
use yy_typings::object_yy as yy;
use yy_typings::object_yy::AsyncEvent as A;
use yy_typings::object_yy::EventType as E;
use yy_typings::object_yy::OtherEvent as O;

verus! {

#[verifier::external_type_specification]
#[verifier::external_body]
pub struct ExEventType(yy_typings::object_yy::EventType);

#[verifier::external_type_specification]
#[verifier::external_body]
pub struct ExStage(yy_typings::object_yy::Stage);

#[verifier::external_type_specification]
#[verifier::external_body]
pub struct ExDrawEvent(yy_typings::object_yy::DrawEvent);

#[verifier::external_type_specification]
#[verifier::external_body]
pub struct ExOtherEvent(yy_typings::object_yy::OtherEvent);

#[verifier::external_type_specification]
#[verifier::external_body]
pub struct ExAsyncEvent(yy_typings::object_yy::AsyncEvent);

/// The phase of a step or draw event.
#[derive(Debug, Clone, Copy, PartialEq, Eq)]
pub enum EventStage {
    Main,
    Begin,
    End,
}

/// The kinds of draw event.
#[derive(Debug, Clone, Copy, PartialEq, Eq)]
pub enum DrawKind {
    Draw(EventStage),
    DrawGui(EventStage),
    PreDraw,
    PostDraw,
    WindowResize,
}

/// The kinds of "other" event.
#[derive(Debug, Clone, Copy, PartialEq, Eq)]
pub enum OtherKind {
    OutsideRoom,
    IntersectBoundary,
    OutsideView(usize),
    IntersectView(usize),
    GameStart,
    GameEnd,
    RoomStart,
    RoomEnd,
    AnimationEnd,
    AnimationUpdate,
    AnimationEvent,
    PathEnded,
    UserEvent(usize),
    BroadcastMessage,
}

/// The kinds of asynchronous event.
#[derive(Debug, Clone, Copy, PartialEq, Eq)]
pub enum AsyncKind {
    AudioPlayback,
    AudioRecording,
    Cloud,
    Dialog,
    Http,
    InAppPurchase,
    ImageLoaded,
    Networking,
    PushNotification,
    SaveLoad,
    Social,
    Steam,
    System,
}

/// What the menu logic reads of an event: its kind and subkind. Input events
/// (collision, mouse, keyboard, gesture) keep only their kind.
#[derive(Debug, Clone, Copy, PartialEq, Eq)]
pub enum EventKind {
    Create,
    Destroy,
    CleanUp,
    Step(EventStage),
    Alarm(usize),
    Draw(DrawKind),
    Collision,
    Mouse,
    KeyDown,
    KeyPress,
    KeyRelease,
    Gesture,
    Other(OtherKind),
    Async(AsyncKind),
}

pub open spec fn stage_rank(s: EventStage) -> nat {
    match s {
        EventStage::Main => 0,
        EventStage::Begin => 1,
        EventStage::End => 2,
    }
}

pub open spec fn draw_rank(d: DrawKind) -> (nat, nat) {
    match d {
        DrawKind::Draw(s) => (0, stage_rank(s)),
        DrawKind::DrawGui(s) => (1, stage_rank(s)),
        DrawKind::PreDraw => (2, 0),
        DrawKind::PostDraw => (3, 0),
        DrawKind::WindowResize => (4, 0),
    }
}

pub open spec fn other_rank(o: OtherKind) -> (nat, nat) {
    match o {
        OtherKind::OutsideRoom => (0, 0),
        OtherKind::IntersectBoundary => (1, 0),
        OtherKind::OutsideView(v) => (2, v as nat),
        OtherKind::IntersectView(v) => (3, v as nat),
        OtherKind::GameStart => (4, 0),
        OtherKind::GameEnd => (5, 0),
        OtherKind::RoomStart => (6, 0),
        OtherKind::RoomEnd => (7, 0),
        OtherKind::AnimationEnd => (8, 0),
        OtherKind::AnimationUpdate => (9, 0),
        OtherKind::AnimationEvent => (10, 0),
        OtherKind::PathEnded => (11, 0),
        OtherKind::UserEvent(n) => (12, n as nat),
        OtherKind::BroadcastMessage => (13, 0),
    }
}

pub open spec fn async_rank(a: AsyncKind) -> nat {
    match a {
        AsyncKind::AudioPlayback => 0,
        AsyncKind::AudioRecording => 1,
        AsyncKind::Cloud => 2,
        AsyncKind::Dialog => 3,
        AsyncKind::Http => 4,
        AsyncKind::InAppPurchase => 5,
        AsyncKind::ImageLoaded => 6,
        AsyncKind::Networking => 7,
        AsyncKind::PushNotification => 8,
        AsyncKind::SaveLoad => 9,
        AsyncKind::Social => 10,
        AsyncKind::Steam => 11,
        AsyncKind::System => 12,
    }
}

/// The position of an event in the taxonomy's total order: kind first, then
/// subkind, then number, as the event types declare them.
pub open spec fn event_rank(e: EventKind) -> (nat, nat, nat) {
    match e {
        EventKind::Create => (0, 0, 0),
        EventKind::Destroy => (1, 0, 0),
        EventKind::CleanUp => (2, 0, 0),
        EventKind::Step(s) => (3, stage_rank(s), 0),
        EventKind::Alarm(n) => (4, n as nat, 0),
        EventKind::Draw(d) => (5, draw_rank(d).0, draw_rank(d).1),
        EventKind::Collision => (6, 0, 0),
        EventKind::Mouse => (7, 0, 0),
        EventKind::KeyDown => (8, 0, 0),
        EventKind::KeyPress => (9, 0, 0),
        EventKind::KeyRelease => (10, 0, 0),
        EventKind::Gesture => (11, 0, 0),
        EventKind::Other(o) => (12, other_rank(o).0, other_rank(o).1),
        EventKind::Async(a) => (13, async_rank(a), 0),
    }
}

/// Lexicographic order on ranks.
pub open spec fn rank_le(a: (nat, nat, nat), b: (nat, nat, nat)) -> bool {
    a.0 < b.0 || (a.0 == b.0 && (a.1 < b.1 || (a.1 == b.1 && a.2 <= b.2)))
}

/// Whether `a` comes no later than `b` in the taxonomy's order.
pub open spec fn event_le(a: EventKind, b: EventKind) -> bool {
    rank_le(event_rank(a), event_rank(b))
}

fn stage_rank_exec(s: EventStage) -> (r: usize)
    ensures
        r as nat == stage_rank(s),
{
    match s {
        EventStage::Main => 0,
        EventStage::Begin => 1,
        EventStage::End => 2,
    }
}

impl EventKind {
    /// The event's rank in the taxonomy's order.
    pub fn rank(&self) -> (r: (usize, usize, usize))
        ensures
            (r.0 as nat, r.1 as nat, r.2 as nat) == event_rank(*self),
    {
        match *self {
            EventKind::Create => (0, 0, 0),
            EventKind::Destroy => (1, 0, 0),
            EventKind::CleanUp => (2, 0, 0),
            EventKind::Step(s) => (3, stage_rank_exec(s), 0),
            EventKind::Alarm(n) => (4, n, 0),
            EventKind::Draw(d) => match d {
                DrawKind::Draw(s) => (5, 0, stage_rank_exec(s)),
                DrawKind::DrawGui(s) => (5, 1, stage_rank_exec(s)),
                DrawKind::PreDraw => (5, 2, 0),
                DrawKind::PostDraw => (5, 3, 0),
                DrawKind::WindowResize => (5, 4, 0),
            },
            EventKind::Collision => (6, 0, 0),
            EventKind::Mouse => (7, 0, 0),
            EventKind::KeyDown => (8, 0, 0),
            EventKind::KeyPress => (9, 0, 0),
            EventKind::KeyRelease => (10, 0, 0),
            EventKind::Gesture => (11, 0, 0),
            EventKind::Other(o) => match o {
                OtherKind::OutsideRoom => (12, 0, 0),
                OtherKind::IntersectBoundary => (12, 1, 0),
                OtherKind::OutsideView(v) => (12, 2, v),
                OtherKind::IntersectView(v) => (12, 3, v),
                OtherKind::GameStart => (12, 4, 0),
                OtherKind::GameEnd => (12, 5, 0),
                OtherKind::RoomStart => (12, 6, 0),
                OtherKind::RoomEnd => (12, 7, 0),
                OtherKind::AnimationEnd => (12, 8, 0),
                OtherKind::AnimationUpdate => (12, 9, 0),
                OtherKind::AnimationEvent => (12, 10, 0),
                OtherKind::PathEnded => (12, 11, 0),
                OtherKind::UserEvent(n) => (12, 12, n),
                OtherKind::BroadcastMessage => (12, 13, 0),
            },
            EventKind::Async(a) => match a {
                AsyncKind::AudioPlayback => (13, 0, 0),
                AsyncKind::AudioRecording => (13, 1, 0),
                AsyncKind::Cloud => (13, 2, 0),
                AsyncKind::Dialog => (13, 3, 0),
                AsyncKind::Http => (13, 4, 0),
                AsyncKind::InAppPurchase => (13, 5, 0),
                AsyncKind::ImageLoaded => (13, 6, 0),
                AsyncKind::Networking => (13, 7, 0),
                AsyncKind::PushNotification => (13, 8, 0),
                AsyncKind::SaveLoad => (13, 9, 0),
                AsyncKind::Social => (13, 10, 0),
                AsyncKind::Steam => (13, 11, 0),
                AsyncKind::System => (13, 12, 0),
            },
        }
    }

    /// Whether `self` comes no later than `other` in the taxonomy's order.
    pub fn precedes_or_equals(&self, other: &EventKind) -> (r: bool)
        ensures
            r == event_le(*self, *other),
    {
        let a = self.rank();
        let b = other.rank();
        a.0 < b.0 || (a.0 == b.0 && (a.1 < b.1 || (a.1 == b.1 && a.2 <= b.2)))
    }
}

/// An event as the menu logic sees it: its display name and its kind.
#[derive(Debug, Clone, PartialEq, Eq)]
pub struct EventDescriptor {
    pub name: String,
    pub kind: EventKind,
}

/// Moves yy_typings' `Stage` into the library's own type, variant for variant.
#[verifier::external_body]
fn stage_of(s: yy::Stage) -> (r: EventStage) {
    match s {
        yy::Stage::Main => EventStage::Main,
        yy::Stage::Begin => EventStage::Begin,
        yy::Stage::End => EventStage::End,
    }
}

/// Moves yy_typings' `DrawEvent` into the library's own type, variant for variant.
#[verifier::external_body]
fn draw_kind_of(d: yy::DrawEvent) -> (r: DrawKind) {
    match d {
        yy::DrawEvent::Draw(s) => DrawKind::Draw(stage_of(s)),
        yy::DrawEvent::DrawGui(s) => DrawKind::DrawGui(stage_of(s)),
        yy::DrawEvent::PreDraw => DrawKind::PreDraw,
        yy::DrawEvent::PostDraw => DrawKind::PostDraw,
        yy::DrawEvent::WindowResize => DrawKind::WindowResize,
    }
}

/// Moves yy_typings' `OtherEvent` into the library's own type, variant for variant.
#[verifier::external_body]
fn other_kind_of(o: yy::OtherEvent) -> (r: OtherKind) {
    match o {
        O::OutsideRoom => OtherKind::OutsideRoom, O::IntersectBoundary => OtherKind::IntersectBoundary,
        O::OutsideView(v) => OtherKind::OutsideView(v), O::IntersectView(v) => OtherKind::IntersectView(v),
        O::GameStart => OtherKind::GameStart, O::GameEnd => OtherKind::GameEnd,
        O::RoomStart => OtherKind::RoomStart, O::RoomEnd => OtherKind::RoomEnd,
        O::AnimationEnd => OtherKind::AnimationEnd, O::AnimationUpdate => OtherKind::AnimationUpdate,
        O::AnimationEvent => OtherKind::AnimationEvent, O::PathEnded => OtherKind::PathEnded,
        O::UserEvent(n) => OtherKind::UserEvent(n), O::BroadcastMessage => OtherKind::BroadcastMessage,
    }
}

/// Moves yy_typings' `AsyncEvent` into the library's own type, variant for variant.
#[verifier::external_body]
fn async_kind_of(a: yy::AsyncEvent) -> (r: AsyncKind) {
    match a {
        A::AudioPlayback => AsyncKind::AudioPlayback, A::AudioRecording => AsyncKind::AudioRecording,
        A::Cloud => AsyncKind::Cloud, A::Dialog => AsyncKind::Dialog, A::Http => AsyncKind::Http,
        A::InAppPurchase => AsyncKind::InAppPurchase, A::ImageLoaded => AsyncKind::ImageLoaded,
        A::Networking => AsyncKind::Networking, A::PushNotification => AsyncKind::PushNotification,
        A::SaveLoad => AsyncKind::SaveLoad, A::Social => AsyncKind::Social,
        A::Steam => AsyncKind::Steam, A::System => AsyncKind::System,
    }
}

/// Moves yy_typings' `EventType` into the library's own type, variant for
/// variant; the payloads of input events are dropped.
#[verifier::external_body]
fn event_kind_of(e: yy::EventType) -> (r: EventKind) {
    match e {
        E::Create => EventKind::Create, E::Destroy => EventKind::Destroy,
        E::Cleanup => EventKind::CleanUp, E::Step(s) => EventKind::Step(stage_of(s)),
        E::Alarm(n) => EventKind::Alarm(n), E::Draw(d) => EventKind::Draw(draw_kind_of(d)),
        E::Collision => EventKind::Collision, E::Mouse(_) => EventKind::Mouse,
        E::KeyDown(_) => EventKind::KeyDown, E::KeyPress(_) => EventKind::KeyPress,
        E::KeyRelease(_) => EventKind::KeyRelease, E::Gesture(_) => EventKind::Gesture,
        E::Other(o) => EventKind::Other(other_kind_of(o)),
        E::Async(a) => EventKind::Async(async_kind_of(a)),
    }
}

/// The event that the taxonomy holds under `category` and `index`, as its
/// display name and kind, if it holds one.
pub uninterp spec fn event_at(category: Seq<char>, index: nat) -> Option<(Seq<char>, EventKind)>;

/// An event descriptor as a name and a kind.
pub open spec fn desc_view(d: Option<EventDescriptor>) -> Option<(Seq<char>, EventKind)> {
    match d {
        Some(e) => Some((e.name@, e.kind)),
        None => None,
    }
}

/// Relies on yy_typings' `EventType::parse_filename` and on its `Display` for
/// the name of the event found: both depend on `category` and `index` alone.
#[verifier::external_body]
pub(crate) fn lookup_event(category: &str, index: usize) -> (r: Option<EventDescriptor>)
    ensures
        desc_view(r) == event_at(category@, index as nat),
{
    match yy::EventType::parse_filename(category, index) {
        Ok(e) => Some(EventDescriptor { name: e.to_string(), kind: event_kind_of(e) }),
        Err(_) => None,
    }
}

} // verus!
