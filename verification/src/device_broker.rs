//! The broker of device changes: bursts of events are collected over a short window,
//! then turned into notices for the frontend and into restarts of streams.

use vstd::prelude::*;

use crate::model::{self, AudioDeviceInfo, AudioDeviceInfoDto};
use crate::text;

verus! {

/// The length of the window over which events are collected, in milliseconds.
pub const DEBOUNCE_MS: u64 = 250;

/// What the operating system reports.
#[derive(Clone, Copy, Debug, PartialEq, Eq, Structural)]
pub enum DeviceEvent {
    DeviceListChanged,
    DefaultInputChanged,
    DefaultOutputChanged,
    DefaultSystemOutputChanged,
}

/// Which default a notice is about: the microphone, the route of media, or the route of
/// alerts.
#[derive(Clone, Copy, Debug, PartialEq, Eq, Structural)]
pub enum DefaultDeviceKindDto {
    Input,
    Output,
    SystemOutput,
}

/// The notice that a default changed.
#[derive(Clone, Debug)]
pub struct DefaultDeviceChangedPayload {
    pub kind: DefaultDeviceKindDto,
    pub device_id: Option<String>,
    pub device_name: Option<String>,
}

/// Which kinds of events came in during a window.
#[derive(Clone, Copy, Debug, PartialEq, Eq, Structural)]
pub struct CollapsedEvents {
    pub device_list: bool,
    pub default_input: bool,
    pub default_output: bool,
    pub default_system_output: bool,
}

impl Default for CollapsedEvents {
    fn default() -> (r: CollapsedEvents)
        ensures
            r == (CollapsedEvents {
                device_list: false,
                default_input: false,
                default_output: false,
                default_system_output: false,
            }),
    {
        CollapsedEvents {
            device_list: false,
            default_input: false,
            default_output: false,
            default_system_output: false,
        }
    }
}

impl CollapsedEvents {
    /// The same events and one more.
    pub open spec fn with(self, event: DeviceEvent) -> CollapsedEvents {
        match event {
            DeviceEvent::DeviceListChanged => CollapsedEvents { device_list: true, ..self },
            DeviceEvent::DefaultInputChanged => CollapsedEvents { default_input: true, ..self },
            DeviceEvent::DefaultOutputChanged => CollapsedEvents { default_output: true, ..self },
            DeviceEvent::DefaultSystemOutputChanged => CollapsedEvents {
                default_system_output: true,
                ..self
            },
        }
    }

    /// Notes one more event.
    pub fn merge(&mut self, event: DeviceEvent)
        ensures
            *final(self) == old(self).with(event),
    {
        match event {
            DeviceEvent::DeviceListChanged => {
                self.device_list = true;
            },
            DeviceEvent::DefaultInputChanged => {
                self.default_input = true;
            },
            DeviceEvent::DefaultOutputChanged => {
                self.default_output = true;
            },
            DeviceEvent::DefaultSystemOutputChanged => {
                self.default_system_output = true;
            },
        }
    }
}

/// An event noted twice counts once, and the order of two events does not matter.
pub proof fn law_merge_is_a_set(state: CollapsedEvents, a: DeviceEvent, b: DeviceEvent)
    ensures
        state.with(a).with(a) == state.with(a),
        state.with(a).with(b) == state.with(b).with(a),
{
}

// --- The window ---

/// What reaches the broker.
#[derive(Clone, Copy, Debug, PartialEq, Eq, Structural)]
pub enum BrokerInput {
    Event(DeviceEvent),
    /// The window is over.
    WindowElapsed,
    /// No more events can come.
    ChannelClosed,
    /// The shutdown signal has this value now.
    ShutdownSignal(bool),
}

/// What the broker does next.
#[derive(Clone, Copy, Debug, PartialEq, Eq, Structural)]
pub enum BrokerAction {
    /// Wait for the next input.
    Wait,
    /// Start the window.
    OpenWindow,
    /// Act on what was collected.
    Flush(CollapsedEvents),
    /// End. Events are unsubscribed from first where that is said.
    Exit { unsubscribe: bool },
}

/// The state of the broker: what the open window has collected so far.
#[derive(Clone, Copy, Debug, PartialEq, Eq, Structural)]
pub struct Broker {
    pub collected: Option<CollapsedEvents>,
}

/// The state and the action that follow an input. While a window is open only events,
/// its end and the end of the channel count.
pub open spec fn broker_step(state: Broker, input: BrokerInput) -> (Broker, BrokerAction) {
    match (state.collected, input) {
        (None, BrokerInput::Event(e)) => {
            let empty = CollapsedEvents {
                device_list: false,
                default_input: false,
                default_output: false,
                default_system_output: false,
            };
            (Broker { collected: Some(empty.with(e)) }, BrokerAction::OpenWindow)
        },
        (None, BrokerInput::ChannelClosed) => (state, BrokerAction::Exit { unsubscribe: false }),
        (None, BrokerInput::ShutdownSignal(true)) => (
            state,
            BrokerAction::Exit { unsubscribe: true },
        ),
        (None, _) => (state, BrokerAction::Wait),
        (Some(s), BrokerInput::Event(e)) => (
            Broker { collected: Some(s.with(e)) },
            BrokerAction::Wait,
        ),
        (Some(s), BrokerInput::ShutdownSignal(_)) => (state, BrokerAction::Wait),
        (Some(s), _) => (Broker { collected: None }, BrokerAction::Flush(s)),
    }
}

impl Broker {
    /// A broker that has collected nothing.
    pub fn new() -> (r: Broker)
        ensures
            r.collected is None,
    {
        Broker { collected: None }
    }

    /// Takes one input.
    pub fn step(&mut self, input: BrokerInput) -> (r: BrokerAction)
        ensures
            (*final(self), r) == broker_step(*old(self), input),
    {
        match self.collected {
            None => match input {
                BrokerInput::Event(e) => {
                    let mut state = CollapsedEvents::default();
                    state.merge(e);
                    self.collected = Some(state);
                    BrokerAction::OpenWindow
                },
                BrokerInput::ChannelClosed => BrokerAction::Exit { unsubscribe: false },
                BrokerInput::ShutdownSignal(on) => if on {
                    BrokerAction::Exit { unsubscribe: true }
                } else {
                    BrokerAction::Wait
                },
                BrokerInput::WindowElapsed => BrokerAction::Wait,
            },
            Some(s) => match input {
                BrokerInput::Event(e) => {
                    let mut state = s;
                    state.merge(e);
                    self.collected = Some(state);
                    BrokerAction::Wait
                },
                BrokerInput::ShutdownSignal(_) => BrokerAction::Wait,
                _ => {
                    self.collected = None;
                    BrokerAction::Flush(s)
                },
            },
        }
    }
}

/// The window that events open and fill.
pub open spec fn window_of(events: Seq<DeviceEvent>) -> Broker
    decreases events.len(),
{
    if events.len() == 0 {
        Broker { collected: None }
    } else {
        broker_step(window_of(events.drop_last()), BrokerInput::Event(events.last())).0
    }
}

/// Whatever burst comes in during one window leads to one flush, which holds exactly
/// the kinds that came in, and the window is closed behind it.
pub proof fn law_burst_is_one_flush(events: Seq<DeviceEvent>, end: BrokerInput)
    requires
        events.len() > 0,
        end is WindowElapsed || end is ChannelClosed,
    ensures
        broker_step(window_of(events), end).0.collected is None,
        broker_step(window_of(events), end).1 matches BrokerAction::Flush(s) && {
            &&& s.device_list <==> events.contains(DeviceEvent::DeviceListChanged)
            &&& s.default_input <==> events.contains(DeviceEvent::DefaultInputChanged)
            &&& s.default_output <==> events.contains(DeviceEvent::DefaultOutputChanged)
            &&& s.default_system_output <==> events.contains(
                DeviceEvent::DefaultSystemOutputChanged,
            )
        },
    decreases events.len(),
{
    let init = events.drop_last();
    assert(events =~= init.push(events.last()));
    assert forall|e: DeviceEvent| #[trigger]
        events.contains(e) == (init.contains(e) || events.last() == e) by {
        if init.contains(e) {
            let i = choose|i: int| 0 <= i < init.len() && init[i] == e;
            assert(events[i] == e);
        }
        if events.last() == e {
            assert(events[events.len() - 1] == e);
        }
        if events.contains(e) && events.last() != e {
            let i = choose|i: int| 0 <= i < events.len() && events[i] == e;
            assert(init[i] == e);
        }
    }
    if init.len() > 0 {
        law_burst_is_one_flush(init, end);
    }
}

/// Nothing collected is lost: within a window an event only adds to it, a signal changes
/// nothing, and its end hands everything on. Outside a window an event opens one, and the
/// broker leaves where its channel is closed or a shutdown is signalled.
pub proof fn law_broker_loses_nothing(s: CollapsedEvents, e: DeviceEvent, on: bool)
    ensures
        ({
            let idle = Broker { collected: None };
            let open = Broker { collected: Some(s) };
            let fresh = CollapsedEvents {
                device_list: e is DeviceListChanged,
                default_input: e is DefaultInputChanged,
                default_output: e is DefaultOutputChanged,
                default_system_output: e is DefaultSystemOutputChanged,
            };
            &&& broker_step(idle, BrokerInput::Event(e)) == (
                Broker { collected: Some(fresh) },
                BrokerAction::OpenWindow,
            )
            &&& broker_step(idle, BrokerInput::ChannelClosed).1 == (BrokerAction::Exit {
                unsubscribe: false,
            })
            &&& broker_step(idle, BrokerInput::ShutdownSignal(on)).1 == (if on {
                BrokerAction::Exit { unsubscribe: true }
            } else {
                BrokerAction::Wait
            })
            &&& broker_step(idle, BrokerInput::WindowElapsed) == (idle, BrokerAction::Wait)
            &&& broker_step(open, BrokerInput::ShutdownSignal(on)) == (open, BrokerAction::Wait)
            &&& broker_step(open, BrokerInput::WindowElapsed) == (idle, BrokerAction::Flush(s))
            &&& broker_step(open, BrokerInput::ChannelClosed) == (idle, BrokerAction::Flush(s))
            &&& broker_step(open, BrokerInput::Event(e)).1 is Wait
            &&& broker_step(open, BrokerInput::Event(e)).0.collected matches Some(n) && {
                &&& n.device_list <==> s.device_list || e is DeviceListChanged
                &&& n.default_input <==> s.default_input || e is DefaultInputChanged
                &&& n.default_output <==> s.default_output || e is DefaultOutputChanged
                &&& n.default_system_output <==> s.default_system_output || e
                    is DefaultSystemOutputChanged
            }
        }),
{
}

// --- What a flush does ---

/// What a flush tells the frontend and which streams it restarts, in this order.
#[derive(Debug)]
pub struct FlushPlan {
    pub devices_changed: bool,
    pub defaults: Vec<DefaultDeviceKindDto>,
    pub restart_mic: bool,
    pub restart_system: bool,
}

/// The defaults that a flush tells of, in their order.
pub open spec fn told_defaults(state: CollapsedEvents) -> Seq<DefaultDeviceKindDto> {
    (if state.default_input {
        seq![DefaultDeviceKindDto::Input]
    } else {
        Seq::empty()
    }) + (if state.default_output {
        seq![DefaultDeviceKindDto::Output]
    } else {
        Seq::empty()
    }) + (if state.default_system_output {
        seq![DefaultDeviceKindDto::SystemOutput]
    } else {
        Seq::empty()
    })
}

/// Plans a flush. The list of devices is sent anew on any change, since a changed
/// default makes the marks in it stale; the two output routes share one restart.
pub fn flush(state: CollapsedEvents) -> (r: FlushPlan)
    ensures
        r.devices_changed == (state.device_list || state.default_input || state.default_output
            || state.default_system_output),
        r.defaults@ == told_defaults(state),
        r.defaults@.contains(DefaultDeviceKindDto::Input) <==> state.default_input,
        r.defaults@.contains(DefaultDeviceKindDto::Output) <==> state.default_output,
        r.defaults@.contains(DefaultDeviceKindDto::SystemOutput) <==> state.default_system_output,
        r.restart_mic == state.default_input,
        r.restart_system == (state.default_output || state.default_system_output),
{
    let mut defaults: Vec<DefaultDeviceKindDto> = Vec::new();
    if state.default_input {
        defaults.push(DefaultDeviceKindDto::Input);
    }
    if state.default_output {
        defaults.push(DefaultDeviceKindDto::Output);
    }
    if state.default_system_output {
        defaults.push(DefaultDeviceKindDto::SystemOutput);
    }
    assert(defaults@ =~= told_defaults(state));
    proof {
        let a: int = if state.default_input {
            1
        } else {
            0
        };
        let b: int = if state.default_output {
            a + 1
        } else {
            a
        };
        if state.default_input {
            assert(defaults@[0] == DefaultDeviceKindDto::Input);
        }
        if state.default_output {
            assert(defaults@[a] == DefaultDeviceKindDto::Output);
        }
        if state.default_system_output {
            assert(defaults@[b] == DefaultDeviceKindDto::SystemOutput);
        }
    }
    FlushPlan {
        devices_changed: state.device_list || state.default_input || state.default_output
            || state.default_system_output,
        defaults,
        restart_mic: state.default_input,
        restart_system: state.default_output || state.default_system_output,
    }
}

/// Whether the default of this kind is the default microphone. Both output routes are
/// looked up as the default output.
pub fn looks_up_input(kind: DefaultDeviceKindDto) -> (r: bool)
    ensures
        r == (kind is Input),
{
    matches!(kind, DefaultDeviceKindDto::Input)
}

/// The notice of a changed default, by the device that was found.
pub fn default_changed_payload(
    kind: DefaultDeviceKindDto,
    resolved: Option<AudioDeviceInfo>,
) -> (r: DefaultDeviceChangedPayload)
    ensures
        r.kind == kind,
        match resolved {
            Some(info) => r.device_id == info.id && r.device_name == Some(info.name),
            None => r.device_id is None && r.device_name is None,
        },
{
    match resolved {
        Some(info) => DefaultDeviceChangedPayload {
            kind,
            device_id: info.id,
            device_name: Some(info.name),
        },
        None => DefaultDeviceChangedPayload { kind, device_id: None, device_name: None },
    }
}

/// A device as it is shown.
pub open spec fn shown(d: AudioDeviceInfo) -> AudioDeviceInfoDto {
    AudioDeviceInfoDto {
        id: d.id,
        name: d.name,
        device_type: model::device_type_shown(d.device_type),
        is_default: d.is_default,
    }
}

/// The list of devices that is sent: the inputs, then the outputs. Where one of the two
/// could not be read, nothing is sent.
pub fn devices_payload(
    inputs: Option<Vec<AudioDeviceInfo>>,
    outputs: Option<Vec<AudioDeviceInfo>>,
) -> (r: Option<Vec<AudioDeviceInfoDto>>)
    ensures
        match (inputs, outputs) {
            (Some(i), Some(o)) => r matches Some(v) && v@ == (i@ + o@).map_values(
                |d: AudioDeviceInfo| shown(d),
            ),
            _ => r is None,
        },
{
    match (inputs, outputs) {
        (Some(i), Some(o)) => {
            let ghost all = i@ + o@;
            let mut out: Vec<AudioDeviceInfoDto> = Vec::new();
            let ghost first = i@;
            let ghost second = o@;
            for d in it: i
                invariant
                    it.seq() == first,
                    out@ == first.take(it.index() as int).map_values(|d: AudioDeviceInfo| shown(d)),
            {
                assert(first.take(it.index() + 1) =~= first.take(it.index() as int).push(d));
                out.push(AudioDeviceInfoDto::from(d));
            }
            assert(first.take(first.len() as int) =~= first);
            assert(first + second.take(0) =~= first);
            for d in it: o
                invariant
                    it.seq() == second,
                    out@ == (first + second.take(it.index() as int)).map_values(
                        |d: AudioDeviceInfo| shown(d),
                    ),
            {
                assert(second.take(it.index() + 1) =~= second.take(it.index() as int).push(d));
                assert(first + second.take(it.index() + 1) =~= (first + second.take(
                    it.index() as int,
                )).push(d));
                out.push(AudioDeviceInfoDto::from(d));
            }
            assert(second.take(second.len() as int) =~= second);
            Some(out)
        },
        _ => None,
    }
}

// --- Restarts ---

/// What is known of a device.
#[derive(Clone, Copy, Debug, PartialEq, Eq, Structural)]
pub enum DeviceLiveness {
    Alive,
    Dead,
    Absent,
    Unknown,
}

/// Whether a change of the default microphone is ignored: the user picked another one,
/// and that one is known to be alive. Where that is not known, the new default is the
/// safer choice.
pub fn keeps_explicit_mic(bound_is_default: bool, bound_liveness: Option<DeviceLiveness>) -> (r:
    bool)
    ensures
        r == (!bound_is_default && bound_liveness == Some(DeviceLiveness::Alive)),
{
    match bound_liveness {
        Some(DeviceLiveness::Alive) => !bound_is_default,
        _ => false,
    }
}

/// Whether a restart waits one more window for its device: the device is known not to
/// be alive yet. Where nothing is known, the restart itself finds out.
pub fn alive_gate(liveness: Option<DeviceLiveness>) -> (r: bool)
    ensures
        r == (liveness == Some(DeviceLiveness::Dead) || liveness == Some(DeviceLiveness::Absent)),
{
    match liveness {
        Some(DeviceLiveness::Dead) => true,
        Some(DeviceLiveness::Absent) => true,
        _ => false,
    }
}

/// The identifier of a device without the name of the audio system in front, which counts
/// whatever its case.
pub open spec fn without_host(uid: Seq<char>) -> Seq<char> {
    if text::begins(text::lowered(uid), "coreaudio:"@) {
        uid.skip(10)
    } else {
        uid
    }
}

/// Takes the name of the audio system off the front of an identifier.
pub fn strip_cpal_prefix(uid: &str) -> (r: String)
    ensures
        r@ == without_host(uid@),
        text::begins(text::lowered(uid@), "coreaudio:"@) ==> r@ == uid@.skip(10),
        !text::begins(text::lowered(uid@), "coreaudio:"@) ==> r@ == uid@,
{
    proof {
        reveal_strlit("coreaudio:");
    }
    let chars = text::chars_of(uid);
    let lower = text::lower_chars(chars.as_slice());
    if text::begins_with(lower.as_slice(), text::chars_of("coreaudio:").as_slice()) {
        let rest = text::slice_chars(chars.as_slice(), 10, chars.len());
        assert(rest@ =~= uid@.skip(10));
        text::string_of(rest.as_slice())
    } else {
        uid.to_owned()
    }
}

/// Where a restart goes.
#[derive(Clone, Copy, Debug, PartialEq, Eq, Structural)]
pub enum RoutingDecision {
    /// The live loop has taken the request.
    SentThroughInbox,
    /// A live session is ending. A restart now would disturb the positions that its
    /// last flush works with.
    SkipMidStop,
    /// There is nothing to restart.
    SkipNoActiveCapture,
    /// The stream is restarted here.
    DirectRestart,
}

/// Decides where a restart goes.
pub fn decide_routing(intent_sent: bool, live_session_present: bool, capture_active: bool) -> (r:
    RoutingDecision)
    ensures
        r == (if intent_sent {
            RoutingDecision::SentThroughInbox
        } else if live_session_present {
            RoutingDecision::SkipMidStop
        } else if !capture_active {
            RoutingDecision::SkipNoActiveCapture
        } else {
            RoutingDecision::DirectRestart
        }),
{
    if intent_sent {
        return RoutingDecision::SentThroughInbox;
    }
    if live_session_present {
        return RoutingDecision::SkipMidStop;
    }
    if !capture_active {
        return RoutingDecision::SkipNoActiveCapture;
    }
    RoutingDecision::DirectRestart
}

} // verus!
