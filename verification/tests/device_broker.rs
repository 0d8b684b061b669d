use yapstack::device_broker::{
    alive_gate, decide_routing, default_changed_payload, devices_payload, flush,
    keeps_explicit_mic, looks_up_input, strip_cpal_prefix, Broker, BrokerAction, BrokerInput,
    CollapsedEvents, DefaultDeviceKindDto, DeviceEvent, DeviceLiveness, RoutingDecision,
};
use yapstack::model::{AudioDeviceInfo, DeviceType, DeviceTypeDto};

fn device(name: &str, device_type: DeviceType) -> AudioDeviceInfo {
    AudioDeviceInfo {
        id: Some(format!("coreaudio:{name}")),
        name: name.to_string(),
        device_type,
        is_default: false,
    }
}

#[test]
fn collapsed_events_default_all_false() {
    let s = CollapsedEvents::default();
    assert!(!s.device_list);
    assert!(!s.default_input);
    assert!(!s.default_output);
    assert!(!s.default_system_output);
}

#[test]
fn collapsed_events_merge_sets_each_kind() {
    let mut s = CollapsedEvents::default();
    s.merge(DeviceEvent::DeviceListChanged);
    s.merge(DeviceEvent::DefaultInputChanged);
    s.merge(DeviceEvent::DefaultOutputChanged);
    s.merge(DeviceEvent::DefaultSystemOutputChanged);
    assert!(s.device_list);
    assert!(s.default_input);
    assert!(s.default_output);
    assert!(s.default_system_output);
}

#[test]
fn collapsed_events_merge_is_idempotent_per_kind() {
    let mut s = CollapsedEvents::default();
    s.merge(DeviceEvent::DefaultInputChanged);
    s.merge(DeviceEvent::DefaultInputChanged);
    s.merge(DeviceEvent::DefaultInputChanged);
    assert!(s.default_input);
    assert!(!s.default_output);
    assert!(!s.default_system_output);
    assert!(!s.device_list);
}

#[test]
fn collapsed_events_merge_preserves_independent_kinds() {
    let mut s = CollapsedEvents::default();
    s.merge(DeviceEvent::DefaultOutputChanged);
    s.merge(DeviceEvent::DeviceListChanged);
    assert!(s.default_output);
    assert!(s.device_list);
    assert!(!s.default_input);
    assert!(!s.default_system_output);
}

#[test]
fn strip_cpal_prefix_removes_lowercase_prefix() {
    assert_eq!(strip_cpal_prefix("coreaudio:BuiltInMic"), "BuiltInMic");
    assert_eq!(
        strip_cpal_prefix("coreaudio:com.apple.audio.SystemMicrophone"),
        "com.apple.audio.SystemMicrophone"
    );
}

#[test]
fn strip_cpal_prefix_falls_back_on_camelcase() {
    assert_eq!(strip_cpal_prefix("CoreAudio:BuiltInMic"), "BuiltInMic");
}

#[test]
fn strip_cpal_prefix_counts_whatever_its_case() {
    assert_eq!(strip_cpal_prefix("COREAUDIO:BuiltInMic"), "BuiltInMic");
    assert_eq!(strip_cpal_prefix("cOrEaUdIo:CoreAudio:x"), "CoreAudio:x");
    assert_eq!(strip_cpal_prefix("COREAUDIO"), "COREAUDIO");
}

#[test]
fn strip_cpal_prefix_leaves_other_strings_alone() {
    assert_eq!(strip_cpal_prefix("BuiltInMic"), "BuiltInMic");
    assert_eq!(strip_cpal_prefix(""), "");
    assert_eq!(strip_cpal_prefix("wasapi:something"), "wasapi:something");
}

#[test]
fn decide_routing_sends_through_inbox_when_intent_queued() {
    assert_eq!(
        decide_routing(true, true, true),
        RoutingDecision::SentThroughInbox
    );
    assert_eq!(
        decide_routing(true, false, false),
        RoutingDecision::SentThroughInbox
    );
}

#[test]
fn decide_routing_skips_when_live_session_in_teardown() {
    assert_eq!(
        decide_routing(false, true, true),
        RoutingDecision::SkipMidStop
    );
    assert_eq!(
        decide_routing(false, true, false),
        RoutingDecision::SkipMidStop
    );
}

#[test]
fn decide_routing_skips_when_no_active_capture() {
    assert_eq!(
        decide_routing(false, false, false),
        RoutingDecision::SkipNoActiveCapture
    );
}

#[test]
fn decide_routing_direct_restart_when_idle_capture_active() {
    assert_eq!(
        decide_routing(false, false, true),
        RoutingDecision::DirectRestart
    );
}

#[test]
fn a_burst_becomes_one_flush() {
    let mut broker = Broker::new();
    assert_eq!(
        broker.step(BrokerInput::ShutdownSignal(false)),
        BrokerAction::Wait
    );
    assert_eq!(
        broker.step(BrokerInput::Event(DeviceEvent::DeviceListChanged)),
        BrokerAction::OpenWindow
    );
    assert_eq!(
        broker.step(BrokerInput::Event(DeviceEvent::DefaultOutputChanged)),
        BrokerAction::Wait
    );
    assert_eq!(
        broker.step(BrokerInput::ShutdownSignal(true)),
        BrokerAction::Wait
    );
    let flushed = broker.step(BrokerInput::WindowElapsed);
    assert_eq!(
        flushed,
        BrokerAction::Flush(CollapsedEvents {
            device_list: true,
            default_input: false,
            default_output: true,
            default_system_output: false,
        })
    );
    assert_eq!(
        broker.step(BrokerInput::ShutdownSignal(true)),
        BrokerAction::Exit { unsubscribe: true }
    );
}

#[test]
fn a_channel_that_closes_inside_a_window_is_flushed_first() {
    let mut broker = Broker::new();
    broker.step(BrokerInput::Event(DeviceEvent::DefaultInputChanged));
    assert!(matches!(
        broker.step(BrokerInput::ChannelClosed),
        BrokerAction::Flush(s) if s.default_input
    ));
    assert_eq!(
        broker.step(BrokerInput::ChannelClosed),
        BrokerAction::Exit { unsubscribe: false }
    );
}

#[test]
fn the_two_output_routes_share_one_restart() {
    let plan = flush(CollapsedEvents {
        device_list: false,
        default_input: false,
        default_output: true,
        default_system_output: true,
    });
    assert!(plan.devices_changed);
    assert_eq!(
        plan.defaults,
        vec![
            DefaultDeviceKindDto::Output,
            DefaultDeviceKindDto::SystemOutput
        ]
    );
    assert!(!plan.restart_mic);
    assert!(plan.restart_system);
    let nothing = flush(CollapsedEvents::default());
    assert!(!nothing.devices_changed && nothing.defaults.is_empty());
}

#[test]
fn a_picked_microphone_is_kept_only_while_it_is_alive() {
    assert!(keeps_explicit_mic(false, Some(DeviceLiveness::Alive)));
    assert!(!keeps_explicit_mic(false, Some(DeviceLiveness::Unknown)));
    assert!(!keeps_explicit_mic(false, None));
    assert!(!keeps_explicit_mic(true, Some(DeviceLiveness::Alive)));
    assert!(alive_gate(Some(DeviceLiveness::Dead)));
    assert!(alive_gate(Some(DeviceLiveness::Absent)));
    assert!(!alive_gate(Some(DeviceLiveness::Unknown)));
    assert!(!alive_gate(None));
}

#[test]
fn notices_for_the_frontend() {
    assert!(looks_up_input(DefaultDeviceKindDto::Input));
    assert!(!looks_up_input(DefaultDeviceKindDto::SystemOutput));
    let p = default_changed_payload(
        DefaultDeviceKindDto::Input,
        Some(device("Mic", DeviceType::Input)),
    );
    assert_eq!(p.device_id.as_deref(), Some("coreaudio:Mic"));
    assert_eq!(p.device_name.as_deref(), Some("Mic"));
    let p = default_changed_payload(DefaultDeviceKindDto::Output, None);
    assert!(p.device_id.is_none() && p.device_name.is_none());

    let list = devices_payload(
        Some(vec![device("Mic", DeviceType::Input)]),
        Some(vec![device("Speakers", DeviceType::Output)]),
    )
    .unwrap();
    assert_eq!(list.len(), 2);
    assert_eq!(list[0].name, "Mic");
    assert_eq!(list[1].device_type, DeviceTypeDto::Output);
    assert!(devices_payload(None, Some(vec![])).is_none());
}
