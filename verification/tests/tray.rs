use yapstack::model::{BufferStatusDto, CaptureStateDto, CaptureStatusDto, RingBufferInfoDto};
use yapstack::single::Single;
use yapstack::tray::{
    buffer_display_changed, build_tray_menu, rewind_items, tray_action, LastTold, MenuItem,
    TrayAction, TrayEntry,
};

fn s(x: f32) -> Single {
    Single { bits: x.to_bits() }
}

fn buffer(available: f32) -> BufferStatusDto {
    BufferStatusDto {
        mic: Some(RingBufferInfoDto {
            capacity_samples: 100,
            samples_written: available as usize,
            available_samples: available as usize,
            capacity_seconds: s(60.0),
            available_seconds: s(available),
            sample_rate: 48_000,
            channels: 1,
        }),
        system: None,
    }
}

fn status(state: CaptureStateDto) -> CaptureStatusDto {
    CaptureStatusDto {
        state,
        mic_active: true,
        system_audio_active: false,
        error_message: None,
    }
}

fn ids(menu: &[TrayEntry]) -> Vec<(&'static str, bool)> {
    menu.iter()
        .map(|e| match e {
            TrayEntry::Separator => ("-", false),
            TrayEntry::Item(MenuItem { id, enabled, .. }) => (*id, *enabled),
            TrayEntry::Submenu(MenuItem { id, enabled, .. }) => (*id, *enabled),
        })
        .collect()
}

#[test]
fn the_menu_follows_the_state() {
    assert_eq!(
        ids(&build_tray_menu(false, false)),
        vec![
            ("open", true),
            ("-", false),
            ("status", false),
            ("start_capture", true),
            ("-", false),
            ("new_session", false),
            ("backfill_submenu", false),
            ("-", false),
            ("quit", true),
        ]
    );
    assert_eq!(
        ids(&build_tray_menu(true, true)),
        vec![
            ("open", true),
            ("-", false),
            ("status", false),
            ("stop_capture", false),
            ("-", false),
            ("new_session", false),
            ("backfill_submenu", false),
            ("stop_session", true),
            ("-", false),
            ("quit", true),
        ]
    );
    let listening = build_tray_menu(true, false);
    assert!(ids(&listening).contains(&("new_session", true)));
    assert!(matches!(&listening[2], TrayEntry::Item(m) if m.label == "Status: Listening"));
}

#[test]
fn items_and_what_they_do() {
    let submenu = MenuItem {
        id: "backfill_submenu",
        label: "New Session with Rewind",
        enabled: true,
    };
    let actions: Vec<TrayAction> = rewind_items(&submenu)
        .iter()
        .map(|m| tray_action(m.id))
        .collect();
    assert_eq!(
        actions,
        vec![
            TrayAction::NewSession(30),
            TrayAction::NewSession(60),
            TrayAction::NewSession(120),
            TrayAction::NewSession(300),
            TrayAction::NewSessionAll,
        ]
    );
    assert_eq!(tray_action("new_session"), TrayAction::NewSession(0));
    assert_eq!(tray_action("start_capture"), TrayAction::StartCapture);
    assert_eq!(tray_action("stop_capture"), TrayAction::StopCapture);
    assert_eq!(tray_action("stop_session"), TrayAction::StopSession);
    assert_eq!(tray_action("open"), TrayAction::Open);
    assert_eq!(tray_action("quit"), TrayAction::Quit);
    assert_eq!(tray_action("status"), TrayAction::Ignore);
}

#[test]
fn only_whole_seconds_are_shown() {
    assert!(!buffer_display_changed(&buffer(3.1), &buffer(3.9)));
    assert!(buffer_display_changed(&buffer(3.9), &buffer(4.0)));
    assert!(!buffer_display_changed(&buffer(-1.0), &buffer(0.5)));
    assert!(!buffer_display_changed(&buffer(f32::NAN), &buffer(0.0)));
    assert!(!buffer_display_changed(&buffer(f32::INFINITY), &buffer(5e9)));
    let mut other = buffer(3.1);
    other.mic.as_mut().unwrap().sample_rate = 16_000;
    assert!(buffer_display_changed(&buffer(3.1), &other));
    assert!(buffer_display_changed(
        &buffer(3.1),
        &BufferStatusDto {
            mic: None,
            system: None
        }
    ));
}

#[test]
fn only_changes_are_told() {
    let mut last = LastTold::new();
    let first = last.update(status(CaptureStateDto::Idle), buffer(1.0), false);
    assert!(first.status && first.buffer);
    assert_eq!(first.menu, Some((false, false)));
    let again = last.update(status(CaptureStateDto::Idle), buffer(1.5), false);
    assert!(!again.status && !again.buffer);
    assert_eq!(again.menu, None);
    let recording = last.update(status(CaptureStateDto::Capturing), buffer(2.0), true);
    assert!(recording.status && recording.buffer);
    assert_eq!(recording.menu, Some((true, true)));
}

#[test]
fn no_line_starts_a_second_session() {
    for capturing in [false, true] {
        for entry in build_tray_menu(capturing, true) {
            let lines = match &entry {
                TrayEntry::Separator => Vec::new(),
                TrayEntry::Item(m) => vec![*m],
                TrayEntry::Submenu(m) => rewind_items(m),
            };
            for line in lines.iter().filter(|m| m.enabled) {
                assert!(!matches!(
                    tray_action(line.id),
                    TrayAction::NewSession(_)
                        | TrayAction::NewSessionAll
                        | TrayAction::StopCapture
                        | TrayAction::Ignore
                ));
            }
        }
    }
}
