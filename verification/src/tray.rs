//! The menu of the tray, what its items do, and when the frontend is told of a changed
//! state.

use vstd::prelude::*;

use crate::model::{BufferStatusDto, CaptureStateDto, CaptureStatusDto, RingBufferInfoDto};
use crate::single::{self, Single};
use crate::text;

verus! {

// --- The menu ---

/// One line of a menu.
#[derive(Clone, Copy, Debug)]
pub struct MenuItem {
    pub id: &'static str,
    pub label: &'static str,
    pub enabled: bool,
}

/// One entry of the menu of the tray.
#[derive(Clone, Copy, Debug)]
pub enum TrayEntry {
    Separator,
    Item(MenuItem),
    /// A menu of its own, which holds the items of [`rewind_items`].
    Submenu(MenuItem),
}

/// Whether a session can be started: audio is captured, and none runs.
pub open spec fn can_start(is_capturing: bool, is_recording: bool) -> bool {
    is_capturing && !is_recording
}

/// The line that says what the application does.
pub open spec fn status_item(is_capturing: bool, is_recording: bool) -> MenuItem {
    MenuItem {
        id: "status",
        label: if is_recording {
            "Status: Recording"
        } else if is_capturing {
            "Status: Listening"
        } else {
            "Status: Idle"
        },
        enabled: false,
    }
}

/// The line that starts or stops the capture. It cannot be stopped while a session runs.
pub open spec fn listen_item(is_capturing: bool, is_recording: bool) -> MenuItem {
    if is_capturing {
        MenuItem { id: "stop_capture", label: "Stop Listening", enabled: !is_recording }
    } else {
        MenuItem { id: "start_capture", label: "Start Listening", enabled: true }
    }
}

/// The menu of the tray. A session can be stopped only while one runs.
pub open spec fn tray_menu(is_capturing: bool, is_recording: bool) -> Seq<TrayEntry> {
    let start = can_start(is_capturing, is_recording);
    let head = seq![
        TrayEntry::Item(MenuItem { id: "open", label: "Open YapStack", enabled: true }),
        TrayEntry::Separator,
        TrayEntry::Item(status_item(is_capturing, is_recording)),
        TrayEntry::Item(listen_item(is_capturing, is_recording)),
        TrayEntry::Separator,
        TrayEntry::Item(MenuItem { id: "new_session", label: "New Session", enabled: start }),
        TrayEntry::Submenu(
            MenuItem { id: "backfill_submenu", label: "New Session with Rewind", enabled: start },
        ),
    ];
    let stop = if is_recording {
        seq![
            TrayEntry::Item(MenuItem { id: "stop_session", label: "Stop Session", enabled: true }),
        ]
    } else {
        Seq::empty()
    };
    head + stop + seq![
        TrayEntry::Separator,
        TrayEntry::Item(MenuItem { id: "quit", label: "Quit YapStack", enabled: true }),
    ]
}

/// Builds the menu of the tray.
pub fn build_tray_menu(is_capturing: bool, is_recording: bool) -> (r: Vec<TrayEntry>)
    ensures
        r@ == tray_menu(is_capturing, is_recording),
{
    let start = is_capturing && !is_recording;
    let mut out: Vec<TrayEntry> = Vec::new();
    out.push(TrayEntry::Item(MenuItem { id: "open", label: "Open YapStack", enabled: true }));
    out.push(TrayEntry::Separator);
    let label: &'static str = if is_recording {
        "Status: Recording"
    } else if is_capturing {
        "Status: Listening"
    } else {
        "Status: Idle"
    };
    out.push(TrayEntry::Item(MenuItem { id: "status", label, enabled: false }));
    if is_capturing {
        out.push(
            TrayEntry::Item(
                MenuItem { id: "stop_capture", label: "Stop Listening", enabled: !is_recording },
            ),
        );
    } else {
        out.push(
            TrayEntry::Item(
                MenuItem { id: "start_capture", label: "Start Listening", enabled: true },
            ),
        );
    }
    out.push(TrayEntry::Separator);
    out.push(
        TrayEntry::Item(MenuItem { id: "new_session", label: "New Session", enabled: start }),
    );
    out.push(
        TrayEntry::Submenu(
            MenuItem { id: "backfill_submenu", label: "New Session with Rewind", enabled: start },
        ),
    );
    if is_recording {
        out.push(
            TrayEntry::Item(MenuItem { id: "stop_session", label: "Stop Session", enabled: true }),
        );
    }
    out.push(TrayEntry::Separator);
    out.push(TrayEntry::Item(MenuItem { id: "quit", label: "Quit YapStack", enabled: true }));
    assert(out@ =~= tray_menu(is_capturing, is_recording));
    out
}

/// The lines that start a session with a piece of the past.
pub open spec fn rewind_menu(enabled: bool) -> Seq<MenuItem> {
    seq![
        MenuItem { id: "new_session_bf_30", label: "30 Seconds", enabled },
        MenuItem { id: "new_session_bf_60", label: "1 Minute", enabled },
        MenuItem { id: "new_session_bf_120", label: "2 Minutes", enabled },
        MenuItem { id: "new_session_bf_300", label: "5 Minutes", enabled },
        MenuItem { id: "new_session_bf_all", label: "All Available", enabled },
    ]
}

/// The lines of the submenu, which start a session with a piece of the past: each can be
/// chosen where the submenu can.
pub fn rewind_items(submenu: &MenuItem) -> (r: Vec<MenuItem>)
    ensures
        r@ == rewind_menu(submenu.enabled),
{
    let enabled = submenu.enabled;
    vec![
        MenuItem { id: "new_session_bf_30", label: "30 Seconds", enabled },
        MenuItem { id: "new_session_bf_60", label: "1 Minute", enabled },
        MenuItem { id: "new_session_bf_120", label: "2 Minutes", enabled },
        MenuItem { id: "new_session_bf_300", label: "5 Minutes", enabled },
        MenuItem { id: "new_session_bf_all", label: "All Available", enabled },
    ]
}

/// What an item of the menu does.
#[derive(Clone, Copy, Debug, PartialEq, Eq, Structural)]
pub enum TrayAction {
    StartCapture,
    StopCapture,
    /// Start a session with so many seconds of the past, and show the window.
    NewSession(u32),
    /// Start a session with all that is there of the past, and show the window.
    NewSessionAll,
    StopSession,
    Open,
    Quit,
    Ignore,
}

/// What the item of this name does.
pub open spec fn action_of(id: Seq<char>) -> TrayAction {
    if id == "start_capture"@ {
        TrayAction::StartCapture
    } else if id == "stop_capture"@ {
        TrayAction::StopCapture
    } else if id == "new_session"@ {
        TrayAction::NewSession(0)
    } else if id == "new_session_bf_30"@ {
        TrayAction::NewSession(30)
    } else if id == "new_session_bf_60"@ {
        TrayAction::NewSession(60)
    } else if id == "new_session_bf_120"@ {
        TrayAction::NewSession(120)
    } else if id == "new_session_bf_300"@ {
        TrayAction::NewSession(300)
    } else if id == "new_session_bf_all"@ {
        TrayAction::NewSessionAll
    } else if id == "stop_session"@ {
        TrayAction::StopSession
    } else if id == "open"@ {
        TrayAction::Open
    } else if id == "quit"@ {
        TrayAction::Quit
    } else {
        TrayAction::Ignore
    }
}

/// What the item of this name does.
pub fn tray_action(id: &str) -> (r: TrayAction)
    ensures
        r == action_of(id@),
{
    if text::same_text(id, "start_capture") {
        TrayAction::StartCapture
    } else if text::same_text(id, "stop_capture") {
        TrayAction::StopCapture
    } else if text::same_text(id, "new_session") {
        TrayAction::NewSession(0)
    } else if text::same_text(id, "new_session_bf_30") {
        TrayAction::NewSession(30)
    } else if text::same_text(id, "new_session_bf_60") {
        TrayAction::NewSession(60)
    } else if text::same_text(id, "new_session_bf_120") {
        TrayAction::NewSession(120)
    } else if text::same_text(id, "new_session_bf_300") {
        TrayAction::NewSession(300)
    } else if text::same_text(id, "new_session_bf_all") {
        TrayAction::NewSessionAll
    } else if text::same_text(id, "stop_session") {
        TrayAction::StopSession
    } else if text::same_text(id, "open") {
        TrayAction::Open
    } else if text::same_text(id, "quit") {
        TrayAction::Quit
    } else {
        TrayAction::Ignore
    }
}

/// Whether a line that can be chosen does something, and, while a session runs, neither
/// starts one nor ends the capture.
pub open spec fn sound_line(m: MenuItem, is_recording: bool) -> bool {
    m.enabled ==> {
        let action = action_of(m.id@);
        &&& action !is Ignore
        &&& is_recording ==> action !is NewSession && action !is NewSessionAll && action
            !is StopCapture
    }
}

/// Every line of the menu and of its submenu that can be chosen does something, and none
/// that starts a session or ends the capture can be chosen while a session runs.
pub proof fn law_menu_matches_actions(is_capturing: bool, is_recording: bool, i: int)
    requires
        0 <= i < tray_menu(is_capturing, is_recording).len(),
    ensures
        match tray_menu(is_capturing, is_recording)[i] {
            TrayEntry::Separator => true,
            TrayEntry::Item(m) => sound_line(m, is_recording),
            TrayEntry::Submenu(m) => forall|k: int|
                0 <= k < rewind_menu(m.enabled).len() ==> sound_line(
                    #[trigger] rewind_menu(m.enabled)[k],
                    is_recording,
                ),
        },
{
    reveal_strlit("status");
    reveal_strlit("start_capture");
    reveal_strlit("stop_capture");
    reveal_strlit("new_session");
    reveal_strlit("new_session_bf_30");
    reveal_strlit("new_session_bf_60");
    reveal_strlit("new_session_bf_120");
    reveal_strlit("new_session_bf_300");
    reveal_strlit("new_session_bf_all");
    reveal_strlit("stop_session");
    reveal_strlit("open");
    reveal_strlit("quit");
    assert("stop_session"@[2] == 'o' && "stop_capture"@[5] == 'c' && "stop_session"@[5] == 's');
    assert("open"@.len() == 4 && "quit"@.len() == 4 && "open"@[0] == 'o');
    assert("new_session"@.len() == 11);
}

// --- Telling the frontend ---

/// The whole seconds of a number as they are shown: nothing below zero or for what is no
/// number, at most what thirty-two bits hold.
pub open spec fn shown_seconds(s: Single) -> nat {
    if s.nan() || s.negative() {
        0
    } else if !s.finite() || single::whole((s.mant(), s.exp())) > u32::MAX {
        u32::MAX as nat
    } else {
        single::whole((s.mant(), s.exp()))
    }
}

fn seconds_to_show(s: Single) -> (r: u32)
    ensures
        r == shown_seconds(s),
{
    if s.is_nan() || s.is_negative() {
        return 0;
    }
    if !s.is_finite() {
        return u32::MAX;
    }
    let n: usize = single::whole_part(s.scaled());
    if n as u64 > u32::MAX as u64 {
        u32::MAX
    } else {
        n as u32
    }
}

/// Whether what is shown of a buffer differs. How much was written does not count, and
/// of the fill only the whole seconds do.
pub open spec fn info_differs(a: Option<RingBufferInfoDto>, b: Option<RingBufferInfoDto>) -> bool {
    match (a, b) {
        (Some(x), Some(y)) => shown_seconds(x.available_seconds) != shown_seconds(
            y.available_seconds,
        ) || !x.capacity_seconds.eqv(y.capacity_seconds) || x.sample_rate != y.sample_rate
            || x.channels != y.channels,
        (None, None) => false,
        _ => true,
    }
}

fn info_changed(a: Option<RingBufferInfoDto>, b: Option<RingBufferInfoDto>) -> (r: bool)
    ensures
        r == info_differs(a, b),
{
    match (a, b) {
        (Some(x), Some(y)) => seconds_to_show(x.available_seconds) != seconds_to_show(
            y.available_seconds,
        ) || !x.capacity_seconds.same_number(y.capacity_seconds) || x.sample_rate != y.sample_rate
            || x.channels != y.channels,
        (None, None) => false,
        _ => true,
    }
}

/// Whether what is shown of the two buffers differs.
pub fn buffer_display_changed(prev: &BufferStatusDto, curr: &BufferStatusDto) -> (r: bool)
    ensures
        r == (info_differs(prev.mic, curr.mic) || info_differs(prev.system, curr.system)),
{
    info_changed(prev.mic, curr.mic) || info_changed(prev.system, curr.system)
}

/// Whether two texts are the same, or both missing.
pub open spec fn same_optional(a: Option<String>, b: Option<String>) -> bool {
    match (a, b) {
        (Some(x), Some(y)) => x@ == y@,
        (None, None) => true,
        _ => false,
    }
}

/// Whether two states of the capture are the same.
pub open spec fn same_capture(a: CaptureStatusDto, b: CaptureStatusDto) -> bool {
    a.state == b.state && a.mic_active == b.mic_active && a.system_audio_active
        == b.system_audio_active && same_optional(a.error_message, b.error_message)
}

fn is_same_capture(a: &CaptureStatusDto, b: &CaptureStatusDto) -> (r: bool)
    ensures
        r == same_capture(*a, *b),
{
    let texts = match (&a.error_message, &b.error_message) {
        (Some(x), Some(y)) => text::same_text(x.as_str(), y.as_str()),
        (None, None) => true,
        _ => false,
    };
    a.state == b.state && a.mic_active == b.mic_active && a.system_audio_active
        == b.system_audio_active && texts
}

/// What was last told.
#[derive(Debug)]
pub struct LastTold {
    pub status: Option<CaptureStatusDto>,
    pub buffer: Option<BufferStatusDto>,
    pub capturing: Option<bool>,
    pub recording: Option<bool>,
}

/// What is told now.
#[derive(Clone, Copy, Debug, PartialEq, Eq)]
pub struct Tell {
    pub status: bool,
    pub buffer: bool,
    /// The menu is built anew, for these two.
    pub menu: Option<(bool, bool)>,
}

impl LastTold {
    /// Nothing was told yet.
    pub fn new() -> (r: LastTold)
        ensures
            r.status is None && r.buffer is None && r.capturing is None && r.recording is None,
    {
        LastTold { status: None, buffer: None, capturing: None, recording: None }
    }

    /// What is told of a state: what differs from what was last told.
    pub open spec fn due(&self, status: CaptureStatusDto, buffer: BufferStatusDto, recording: bool) -> Tell {
        let capturing = status.state == CaptureStateDto::Capturing;
        Tell {
            status: match self.status {
                Some(s) => !same_capture(s, status),
                None => true,
            },
            buffer: match self.buffer {
                Some(b) => info_differs(b.mic, buffer.mic) || info_differs(b.system, buffer.system),
                None => true,
            },
            menu: if self.capturing != Some(capturing) || self.recording != Some(recording) {
                Some((capturing, recording))
            } else {
                None
            },
        }
    }

    /// Compares a state with what was last told, and notes what is told now.
    pub fn update(&mut self, status: CaptureStatusDto, buffer: BufferStatusDto, recording: bool) -> (r:
        Tell)
        ensures
            r == old(self).due(status, buffer, recording),
            final(self).status == (if r.status {
                Some(status)
            } else {
                old(self).status
            }),
            final(self).buffer == (if r.buffer {
                Some(buffer)
            } else {
                old(self).buffer
            }),
            final(self).capturing == Some(status.state == CaptureStateDto::Capturing),
            final(self).recording == Some(recording),
    {
        let capturing = status.state == CaptureStateDto::Capturing;
        let tell_status = match &self.status {
            Some(s) => !is_same_capture(s, &status),
            None => true,
        };
        let tell_buffer = match self.buffer {
            Some(b) => buffer_display_changed(&b, &buffer),
            None => true,
        };
        let same_menu = match (self.capturing, self.recording) {
            (Some(c), Some(d)) => c == capturing && d == recording,
            _ => false,
        };
        if tell_status {
            self.status = Some(status);
        }
        if tell_buffer {
            self.buffer = Some(buffer);
        }
        self.capturing = Some(capturing);
        self.recording = Some(recording);
        Tell {
            status: tell_status,
            buffer: tell_buffer,
            menu: if same_menu {
                None
            } else {
                Some((capturing, recording))
            },
        }
    }
}

/// A state that was just told is not told again.
pub proof fn law_told_once(
    status: CaptureStatusDto,
    buffer: BufferStatusDto,
    recording: bool,
    told: LastTold,
)
    requires
        told.status == Some(status),
        told.buffer == Some(buffer),
        told.capturing == Some(status.state == CaptureStateDto::Capturing),
        told.recording == Some(recording),
        buffer.mic matches Some(m) ==> !m.capacity_seconds.nan(),
        buffer.system matches Some(s) ==> !s.capacity_seconds.nan(),
    ensures
        told.due(status, buffer, recording) == (Tell { status: false, buffer: false, menu: None }),
{
}

/// The menu offers what can be done: a line that can be chosen starts or stops listening,
/// starts a session or stops one only where that makes sense, and where it does there is
/// such a line. The application can be opened and left at any time.
pub proof fn law_menu_offers_what_can_be_done(is_capturing: bool, is_recording: bool, i: int)
    requires
        0 <= i < tray_menu(is_capturing, is_recording).len(),
    ensures
        ({
            let menu = tray_menu(is_capturing, is_recording);
            let offers = |action: TrayAction|
                exists|k: int|
                    0 <= k < menu.len() && (#[trigger] menu[k] matches TrayEntry::Item(m)
                        && m.enabled && action_of(m.id@) == action);
            &&& menu[i] matches TrayEntry::Item(m) ==> m.enabled ==> {
                let action = action_of(m.id@);
                &&& action is StartCapture ==> !is_capturing
                &&& action is StopCapture ==> is_capturing && !is_recording
                &&& action is NewSession ==> is_capturing && !is_recording && action
                    == TrayAction::NewSession(0)
                &&& action is StopSession ==> is_recording
            }
            &&& menu[i] matches TrayEntry::Submenu(m) ==> (m.enabled <==> is_capturing
                && !is_recording)
            &&& offers(TrayAction::Open) && offers(TrayAction::Quit)
            &&& !is_capturing ==> offers(TrayAction::StartCapture)
            &&& is_capturing && !is_recording ==> offers(TrayAction::StopCapture) && offers(
                TrayAction::NewSession(0),
            )
            &&& is_recording ==> offers(TrayAction::StopSession)
        }),
{
    reveal_strlit("status");
    reveal_strlit("start_capture");
    reveal_strlit("stop_capture");
    reveal_strlit("new_session");
    reveal_strlit("new_session_bf_30");
    reveal_strlit("new_session_bf_60");
    reveal_strlit("new_session_bf_120");
    reveal_strlit("new_session_bf_300");
    reveal_strlit("new_session_bf_all");
    reveal_strlit("stop_session");
    reveal_strlit("open");
    reveal_strlit("quit");
    assert("stop_session"@[2] == 'o' && "stop_capture"@[5] == 'c' && "stop_session"@[5] == 's');
    assert("open"@.len() == 4 && "quit"@.len() == 4 && "open"@[0] == 'o' && "quit"@[0] == 'q');
    assert("new_session"@.len() == 11);
    let menu = tray_menu(is_capturing, is_recording);
    assert(menu[0] matches TrayEntry::Item(m) && action_of(m.id@) == TrayAction::Open);
    assert(menu[3] matches TrayEntry::Item(m) && (!is_capturing ==> action_of(m.id@)
        == TrayAction::StartCapture) && (is_capturing ==> action_of(m.id@)
        == TrayAction::StopCapture));
    assert(menu[5] matches TrayEntry::Item(m) && action_of(m.id@) == TrayAction::NewSession(0));
    if is_recording {
        assert(menu[7] matches TrayEntry::Item(m) && action_of(m.id@) == TrayAction::StopSession);
    }
    assert(menu[menu.len() - 1] matches TrayEntry::Item(m) && action_of(m.id@)
        == TrayAction::Quit);
}

/// What changed is told: another state, another stream, another error, a buffer that shows
/// another number of seconds or has another format, and a menu that has to look different.
pub proof fn law_change_is_told(
    told: LastTold,
    status: CaptureStatusDto,
    buffer: BufferStatusDto,
    recording: bool,
)
    ensures
        ({
            let t = told.due(status, buffer, recording);
            &&& told.status is None ==> t.status
            &&& told.buffer is None ==> t.buffer
            &&& told.status matches Some(s) ==> (s.state != status.state || s.mic_active
                != status.mic_active || s.system_audio_active != status.system_audio_active || (
            s.error_message is Some) != (status.error_message is Some) ==> t.status)
            &&& told.buffer matches Some(b) ==> ((b.mic is Some) != (buffer.mic is Some) || (
            b.system is Some) != (buffer.system is Some) ==> t.buffer)
            &&& told.buffer matches Some(b) ==> (b.mic matches Some(x) ==> (buffer.mic matches Some(
                y,
            ) ==> (x.sample_rate != y.sample_rate || x.channels != y.channels ==> t.buffer)))
            &&& told.capturing != Some(status.state == CaptureStateDto::Capturing)
                || told.recording != Some(recording) ==> t.menu == Some(
                (status.state == CaptureStateDto::Capturing, recording),
            )
        }),
{
}

} // verus!
