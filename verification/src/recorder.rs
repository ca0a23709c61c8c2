//! The control of a running recording: the tray and the status pill, the clock
//! that ticks once a second, and what each of them does.
use vstd::prelude::*;
use crate::error::owned;
use crate::record::RecordingState;
use crate::text;
use crate::tray::TrayCmd;

verus! {

/// How the control of a recording stands.
#[derive(Clone, Copy, PartialEq, Eq, Structural, Debug)]
pub struct Recorder {
    /// The recording, until it is stopped.
    pub recording: Option<RecordingState>,
    pub has_audio: bool,
    pub can_control: bool,
    /// The recorded time when the clock last ticked.
    pub elapsed_s: u64,
    pub stopping: bool,
    /// Whether there is a tray icon.
    pub tray: bool,
    /// Whether the status pill is open.
    pub pill: bool,
}

/// What is to be done after an event.
#[derive(Clone, Copy, PartialEq, Eq, Structural, Debug)]
pub enum RecorderAction {
    Nothing,
    TogglePause,
    ToggleMute,
    Stop,
    /// Raise the pill, or open it.
    ShowPill,
    Hide,
}

/// What a tick of the clock leads to.
#[derive(Clone, Copy, PartialEq, Eq, Structural, Debug)]
pub enum Tick {
    /// The clock stops.
    Over,
    /// The recording is long enough: stop it, and the clock.
    Stop,
    /// The encoder ended by itself: say so and quit.
    Exited,
    /// Show the new time.
    Repaint,
}

/// What becomes of the pill when it is put out of sight.
#[derive(Clone, Copy, PartialEq, Eq, Structural, Debug)]
pub enum Hidden {
    /// It is closed; the tray opens it again.
    Closed,
    /// It is minimized, since nothing else could stop the recording.
    Minimized,
}

/// Why a command to a recording failed, if it did.
pub open spec fn command_failure(state: RecordingState, sent: Result<(), String>) -> Option<
    Seq<char>,
> {
    if !state.controllable {
        Some("screen recording failed: "@ + "recording is not controllable"@)
    } else {
        match sent {
            Ok(_) => None,
            Err(e) => Some("screen recording failed: "@ + ("controller command failed: "@ + e@)),
        }
    }
}

/// The warning about a failed command.
pub open spec fn warning_text(what: Seq<char>, failure: Option<Seq<char>>) -> Option<Seq<char>> {
    match failure {
        Some(m) => Some(what + " failed: "@ + m),
        None => None,
    }
}

pub open spec fn maybe_text(s: Option<String>) -> Option<Seq<char>> {
    match s {
        Some(t) => Some(t@),
        None => None,
    }
}

impl Recorder {
    /// A recording without an end is over; a running one is well-formed, and
    /// its clock does not run ahead of `now`.
    pub open spec fn wf(self, now: int) -> bool {
        &&& self.recording is None <==> self.stopping
        &&& self.stopping ==> !self.tray
        &&& self.recording matches Some(rec) ==> rec.wf() && rec.segment_start <= now
            && rec.controllable == self.can_control
    }

    pub open spec fn started(recording: RecordingState, has_audio: bool, tray: bool) -> Recorder {
        Recorder {
            recording: Some(recording),
            has_audio,
            can_control: recording.controllable,
            elapsed_s: 0,
            stopping: false,
            tray,
            pill: false,
        }
    }

    /// The control of a recording that has begun. Where there is no tray, the
    /// pill is to be shown at once.
    pub fn new(recording: RecordingState, has_audio: bool, tray: bool) -> (r: (
        Recorder,
        RecorderAction,
    ))
        ensures
            r.0 == Recorder::started(recording, has_audio, tray),
            r.1 == (if tray {
                RecorderAction::Nothing
            } else {
                RecorderAction::ShowPill
            }),
    {
        let ctrl = Recorder {
            recording: Some(recording),
            has_audio,
            can_control: recording.can_control(),
            elapsed_s: 0,
            stopping: false,
            tray,
            pill: false,
        };
        if tray {
            (ctrl, RecorderAction::Nothing)
        } else {
            (ctrl, RecorderAction::ShowPill)
        }
    }

    /// What the tray asked for.
    pub fn tray_command(&self, cmd: TrayCmd) -> (r: RecorderAction)
        ensures
            r == tray_action(cmd),
    {
        match cmd {
            TrayCmd::TogglePause => RecorderAction::TogglePause,
            TrayCmd::Stop => RecorderAction::Stop,
            TrayCmd::Show => RecorderAction::ShowPill,
        }
    }

    pub open spec fn pausing(self) -> bool {
        self.recording matches Some(rec) && rec.paused
    }

    pub open spec fn muting(self) -> bool {
        self.recording matches Some(rec) && rec.muted
    }

    pub fn is_paused(&self) -> (r: bool)
        ensures
            r == self.pausing(),
    {
        match self.recording {
            Some(rec) => rec.is_paused(),
            None => false,
        }
    }

    pub fn is_muted(&self) -> (r: bool)
        ensures
            r == self.muting(),
    {
        match self.recording {
            Some(rec) => rec.is_muted(),
            None => false,
        }
    }

    /// After a second: the new time, unless the recording is over or has
    /// reached its limit.
    pub open spec fn ticked(self, now: int, limit: Option<u64>, running: bool) -> (Recorder, Tick) {
        if self.stopping {
            (self, Tick::Over)
        } else if limit matches Some(n) && self.elapsed_s >= n {
            (self, Tick::Stop)
        } else {
            match self.recording {
                Some(rec) => (
                    Recorder { elapsed_s: (rec.elapsed_at(now) / 1_000_000_000) as u64, ..self },
                    if running {
                        Tick::Repaint
                    } else {
                        Tick::Exited
                    },
                ),
                None => (self, Tick::Repaint),
            }
        }
    }

    /// A second has passed: `limit` is the length at which to stop, and
    /// `running` whether the encoder still runs.
    pub fn tick(&mut self, now: i64, limit: Option<u64>, running: bool) -> (r: Tick)
        requires
            old(self).wf(now as int),
        ensures
            (*final(self), r) == old(self).ticked(now as int, limit, running),
            final(self).wf(now as int),
    {
        if self.stopping {
            return Tick::Over;
        }
        if let Some(n) = limit {
            if self.elapsed_s >= n {
                return Tick::Stop;
            }
        }
        match self.recording {
            Some(rec) => {
                let e: i64 = rec.elapsed(now);
                self.elapsed_s = (e / 1_000_000_000) as u64;
                if running {
                    Tick::Repaint
                } else {
                    Tick::Exited
                }
            },
            None => Tick::Repaint,
        }
    }

    /// Open the pill, or raise it where it is open: whether one has to be
    /// opened, where `raised` says whether the open one could be raised.
    pub fn show_pill(&mut self, raised: bool) -> (r: bool)
        ensures
            r == !(old(self).pill && raised),
            *final(self) == (if r {
                Recorder { pill: false, ..*old(self) }
            } else {
                *old(self)
            }),
    {
        if self.pill {
            if raised {
                return false;
            }
            self.pill = false;
        }
        true
    }

    /// A pill was to be opened.
    pub fn pill_opened(&mut self, opened: bool)
        ensures
            *final(self) == (Recorder { pill: old(self).pill || opened, ..*old(self) }),
    {
        if opened {
            self.pill = true;
        }
    }

    /// What closing the pill does to the recording.
    pub open spec fn close_action(self) -> RecorderAction {
        if self.tray && !self.stopping {
            RecorderAction::Nothing
        } else {
            RecorderAction::Stop
        }
    }

    /// The pill's window is asked to close. With a tray it does, and the
    /// recording goes on; without one it is the only control, so that closing
    /// it stops the recording, and it stays until the file is written.
    pub fn pill_should_close(&mut self) -> (r: RecorderAction)
        ensures
            r == old(self).close_action(),
            *final(self) == (if r == RecorderAction::Nothing {
                Recorder { pill: false, ..*old(self) }
            } else {
                *old(self)
            }),
    {
        if self.tray && !self.stopping {
            self.pill = false;
            RecorderAction::Nothing
        } else {
            RecorderAction::Stop
        }
    }

    /// After the pause command was sent.
    pub open spec fn pause_toggled(self, sent: Result<(), String>, now: i64) -> Recorder {
        match self.recording {
            Some(rec) => if command_failure(rec, sent) is None {
                Recorder { recording: Some(rec.toggled(now)), ..self }
            } else {
                self
            },
            None => self,
        }
    }

    /// Pause or resume, once the command was sent; a warning where it failed.
    pub fn toggle_pause(&mut self, sent: Result<(), String>, now: i64) -> (r: Option<String>)
        requires
            old(self).wf(now as int),
        ensures
            *final(self) == old(self).pause_toggled(sent, now),
            final(self).wf(now as int),
            maybe_text(r) == (match old(self).recording {
                Some(rec) => warning_text("pause"@, command_failure(rec, sent)),
                None => None,
            }),
    {
        match self.recording {
            Some(mut rec) => {
                let done = rec.toggle_pause(sent, now);
                self.recording = Some(rec);
                match done {
                    Ok(()) => None,
                    Err(e) => {
                        let mut out = owned("pause failed: ");
                        out.append(e.message().as_str());
                        proof {
                            reveal_strlit("pause");
                            reveal_strlit(" failed: ");
                            reveal_strlit("pause failed: ");
                        }
                        assert("pause failed: "@ =~= "pause"@ + " failed: "@);
                        Some(out)
                    },
                }
            },
            None => None,
        }
    }

    /// After the mute command was sent.
    pub open spec fn mute_toggled(self, sent: Result<(), String>) -> Recorder {
        match self.recording {
            Some(rec) => if command_failure(rec, sent) is None {
                Recorder {
                    recording: Some(RecordingState { muted: !rec.muted, ..rec }),
                    ..self
                }
            } else {
                self
            },
            None => self,
        }
    }

    /// Mute or unmute, once the command was sent; a warning where it failed.
    pub fn toggle_mute(&mut self, sent: Result<(), String>) -> (r: Option<String>)
        ensures
            *final(self) == old(self).mute_toggled(sent),
            maybe_text(r) == (match old(self).recording {
                Some(rec) => warning_text("mute"@, command_failure(rec, sent)),
                None => None,
            }),
    {
        match self.recording {
            Some(mut rec) => {
                let target = !rec.is_muted();
                let done = rec.set_muted(target, sent);
                self.recording = Some(rec);
                match done {
                    Ok(()) => None,
                    Err(e) => {
                        let mut out = owned("mute failed: ");
                        out.append(e.message().as_str());
                        proof {
                            reveal_strlit("mute");
                            reveal_strlit(" failed: ");
                            reveal_strlit("mute failed: ");
                        }
                        assert("mute failed: "@ =~= "mute"@ + " failed: "@);
                        Some(out)
                    },
                }
            },
            None => None,
        }
    }

    /// After a stop: the recording is given up to be finished, and the tray
    /// icon goes.
    pub open spec fn stopped(self) -> Recorder {
        if self.recording is Some {
            Recorder { recording: None, tray: false, stopping: true, ..self }
        } else {
            self
        }
    }

    /// Stop: the recording that is to be finished, unless it is already.
    pub fn stop(&mut self) -> (r: Option<RecordingState>)
        ensures
            r == old(self).recording,
            *final(self) == old(self).stopped(),
    {
        match self.recording {
            Some(rec) => {
                self.recording = None;
                self.tray = false;
                self.stopping = true;
                Some(rec)
            },
            None => None,
        }
    }

    /// Put the pill out of sight.
    pub fn hide_pill(&mut self) -> (r: Hidden)
        ensures
            r == (if old(self).tray {
                Hidden::Closed
            } else {
                Hidden::Minimized
            }),
            *final(self) == (if old(self).tray {
                Recorder { pill: false, ..*old(self) }
            } else {
                *old(self)
            }),
    {
        if self.tray {
            self.pill = false;
            Hidden::Closed
        } else {
            Hidden::Minimized
        }
    }

    /// What a key does in the pill.
    pub fn key_down(&self, key: &str) -> (r: RecorderAction)
        ensures
            r == key_action(key@),
    {
        if text::same_text(key, "escape") || text::same_text(key, "enter") {
            RecorderAction::Stop
        } else if text::same_text(key, "space") {
            RecorderAction::TogglePause
        } else if text::same_text(key, "m") {
            RecorderAction::ToggleMute
        } else if text::same_text(key, "h") {
            RecorderAction::Hide
        } else {
            RecorderAction::Nothing
        }
    }
}

/// What a command of the tray does.
pub open spec fn tray_action(cmd: TrayCmd) -> RecorderAction {
    match cmd {
        TrayCmd::TogglePause => RecorderAction::TogglePause,
        TrayCmd::Stop => RecorderAction::Stop,
        TrayCmd::Show => RecorderAction::ShowPill,
    }
}

/// The tray's commands pause, stop and show the controls; closing the controls
/// stops the recording if and only if there is no tray left to do so.
pub proof fn law_recording_can_always_be_stopped(r: Recorder)
    ensures
        tray_action(TrayCmd::TogglePause) == RecorderAction::TogglePause,
        tray_action(TrayCmd::Stop) == RecorderAction::Stop,
        tray_action(TrayCmd::Show) == RecorderAction::ShowPill,
        !r.tray ==> r.close_action() == RecorderAction::Stop,
        r.tray && !r.stopping ==> r.close_action() == RecorderAction::Nothing,
{
}

/// The pill shows the recorded time and what its buttons would do: a paused
/// recording can be resumed and a running one paused, if it can be controlled;
/// a microphone that is recorded can be muted.
pub proof fn law_pill_shows_the_recording(p: PillLabels, r: Recorder)
    requires
        shows(p, r),
    ensures
        !r.stopping ==> p.time@ == clock_text(r.elapsed_s as nat),
        p.pause is Some == r.can_control,
        p.mute is Some == (r.can_control && r.has_audio),
        r.can_control ==> (p.pause->0@ == "\u{25b6} Resume"@ <==> r.pausing()),
        r.can_control && r.has_audio ==> (p.mute->0@ == "\u{1f3a4} Muted"@ <==> r.muting()),
        p.stop@ == "\u{25a0} Stop"@ <==> !r.stopping,
{
    reveal_strlit("\u{25b6} Resume");
    reveal_strlit("\u{23f8} Pause");
    reveal_strlit("\u{1f3a4} Muted");
    reveal_strlit("\u{1f3a4} On");
    reveal_strlit("\u{25a0} Stop");
    reveal_strlit("Saving\u{2026}");
    assert("\u{25b6} Resume"@.len() == 8 && "\u{23f8} Pause"@.len() == 7);
    assert("\u{1f3a4} Muted"@.len() == 7 && "\u{1f3a4} On"@.len() == 4);
    assert("\u{25a0} Stop"@.len() == 6 && "Saving\u{2026}"@.len() == 7);
}

/// What a key does.
pub open spec fn key_action(key: Seq<char>) -> RecorderAction {
    if key == "escape"@ || key == "enter"@ {
        RecorderAction::Stop
    } else if key == "space"@ {
        RecorderAction::TogglePause
    } else if key == "m"@ {
        RecorderAction::ToggleMute
    } else if key == "h"@ {
        RecorderAction::Hide
    } else {
        RecorderAction::Nothing
    }
}

/// Escape and Enter stop, the space bar pauses or resumes, M mutes or unmutes
/// and H hides. No other key does anything.
pub proof fn law_keys_of_the_pill(key: Seq<char>)
    ensures
        key_action("escape"@) == RecorderAction::Stop,
        key_action("enter"@) == RecorderAction::Stop,
        key_action("space"@) == RecorderAction::TogglePause,
        key_action("m"@) == RecorderAction::ToggleMute,
        key_action("h"@) == RecorderAction::Hide,
        key_action(key) != RecorderAction::Nothing ==> key == "escape"@ || key == "enter"@ || key
            == "space"@ || key == "m"@ || key == "h"@,
{
    reveal_strlit("escape");
    reveal_strlit("enter");
    reveal_strlit("space");
    reveal_strlit("m");
    reveal_strlit("h");
    assert("escape"@.len() == 6 && "enter"@.len() == 5 && "space"@.len() == 5 && "m"@.len() == 1
        && "h"@.len() == 1);
    assert("enter"@[0] == 'e' && "space"@[0] == 's' && "m"@[0] == 'm' && "h"@[0] == 'h');
}

/// A command that was delivered pauses a running recording and resumes a paused
/// one; the recorded time stands still while it is paused and goes on from
/// there. Muting changes nothing but whether it is muted.
pub proof fn law_delivered_commands_take_effect(
    r: Recorder,
    rec: RecordingState,
    sent: Result<(), String>,
    now: i64,
    later: int,
)
    requires
        r.recording == Some(rec),
        rec.controllable,
        sent is Ok,
        rec.wf(),
        rec.segment_start <= now <= later,
    ensures
        r.pause_toggled(sent, now).pausing() == !r.pausing(),
        r.pause_toggled(sent, now).muting() == r.muting(),
        r.pause_toggled(sent, now).recording->0.elapsed_at(now as int) == rec.elapsed_at(
            now as int,
        ),
        rec.paused ==> r.pause_toggled(sent, now).recording->0.elapsed_at(later) == rec.elapsed_at(
            now as int,
        ) + (later - now),
        !rec.paused ==> r.pause_toggled(sent, now).recording->0.elapsed_at(later)
            == rec.elapsed_at(now as int),
        r.mute_toggled(sent).muting() == !r.muting(),
        r.mute_toggled(sent).pausing() == r.pausing(),
        r.mute_toggled(sent).recording->0.elapsed_at(later) == rec.elapsed_at(later),
{
}

/// The clock of a recording shows the whole seconds that were recorded. It asks
/// for a stop once it has shown as many as were allowed, and tells when the
/// encoder has ended.
pub proof fn law_ticks_count_recorded_seconds(
    r: Recorder,
    rec: RecordingState,
    now: int,
    limit: Option<u64>,
    running: bool,
)
    requires
        r.recording == Some(rec),
        !r.stopping,
        rec.wf(),
        rec.segment_start <= now <= i64::MAX,
    ensures
        limit matches Some(n) && r.elapsed_s >= n ==> r.ticked(now, limit, running).1 == Tick::Stop,
        !(limit matches Some(n) && r.elapsed_s >= n) ==> ({
            let (next, t) = r.ticked(now, limit, running);
            &&& t == (if running {
                Tick::Repaint
            } else {
                Tick::Exited
            })
            &&& next.elapsed_s * 1_000_000_000 <= rec.elapsed_at(now) < (next.elapsed_s + 1)
                * 1_000_000_000
            &&& next.recording == r.recording
        }),
{
}

/// Time is shown as hours, minutes and seconds of two digits each.
pub proof fn law_clock_shows_hours_minutes_seconds(h: nat, m: nat, s: nat)
    requires
        m < 60,
        s < 60,
    ensures
        clock_text((h * 60 + m) * 60 + s) == text::zero_pad(text::decimal(h), 2) + seq![':']
            + text::zero_pad(text::decimal(m), 2) + seq![':'] + text::zero_pad(text::decimal(s), 2),
{
    let t = (h * 60 + m) * 60 + s;
    assert(t / 3600 == h && (t % 3600) / 60 == m && t % 60 == s);
}

/// A recording is finished once: after a stop there is none to stop, pause or
/// mute, and the clock ends.
pub proof fn law_stop_is_final(
    r: Recorder,
    sent: Result<(), String>,
    now: i64,
    limit: Option<u64>,
    running: bool,
)
    requires
        r.wf(now as int),
    ensures
        r.stopped().recording is None,
        r.stopped().stopped() == r.stopped(),
        r.stopped().pause_toggled(sent, now) == r.stopped(),
        r.stopped().mute_toggled(sent) == r.stopped(),
        r.stopped().ticked(now as int, limit, running) == (r.stopped(), Tick::Over),
        r.stopped().wf(now as int),
{
}

/// A command that fails leaves the recording as it was.
pub proof fn law_failed_command_changes_nothing(
    r: Recorder,
    rec: RecordingState,
    sent: Result<(), String>,
    now: i64,
)
    requires
        r.recording == Some(rec),
        !rec.controllable || sent is Err,
    ensures
        r.pause_toggled(sent, now) == r,
        r.mute_toggled(sent) == r,
{
}

/// Muting twice gives back the sound.
pub proof fn law_mute_twice_is_nothing(r: Recorder, sent: Result<(), String>)
    ensures
        r.mute_toggled(sent).mute_toggled(sent) == r,
{
}

// ---- the pill ----

/// Hours, minutes and seconds, with two digits each.
pub open spec fn clock_text(s: nat) -> Seq<char> {
    text::zero_pad(text::decimal(s / 3600), 2) + seq![':'] + text::zero_pad(
        text::decimal((s % 3600) / 60),
        2,
    ) + seq![':'] + text::zero_pad(text::decimal(s % 60), 2)
}

/// What the pill shows.
#[derive(Debug)]
pub struct PillLabels {
    pub time: String,
    /// The mute button, of a recording with sound that takes commands.
    pub mute: Option<&'static str>,
    /// The pause button, of a recording that takes commands.
    pub pause: Option<&'static str>,
    pub stop: &'static str,
}

pub open spec fn maybe_label(s: Option<&'static str>) -> Option<Seq<char>> {
    match s {
        Some(t) => Some(t@),
        None => None,
    }
}

/// The pill of `r` shows `p`.
pub open spec fn shows(p: PillLabels, r: Recorder) -> bool {
    &&& p.time@ == (if r.stopping {
        "Saving\u{2026}"@
    } else {
        clock_text(r.elapsed_s as nat)
    })
    &&& maybe_label(p.mute) == (if !(r.has_audio && r.can_control) {
        None
    } else if r.muting() {
        Some("\u{1f3a4} Muted"@)
    } else {
        Some("\u{1f3a4} On"@)
    })
    &&& maybe_label(p.pause) == (if !r.can_control {
        None
    } else if r.pausing() {
        Some("\u{25b6} Resume"@)
    } else {
        Some("\u{23f8} Pause"@)
    })
    &&& p.stop@ == (if r.stopping {
        "Saving\u{2026}"@
    } else {
        "\u{25a0} Stop"@
    })
}

fn clock(s: u64) -> (r: String)
    ensures
        r@ == clock_text(s as nat),
{
    let mut out = text::padded_chars(s / 3600, 2);
    out.push(':');
    let m = text::padded_chars((s % 3600) / 60, 2);
    text::append_chars(&mut out, m.as_slice());
    out.push(':');
    let d = text::padded_chars(s % 60, 2);
    text::append_chars(&mut out, d.as_slice());
    assert(out@ =~= clock_text(s as nat));
    text::from_chars(out.as_slice())
}

/// What the pill shows.
pub fn pill_labels(r: &Recorder) -> (p: PillLabels)
    ensures
        shows(p, *r),
{
    let time = if r.stopping {
        owned("Saving\u{2026}")
    } else {
        clock(r.elapsed_s)
    };
    let mute = if !(r.has_audio && r.can_control) {
        None
    } else if r.is_muted() {
        Some("\u{1f3a4} Muted")
    } else {
        Some("\u{1f3a4} On")
    };
    let pause = if !r.can_control {
        None
    } else if r.is_paused() {
        Some("\u{25b6} Resume")
    } else {
        Some("\u{23f8} Pause")
    };
    let stop = if r.stopping {
        "Saving\u{2026}"
    } else {
        "\u{25a0} Stop"
    };
    PillLabels { time, mute, pause, stop }
}

// ---- scripted runs ----

/// The ticks at which a scripted run pauses and resumes, written `A,B`.
pub open spec fn pause_script(s: Seq<char>) -> Option<(nat, nat)> {
    match text::split_once(s, ","@) {
        Some((a, b)) => match (text::parse_u64(a), text::parse_u64(b)) {
            (Some(x), Some(y)) => Some((x, y)),
            _ => None,
        },
        None => None,
    }
}

/// Reads the ticks at which a scripted run pauses and resumes.
pub fn read_pause_script(s: &str) -> (r: Option<(u64, u64)>)
    ensures
        match r {
            Some((a, b)) => pause_script(s@) == Some((a as nat, b as nat)),
            None => pause_script(s@) is None,
        },
{
    let chars = text::to_chars(s);
    let comma = text::to_chars(",");
    match text::split_at_first(chars.as_slice(), comma.as_slice()) {
        Some((a, b)) => match (text::read_u64(a.as_slice()), text::read_u64(b.as_slice())) {
            (Some(x), Some(y)) => Some((x, y)),
            _ => None,
        },
        None => None,
    }
}

/// Reads the length, in seconds, at which a scripted run stops.
pub fn read_stop_script(s: &str) -> (r: Option<u64>)
    ensures
        match r {
            Some(v) => text::parse_u64(s@) == Some(v as nat),
            None => text::parse_u64(s@) is None,
        },
{
    let chars = text::to_chars(s);
    text::read_u64(chars.as_slice())
}

/// Whether a scripted run pauses or resumes at a tick.
pub fn script_toggles(script: Option<(u64, u64)>, ticks: u64) -> (r: bool)
    ensures
        r == (script matches Some((a, b)) && (ticks == a || ticks == b)),
{
    match script {
        Some((a, b)) => ticks == a || ticks == b,
        None => false,
    }
}

} // verus!
