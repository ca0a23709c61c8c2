//! The tray icon that stands for a running recording, and its menu.
use vstd::prelude::*;

verus! {

/// What the tray asks of the recorder.
#[derive(Clone, Copy, PartialEq, Eq, Structural, Debug)]
pub enum TrayCmd {
    TogglePause,
    Stop,
    Show,
}

/// What the icon shows.
#[derive(Clone, Copy, PartialEq, Eq, Structural, Debug)]
pub struct RecordTray {
    pub paused: bool,
    pub can_control: bool,
}

/// One line of the menu.
#[derive(Debug)]
pub enum TrayItem {
    Entry { label: &'static str, icon: &'static str, cmd: TrayCmd },
    Separator,
}

/// What a line of the menu is: its label, its icon and its command; `None` for
/// a separator.
pub open spec fn item_view(item: TrayItem) -> Option<(Seq<char>, Seq<char>, TrayCmd)> {
    match item {
        TrayItem::Entry { label, icon, cmd } => Some((label@, icon@, cmd)),
        TrayItem::Separator => None,
    }
}

pub open spec fn item_views(items: Seq<TrayItem>) -> Seq<Option<(Seq<char>, Seq<char>, TrayCmd)>> {
    items.map_values(|item: TrayItem| item_view(item))
}

impl RecordTray {
    /// The name by which the tray host knows the icon.
    pub fn id(&self) -> (r: &'static str)
        ensures
            r@ == "ashot-recorder"@,
    {
        "ashot-recorder"
    }

    pub fn title(&self) -> (r: &'static str)
        ensures
            r@ == (if self.paused {
                "ashot \u{2014} recording paused"@
            } else {
                "ashot \u{2014} recording"@
            }),
    {
        if self.paused {
            "ashot \u{2014} recording paused"
        } else {
            "ashot \u{2014} recording"
        }
    }

    pub fn icon_name(&self) -> (r: &'static str)
        ensures
            r@ == (if self.paused {
                "media-playback-pause"@
            } else {
                "media-record"@
            }),
    {
        if self.paused {
            "media-playback-pause"
        } else {
            "media-record"
        }
    }

    /// A click on the icon itself.
    pub fn activate(&self) -> (r: TrayCmd)
        ensures
            r == TrayCmd::Show,
    {
        TrayCmd::Show
    }

    /// The first line of the menu, of a recording that can be paused.
    pub open spec fn pause_line(self) -> Option<(Seq<char>, Seq<char>, TrayCmd)> {
        if self.paused {
            Some(("Resume"@, "media-playback-start"@, TrayCmd::TogglePause))
        } else {
            Some(("Pause"@, "media-playback-pause"@, TrayCmd::TogglePause))
        }
    }

    /// The lines of the menu.
    pub open spec fn lines(self) -> Seq<Option<(Seq<char>, Seq<char>, TrayCmd)>> {
        let rest = seq![
            Some(("Stop & save"@, "media-playback-stop"@, TrayCmd::Stop)),
            None,
            Some(("Show controls"@, ""@, TrayCmd::Show)),
        ];
        if self.can_control {
            seq![self.pause_line()] + rest
        } else {
            rest
        }
    }

    pub fn menu(&self) -> (r: Vec<TrayItem>)
        ensures
            item_views(r@) == self.lines(),
    {
        let mut items: Vec<TrayItem> = Vec::new();
        if self.can_control {
            if self.paused {
                items.push(
                    TrayItem::Entry {
                        label: "Resume",
                        icon: "media-playback-start",
                        cmd: TrayCmd::TogglePause,
                    },
                );
            } else {
                items.push(
                    TrayItem::Entry {
                        label: "Pause",
                        icon: "media-playback-pause",
                        cmd: TrayCmd::TogglePause,
                    },
                );
            }
        }
        items.push(
            TrayItem::Entry {
                label: "Stop & save",
                icon: "media-playback-stop",
                cmd: TrayCmd::Stop,
            },
        );
        items.push(TrayItem::Separator);
        items.push(TrayItem::Entry { label: "Show controls", icon: "", cmd: TrayCmd::Show });
        assert(item_views(items@) =~= self.lines());
        items
    }
}

/// Whatever the recording allows, it can be stopped from the menu, and the
/// controls can be shown.
pub proof fn law_menu_can_always_stop(t: RecordTray)
    ensures
        exists|i: int|
            0 <= i < t.lines().len() && #[trigger] t.lines()[i] == Some(
                ("Stop & save"@, "media-playback-stop"@, TrayCmd::Stop),
            ),
        exists|i: int|
            0 <= i < t.lines().len() && #[trigger] t.lines()[i] == Some(
                ("Show controls"@, ""@, TrayCmd::Show),
            ),
        (exists|i: int| 0 <= i < t.lines().len() && #[trigger] t.lines()[i] == t.pause_line())
            <==> t.can_control,
{
    let n = t.lines().len();
    assert(t.lines()[n - 3] == Some(
        ("Stop & save"@, "media-playback-stop"@, TrayCmd::Stop),
    ));
    assert(t.lines()[n - 1] == Some(("Show controls"@, ""@, TrayCmd::Show)));
    if t.can_control {
        assert(t.lines()[0] == t.pause_line());
    }
}

/// The menu offers to resume a paused recording and to pause a running one.
pub proof fn law_menu_offers_the_other_state(t: RecordTray)
    ensures
        t.paused ==> t.pause_line() == Some(
            ("Resume"@, "media-playback-start"@, TrayCmd::TogglePause),
        ),
        !t.paused ==> t.pause_line() == Some(
            ("Pause"@, "media-playback-pause"@, TrayCmd::TogglePause),
        ),
        t.can_control ==> t.lines().len() == 4 && t.lines()[0] == t.pause_line(),
        !t.can_control ==> t.lines().len() == 3,
{
}

} // verus!
