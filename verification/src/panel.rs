//! The panel: when it hides, and how pastes follow each other.

use crate::text::same;
use vstd::prelude::*;

verus! {

// ---------- hiding ----------

/// What decides whether the panel stays.
#[derive(Clone, Copy, PartialEq, Eq, Structural, Debug)]
pub struct Panel {
    /// Whether the user has fixed it.
    pub pinned: bool,
    /// Whether it is being dragged or resized.
    pub dragging: bool,
    /// Whether it has the focus.
    pub focused: bool,
}

impl Panel {
    /// The panel at the start.
    pub fn new() -> (r: Self)
        ensures
            r == (Panel { pinned: false, dragging: false, focused: false }),
    {
        Panel { pinned: false, dragging: false, focused: false }
    }

    /// Takes note of the focus; whether it is to be looked at again shortly, for
    /// dragging takes the focus away for a moment.
    pub fn on_focus(&mut self, focused: bool) -> (r: bool)
        ensures
            *final(self) == (Panel { focused: focused, ..*old(self) }),
            r == !focused,
    {
        self.focused = focused;
        !focused
    }

    /// Whether the panel hides once it has lost the focus.
    pub fn hides(&self) -> (r: bool)
        ensures
            r == (!self.pinned && !self.dragging && !self.focused),
    {
        !self.pinned && !self.dragging && !self.focused
    }

    /// Whether the panel hides when a clip is pasted: not where it is fixed, so
    /// that several can be pasted.
    pub fn hides_on_paste(&self) -> (r: bool)
        ensures
            r == !self.pinned,
    {
        !self.pinned
    }
}

/// What becomes of the panel when it is called.
#[derive(Clone, Copy, PartialEq, Eq, Structural, Debug)]
pub enum PanelStep {
    Hide,
    Show,
}

/// What becomes of the panel when it is called, `visible` being whether it is shown.
pub fn toggle_window(visible: bool) -> (r: PanelStep)
    ensures
        r == (if visible {
            PanelStep::Hide
        } else {
            PanelStep::Show
        }),
{
    if visible {
        PanelStep::Hide
    } else {
        PanelStep::Show
    }
}

/// What an entry of the menu does.
#[derive(Clone, Copy, PartialEq, Eq, Structural, Debug)]
pub enum MenuStep {
    /// Calls the panel.
    Panel,
    /// Switches recording on or off: it is on from now on where this is set.
    Recording(bool),
    /// Shows the settings.
    Settings,
    /// Ends the program.
    Quit,
    Nothing,
}

/// What the entry `id` of the menu does, `enabled` being whether recording is on.
pub fn menu_step(id: &str, enabled: bool) -> (r: MenuStep)
    ensures
        r == (if id@ == "show"@ {
            MenuStep::Panel
        } else if id@ == "toggle"@ {
            MenuStep::Recording(!enabled)
        } else if id@ == "settings"@ {
            MenuStep::Settings
        } else if id@ == "quit"@ {
            MenuStep::Quit
        } else {
            MenuStep::Nothing
        }),
{
    if same(id, "show") {
        MenuStep::Panel
    } else if same(id, "toggle") {
        MenuStep::Recording(!enabled)
    } else if same(id, "settings") {
        MenuStep::Settings
    } else if same(id, "quit") {
        MenuStep::Quit
    } else {
        MenuStep::Nothing
    }
}

/// Whether a click on the icon calls the panel: the left button, when it is
/// released. The right one is for the menu.
pub fn icon_calls_panel(left: bool, released: bool) -> (r: bool)
    ensures
        r == (left && released),
{
    left && released
}

/// Whether a configuration of an older version is taken over: only where there is
/// none yet.
pub fn takes_over(config_exists: bool, older_exists: bool) -> (r: bool)
    ensures
        r == (!config_exists && older_exists),
{
    !config_exists && older_exists
}

// ---------- dragging ----------

/// Waiting for the mouse button to be released.
#[derive(Clone, Copy, PartialEq, Eq, Structural, Debug)]
pub struct DragWait {
    /// Whether the button was seen down, or time enough has gone by.
    pub settled: bool,
    /// How long the button was waited for, in milliseconds.
    pub waited: u64,
}

/// What to do while waiting.
#[derive(Clone, Copy, PartialEq, Eq, Structural, Debug)]
pub enum DragStep {
    /// Look again after so many milliseconds.
    Sleep(u64),
    /// The drag is over.
    Released,
}

impl DragWait {
    /// The start of a drag.
    pub fn new() -> (r: Self)
        ensures
            r == (DragWait { settled: false, waited: 0 }),
    {
        DragWait { settled: false, waited: 0 }
    }

    /// Takes note of whether the button is down. Where it does not go down within
    /// 150 milliseconds the user has only clicked.
    pub fn wait_left_button_released(&mut self, down: bool) -> (r: DragStep)
        ensures
            !old(self).settled && !down && old(self).waited < 150 ==> r == DragStep::Sleep(10)
                && *final(self) == (DragWait {
                settled: false,
                waited: (old(self).waited + 10) as u64,
            }),
            old(self).settled || down || old(self).waited >= 150 ==> *final(self) == (DragWait {
                settled: true,
                ..*old(self)
            }) && r == (if down {
                DragStep::Sleep(20)
            } else {
                DragStep::Released
            }),
    {
        if !self.settled && !down && self.waited < 150 {
            self.waited = self.waited + 10;
            return DragStep::Sleep(10);
        }
        self.settled = true;
        if down {
            DragStep::Sleep(20)
        } else {
            DragStep::Released
        }
    }
}

// ---------- pasting ----------

/// The pastes that are wanted: however often the user clicks, one runs at a time,
/// and one more follows it.
#[derive(Clone, Copy, PartialEq, Eq, Structural, Debug)]
pub struct PasteQueue {
    /// Whether a paste is wanted.
    pub pending: bool,
    /// Whether someone is at it.
    pub running: bool,
}

/// The queue after a click.
pub open spec fn clicked(q: PasteQueue) -> PasteQueue {
    PasteQueue { pending: true, running: true }
}

/// The queue after whoever is at it has looked for the next paste.
pub open spec fn looked(q: PasteQueue) -> PasteQueue {
    PasteQueue { pending: false, running: q.pending && q.running }
}

impl PasteQueue {
    /// A paste that is wanted has someone at it.
    pub open spec fn wf(self) -> bool {
        self.pending ==> self.running
    }

    /// The queue at the start.
    pub fn new() -> (r: Self)
        ensures
            r == (PasteQueue { pending: false, running: false }),
            r.wf(),
    {
        PasteQueue { pending: false, running: false }
    }

    /// The user wants a paste; whether someone is to be set to it.
    pub fn paste_clip(&mut self) -> (r: bool)
        ensures
            *final(self) == clicked(*old(self)),
            r == !old(self).running,
            final(self).wf(),
    {
        self.pending = true;
        let start = !self.running;
        self.running = true;
        start
    }

    /// Takes the next paste; whether there is one. Where there is none, nobody is
    /// at it any more.
    pub fn paste_worker(&mut self) -> (r: bool)
        ensures
            r == old(self).pending,
            *final(self) == looked(*old(self)),
            final(self).wf(),
    {
        if self.pending {
            self.pending = false;
            true
        } else {
            self.running = false;
            false
        }
    }
}

/// No click is lost: after it a paste is wanted and someone is at it, who finds
/// the paste on looking, and who leaves only where none is wanted.
pub proof fn no_click_is_lost(q: PasteQueue)
    requires
        q.wf(),
    ensures
        clicked(q).pending && clicked(q).running,
        looked(clicked(q)).running,
        q.running && !looked(q).running ==> !q.pending,
{
}

} // verus!
