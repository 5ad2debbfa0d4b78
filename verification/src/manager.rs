//! The focus coordinator: tracks window visibility, remembers which external
//! application held focus before the window was last shown, and guards
//! show/hide transitions against overlapping toggles.  The host performs the
//! window and OS calls; the ordering constraints live in the contracts here —
//! above all, that the previous application is captured strictly before the
//! window is shown (the caller reads the frontmost process and hands it in
//! before any show action runs).

use vstd::prelude::*;
use crate::models::clone_opt_string;
use crate::paste::{paste_switch_steps, simulate_paste_with_app_switch, PasteStep};

verus! {

/// What a toggle call did.
#[derive(Debug, PartialEq)]
pub enum ToggleOutcome {
    /// A toggle was still settling: the call did nothing, no transition ran.
    Ignored,
    /// The window was hidden; the host re-activates the carried application
    /// (if any) after the hide has settled.
    Hidden(Option<String>),
    /// The window was shown, after capturing the frontmost application.
    Shown,
}

/// The focus-transition state: window visibility, the application that held
/// focus before the last show, and the toggle gate.
pub struct FocusCoordinator {
    /// Whether this application's window is visible.
    pub visible: bool,
    /// The external application that was foreground immediately before the
    /// window was last shown; overwritten on every show that captures one.
    pub previous_app: Option<String>,
    /// The toggle gate: held from a toggle transition until the host releases
    /// it after the settle delay.  A toggle that finds it held is a no-op.
    pub toggling: bool,
}

impl FocusCoordinator {
    /// A coordinator for a hidden window, with nothing remembered.
    pub fn new() -> (c: Self)
        ensures
            !c.visible,
            c.previous_app is None,
            !c.toggling,
    {
        FocusCoordinator { visible: false, previous_app: None, toggling: false }
    }

    /// The show transition.  `frontmost` is the sanitised frontmost
    /// application, read by the host strictly before any window action: a
    /// known value overwrites the remembered application, an unknown one
    /// leaves it untouched.  After this returns, the host shows, focuses and
    /// centers the window and notifies listeners.
    pub fn show_window(&mut self, frontmost: Option<String>)
        ensures
            final(self).visible,
            final(self).toggling == old(self).toggling,
            final(self).previous_app == (if frontmost is Some {
                frontmost
            } else {
                old(self).previous_app
            }),
    {
        match frontmost {
            Some(app) => {
                self.previous_app = Some(app);
            },
            None => {},
        }
        self.visible = true;
    }

    /// The hide transition: returns the application to re-activate.  The
    /// host hides the window, waits the settle delay, and then re-activates
    /// the returned application; a `None` simply skips re-activation.  The
    /// remembered application is kept for the next paste.
    pub fn hide_window(&mut self) -> (target: Option<String>)
        ensures
            !final(self).visible,
            final(self).previous_app == old(self).previous_app,
            final(self).toggling == old(self).toggling,
            target == old(self).previous_app,
    {
        self.visible = false;
        clone_opt_string(&self.previous_app)
    }

    /// The application that held focus before the window was last shown.
    pub fn get_previous_app(&self) -> (r: Option<String>)
        ensures
            r == self.previous_app,
    {
        clone_opt_string(&self.previous_app)
    }

    /// The toggle transition.  While an earlier toggle is still settling the
    /// call does nothing: rapid repeated toggles cannot overlap and corrupt
    /// the remembered application.  Otherwise the latch is set and the window
    /// is hidden or shown; the host calls `release_toggle_gate` once the
    /// settle delay has passed rather than at once, because visibility read
    /// too soon after a transition is not trustworthy.
    pub fn toggle_window(&mut self, frontmost: Option<String>) -> (r: ToggleOutcome)
        ensures
            old(self).toggling ==> *final(self) == *old(self) && r == ToggleOutcome::Ignored,
            !old(self).toggling ==> final(self).toggling && (if old(self).visible {
                &&& !final(self).visible
                &&& final(self).previous_app == old(self).previous_app
                &&& r == ToggleOutcome::Hidden(old(self).previous_app)
            } else {
                &&& final(self).visible
                &&& final(self).previous_app == (if frontmost is Some {
                    frontmost
                } else {
                    old(self).previous_app
                })
                &&& r == ToggleOutcome::Shown
            }),
    {
        if self.toggling {
            return ToggleOutcome::Ignored;
        }
        self.toggling = true;
        if self.visible {
            let target = self.hide_window();
            ToggleOutcome::Hidden(target)
        } else {
            self.show_window(frontmost);
            ToggleOutcome::Shown
        }
    }

    /// Releases the toggle gate; the host calls this once the settle delay
    /// after a toggle transition has passed.
    pub fn release_toggle_gate(&mut self)
        ensures
            !final(self).toggling,
            final(self).visible == old(self).visible,
            final(self).previous_app == old(self).previous_app,
    {
        self.toggling = false;
    }

    /// The paste hand-off: hides the window and plans the paste of `content`
    /// into the application captured by the most recent show.  The plan hides
    /// first, then writes the clipboard, then fires the activation and, after
    /// a settle delay, injects the keystroke; the plain hide path's settled
    /// re-activation is deliberately not used — re-activation is folded into
    /// the paste sequence itself.
    pub fn paste_and_close(&mut self, content: String) -> (plan: Vec<PasteStep>)
        ensures
            !final(self).visible,
            final(self).previous_app == old(self).previous_app,
            final(self).toggling == old(self).toggling,
            plan@ == seq![PasteStep::HideWindow] + paste_switch_steps(
                content,
                old(self).previous_app,
            ),
    {
        let ghost c = content;
        let target = clone_opt_string(&self.previous_app);
        self.visible = false;
        let mut plan: Vec<PasteStep> = Vec::new();
        plan.push(PasteStep::HideWindow);
        let mut rest = simulate_paste_with_app_switch(content, target);
        plan.append(&mut rest);
        proof {
            assert(plan@ =~= seq![PasteStep::HideWindow] + paste_switch_steps(
                c,
                old(self).previous_app,
            ));
        }
        plan
    }
}

/// After a show that captured the application `p`, the paste plan holds, in
/// this order: the hide, the clipboard write of `content`, the re-activation
/// of exactly `p`, the settle delay, and the keystroke injection.
pub proof fn lemma_paste_plan_targets_previous(content: String, p: String)
    ensures
        seq![PasteStep::HideWindow] + paste_switch_steps(content, Some(p)) == seq![
            PasteStep::HideWindow,
            PasteStep::SetClipboard(content),
            PasteStep::ActivateApp(p),
            PasteStep::SettleDelay,
            PasteStep::InjectPaste,
        ],
{
    assert(seq![PasteStep::HideWindow] + paste_switch_steps(content, Some(p)) =~= seq![
        PasteStep::HideWindow,
        PasteStep::SetClipboard(content),
        PasteStep::ActivateApp(p),
        PasteStep::SettleDelay,
        PasteStep::InjectPaste,
    ]);
}

} // verus!
