//! The paste hand-off sequence, as an ordered plan of steps.  The host
//! performs each step in order with its platform primitives (clipboard write,
//! process activation, keystroke injection); the order itself — clipboard
//! first, then a fire-and-forget activation, a short settle delay, then the
//! keystroke — is decided and fixed here.

use vstd::prelude::*;

verus! {

/// One step of a paste sequence, to be performed by the host in plan order.
#[derive(Debug, PartialEq)]
pub enum PasteStep {
    /// Hide this application's window.
    HideWindow,
    /// Write the text to the system clipboard.  If this step fails, the host
    /// must abort the remainder of the plan: pasting stale content is worse
    /// than failing visibly.
    SetClipboard(String),
    /// Ask the OS to bring the named application to the foreground, without
    /// waiting for completion.  A failure is logged and the plan goes on.
    ActivateApp(String),
    /// Wait a short, tunable settle delay for the OS to propagate focus.
    SettleDelay,
    /// Inject the platform paste keystroke at whatever now holds focus.
    InjectPaste,
}

/// The activation detour of a paste plan: present exactly when a target
/// application is known, and always followed by a settle delay.
pub open spec fn switch_steps(target: Option<String>) -> Seq<PasteStep> {
    match target {
        Some(app) => seq![PasteStep::ActivateApp(app), PasteStep::SettleDelay],
        None => seq![],
    }
}

/// A plain paste: clipboard write, settle delay, keystroke.
pub open spec fn paste_steps(content: String) -> Seq<PasteStep> {
    seq![PasteStep::SetClipboard(content), PasteStep::SettleDelay, PasteStep::InjectPaste]
}

/// A paste with a focus hand-off: clipboard write first, then the activation
/// detour, then the keystroke.
pub open spec fn paste_switch_steps(content: String, target: Option<String>) -> Seq<PasteStep> {
    seq![PasteStep::SetClipboard(content)] + switch_steps(target) + seq![PasteStep::InjectPaste]
}

/// Plans a plain paste of `content` into whatever holds focus.
pub fn simulate_paste(content: String) -> (plan: Vec<PasteStep>)
    ensures
        plan@ == paste_steps(content),
{
    let ghost c = content;
    let mut plan: Vec<PasteStep> = Vec::new();
    plan.push(PasteStep::SetClipboard(content));
    plan.push(PasteStep::SettleDelay);
    plan.push(PasteStep::InjectPaste);
    proof {
        assert(plan@ =~= paste_steps(c));
    }
    plan
}

/// Plans a paste of `content` into `target_app`: the clipboard is written
/// first, the activation is fired without being awaited, and after a short
/// settle delay the keystroke is injected — the keystroke lands in whatever
/// process has focus at injection time, which the activation is racing to
/// set.
pub fn simulate_paste_with_app_switch(content: String, target_app: Option<String>) -> (plan: Vec<
    PasteStep,
>)
    ensures
        plan@ == paste_switch_steps(content, target_app),
{
    let ghost c = content;
    let ghost t = target_app;
    let mut plan: Vec<PasteStep> = Vec::new();
    plan.push(PasteStep::SetClipboard(content));
    match target_app {
        Some(app) => {
            plan.push(PasteStep::ActivateApp(app));
            plan.push(PasteStep::SettleDelay);
        },
        None => {},
    }
    plan.push(PasteStep::InjectPaste);
    proof {
        assert(plan@ =~= paste_switch_steps(c, t));
    }
    plan
}

} // verus!
