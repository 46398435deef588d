//! The application settings, the payload shown to the settings window, and
//! the decisions of a settings change: which outside step comes next, and
//! how a failed change is rolled back.
use vstd::prelude::*;
use crate::shortcut::{shortcut_label, shortcut_to_label};
use crate::text::string_of;
use crate::outcome::Outcome;

verus! {

/// The shortcut that a fresh installation uses.
pub open spec fn default_shortcut() -> Seq<char> {
    "Command+Shift+KeyK"@
}

/// The settings of the application: the global shortcut, in its stored
/// form, and whether the application starts at login.
pub struct AppSettings {
    pub shortcut: String,
    pub launch_at_login: bool,
}

/// The settings taken as plain values.
pub struct SettingsView {
    pub shortcut: Seq<char>,
    pub launch_at_login: bool,
}

impl View for AppSettings {
    type V = SettingsView;

    open spec fn view(&self) -> SettingsView {
        SettingsView { shortcut: self.shortcut@, launch_at_login: self.launch_at_login }
    }
}

impl Default for AppSettings {
    /// `Command+Shift+KeyK`, starting at login.
    fn default() -> (s: Self)
        ensures
            s.shortcut@ == default_shortcut(),
            s.launch_at_login,
    {
        AppSettings { shortcut: string_of("Command+Shift+KeyK"), launch_at_login: true }
    }
}

impl AppSettings {
    /// A copy of the settings.
    pub fn duplicate(&self) -> (s: Self)
        ensures
            s@ == self@,
    {
        AppSettings { shortcut: self.shortcut.clone(), launch_at_login: self.launch_at_login }
    }
}

/// What the settings window is shown.
pub struct SettingsPayload {
    pub shortcut: String,
    pub shortcut_label: String,
    pub launch_at_login: bool,
    pub first_launch: bool,
}

/// The payload for the settings window: the settings, the label of the
/// shortcut, and whether onboarding is still to be done.
pub fn settings_payload(settings: &AppSettings, first_launch: bool) -> (p: SettingsPayload)
    ensures
        p.shortcut@ == settings.shortcut@,
        p.shortcut_label@ == shortcut_label(settings.shortcut@),
        p.launch_at_login == settings.launch_at_login,
        p.first_launch == first_launch,
{
    SettingsPayload {
        shortcut: settings.shortcut.clone(),
        shortcut_label: shortcut_to_label(settings.shortcut.as_str()),
        launch_at_login: settings.launch_at_login,
        first_launch,
    }
}

/// Which of the two settings of a change a step refers to.
#[derive(PartialEq, Eq, Structural, Clone, Copy)]
pub enum Side {
    Previous,
    Next,
}

/// The outside step that a settings change asks for next.
pub enum ChangeAction {
    /// Replace the registered shortcut of `from` by the shortcut of `to`.
    SwitchShortcut { from: Side, to: Side },
    /// Turn start-at-login on or off as the settings of `from` say.
    SetAutostart { from: Side },
    /// Write the new settings to disk.
    SaveNext,
    /// Remove the onboarding marker (a reset asks for this).
    RemoveOnboardingMarker,
    /// Make the new settings current; the change succeeded.
    Commit,
    /// The change failed with this message.
    Fail { message: String },
    /// The change is over; there is nothing more to do.
    Nothing,
}

/// Where a settings change stands.
pub enum ChangeStage {
    SwitchingShortcut,
    SettingAutostart,
    Saving,
    RestoringShortcut { message: String, then_autostart: bool },
    RestoringAutostart { message: String },
    RemovingMarker,
    Finished,
}

/// A settings change in progress: whether the shortcut changes, whether
/// the change is a reset to the defaults, and where it stands.
pub struct SettingsChange {
    pub shortcut_changed: bool,
    pub resets: bool,
    pub stage: ChangeStage,
}

/// The first step of a change from `previous` to `next`: switch the shortcut
/// when it changes, else set start-at-login.
pub open spec fn change_start(previous: SettingsView, next: SettingsView, resets: bool) -> (
    SettingsChange,
    ChangeAction,
) {
    let changed = previous.shortcut != next.shortcut;
    if changed {
        (
            SettingsChange { shortcut_changed: changed, resets, stage: ChangeStage::SwitchingShortcut },
            ChangeAction::SwitchShortcut { from: Side::Previous, to: Side::Next },
        )
    } else {
        (
            SettingsChange { shortcut_changed: changed, resets, stage: ChangeStage::SettingAutostart },
            ChangeAction::SetAutostart { from: Side::Next },
        )
    }
}

/// The step after `outcome`. In order: the shortcut is switched, the
/// start-at-login setting applied, the settings saved (and, for a reset, the
/// onboarding marker removed), then the change is committed. A failure to
/// switch the shortcut ends the change; a failure to apply start-at-login
/// switches the shortcut back; a failure to save switches the shortcut back
/// and restores start-at-login; the change then fails with the first
/// failure's message, whatever the restoring steps report. A finished change
/// stays finished and asks for nothing more.
pub open spec fn change_step(c: SettingsChange, outcome: Outcome) -> (SettingsChange, ChangeAction) {
    let changed = c.shortcut_changed;
    let resets = c.resets;
    let at = |stage: ChangeStage| SettingsChange { shortcut_changed: changed, resets, stage };
    match c.stage {
        ChangeStage::SwitchingShortcut => match outcome {
            Outcome::Succeeded => (at(ChangeStage::SettingAutostart), ChangeAction::SetAutostart { from: Side::Next }),
            Outcome::Failed { message } => (at(ChangeStage::Finished), ChangeAction::Fail { message }),
        },
        ChangeStage::SettingAutostart => match outcome {
            Outcome::Succeeded => (at(ChangeStage::Saving), ChangeAction::SaveNext),
            Outcome::Failed { message } => if changed {
                (
                    at(ChangeStage::RestoringShortcut { message, then_autostart: false }),
                    ChangeAction::SwitchShortcut { from: Side::Next, to: Side::Previous },
                )
            } else {
                (at(ChangeStage::Finished), ChangeAction::Fail { message })
            },
        },
        ChangeStage::Saving => match outcome {
            Outcome::Succeeded => if resets {
                (at(ChangeStage::RemovingMarker), ChangeAction::RemoveOnboardingMarker)
            } else {
                (at(ChangeStage::Finished), ChangeAction::Commit)
            },
            Outcome::Failed { message } => if changed {
                (
                    at(ChangeStage::RestoringShortcut { message, then_autostart: true }),
                    ChangeAction::SwitchShortcut { from: Side::Next, to: Side::Previous },
                )
            } else {
                (
                    at(ChangeStage::RestoringAutostart { message }),
                    ChangeAction::SetAutostart { from: Side::Previous },
                )
            },
        },
        ChangeStage::RestoringShortcut { message, then_autostart } => if then_autostart {
            (at(ChangeStage::RestoringAutostart { message }), ChangeAction::SetAutostart { from: Side::Previous })
        } else {
            (at(ChangeStage::Finished), ChangeAction::Fail { message })
        },
        ChangeStage::RestoringAutostart { message } => (
            at(ChangeStage::Finished),
            ChangeAction::Fail { message },
        ),
        ChangeStage::RemovingMarker => match outcome {
            Outcome::Succeeded => (at(ChangeStage::Finished), ChangeAction::Commit),
            Outcome::Failed { message } => (at(ChangeStage::Finished), ChangeAction::Fail { message }),
        },
        ChangeStage::Finished => (c, ChangeAction::Nothing),
    }
}


/// Starts a change of the settings from `previous` to `next`; `resets` when
/// `next` are the defaults being restored.
pub fn begin_change(previous: &AppSettings, next: &AppSettings, resets: bool) -> (r: (
    SettingsChange,
    ChangeAction,
))
    ensures
        r == change_start(previous@, next@, resets),
{
    let changed = !(previous.shortcut == next.shortcut);
    if changed {
        (
            SettingsChange { shortcut_changed: changed, resets, stage: ChangeStage::SwitchingShortcut },
            ChangeAction::SwitchShortcut { from: Side::Previous, to: Side::Next },
        )
    } else {
        (
            SettingsChange { shortcut_changed: changed, resets, stage: ChangeStage::SettingAutostart },
            ChangeAction::SetAutostart { from: Side::Next },
        )
    }
}

/// Advances a change by the outcome of its last step.
pub fn advance_change(c: SettingsChange, outcome: Outcome) -> (r: (SettingsChange, ChangeAction))
    ensures
        r == change_step(c, outcome),
{
    let changed = c.shortcut_changed;
    let resets = c.resets;
    match c.stage {
        ChangeStage::SwitchingShortcut => match outcome {
            Outcome::Succeeded => (
                SettingsChange { shortcut_changed: changed, resets, stage: ChangeStage::SettingAutostart },
                ChangeAction::SetAutostart { from: Side::Next },
            ),
            Outcome::Failed { message } => (
                SettingsChange { shortcut_changed: changed, resets, stage: ChangeStage::Finished },
                ChangeAction::Fail { message },
            ),
        },
        ChangeStage::SettingAutostart => match outcome {
            Outcome::Succeeded => (
                SettingsChange { shortcut_changed: changed, resets, stage: ChangeStage::Saving },
                ChangeAction::SaveNext,
            ),
            Outcome::Failed { message } => if changed {
                (
                    SettingsChange {
                        shortcut_changed: changed,
                        resets,
                        stage: ChangeStage::RestoringShortcut { message, then_autostart: false },
                    },
                    ChangeAction::SwitchShortcut { from: Side::Next, to: Side::Previous },
                )
            } else {
                (
                    SettingsChange { shortcut_changed: changed, resets, stage: ChangeStage::Finished },
                    ChangeAction::Fail { message },
                )
            },
        },
        ChangeStage::Saving => match outcome {
            Outcome::Succeeded => if resets {
                (
                    SettingsChange { shortcut_changed: changed, resets, stage: ChangeStage::RemovingMarker },
                    ChangeAction::RemoveOnboardingMarker,
                )
            } else {
                (
                    SettingsChange { shortcut_changed: changed, resets, stage: ChangeStage::Finished },
                    ChangeAction::Commit,
                )
            },
            Outcome::Failed { message } => if changed {
                (
                    SettingsChange {
                        shortcut_changed: changed,
                        resets,
                        stage: ChangeStage::RestoringShortcut { message, then_autostart: true },
                    },
                    ChangeAction::SwitchShortcut { from: Side::Next, to: Side::Previous },
                )
            } else {
                (
                    SettingsChange {
                        shortcut_changed: changed,
                        resets,
                        stage: ChangeStage::RestoringAutostart { message },
                    },
                    ChangeAction::SetAutostart { from: Side::Previous },
                )
            },
        },
        ChangeStage::RestoringShortcut { message, then_autostart } => if then_autostart {
            (
                SettingsChange {
                    shortcut_changed: changed,
                    resets,
                    stage: ChangeStage::RestoringAutostart { message },
                },
                ChangeAction::SetAutostart { from: Side::Previous },
            )
        } else {
            (
                SettingsChange { shortcut_changed: changed, resets, stage: ChangeStage::Finished },
                ChangeAction::Fail { message },
            )
        },
        ChangeStage::RestoringAutostart { message } => (
            SettingsChange { shortcut_changed: changed, resets, stage: ChangeStage::Finished },
            ChangeAction::Fail { message },
        ),
        ChangeStage::RemovingMarker => match outcome {
            Outcome::Succeeded => (
                SettingsChange { shortcut_changed: changed, resets, stage: ChangeStage::Finished },
                ChangeAction::Commit,
            ),
            Outcome::Failed { message } => (
                SettingsChange { shortcut_changed: changed, resets, stage: ChangeStage::Finished },
                ChangeAction::Fail { message },
            ),
        },
        ChangeStage::Finished => (
            SettingsChange { shortcut_changed: changed, resets, stage: ChangeStage::Finished },
            ChangeAction::Nothing,
        ),
    }
}


/// What the outside steps of a change have done so far: the shortcut that is
/// registered, whether the application starts at login, and whether the new
/// settings are on disk.
pub struct ChangeWorld {
    pub shortcut: Seq<char>,
    pub launch_at_login: bool,
    pub saved_next: bool,
}

/// The settings on `side` of a change.
pub open spec fn side_of(side: Side, previous: SettingsView, next: SettingsView) -> SettingsView {
    match side {
        Side::Previous => previous,
        Side::Next => next,
    }
}

/// The world before a change: the previous settings in force, nothing saved.
pub open spec fn world_before(previous: SettingsView) -> ChangeWorld {
    ChangeWorld { shortcut: previous.shortcut, launch_at_login: previous.launch_at_login, saved_next: false }
}

/// The effect of an outside step, given how it went: a step that succeeds
/// does what it was asked; a step that fails leaves things as they were.
pub open spec fn step_effect(
    w: ChangeWorld,
    action: ChangeAction,
    outcome: Outcome,
    previous: SettingsView,
    next: SettingsView,
) -> ChangeWorld {
    if outcome is Succeeded {
        match action {
            ChangeAction::SwitchShortcut { to, .. } => ChangeWorld {
                shortcut: side_of(to, previous, next).shortcut,
                ..w
            },
            ChangeAction::SetAutostart { from } => ChangeWorld {
                launch_at_login: side_of(from, previous, next).launch_at_login,
                ..w
            },
            ChangeAction::SaveNext => ChangeWorld { saved_next: true, ..w },
            _ => w,
        }
    } else {
        w
    }
}

/// A change run on a list of outcomes, one for each step it asks for, until
/// it finishes or the outcomes run out: where it stands, its last step, and
/// the world.
pub open spec fn run_change(
    c: SettingsChange,
    action: ChangeAction,
    w: ChangeWorld,
    outcomes: Seq<Outcome>,
    previous: SettingsView,
    next: SettingsView,
) -> (SettingsChange, ChangeAction, ChangeWorld)
    decreases outcomes.len(),
{
    if outcomes.len() == 0 || c.stage is Finished {
        (c, action, w)
    } else {
        let (c2, a2) = change_step(c, outcomes[0]);
        run_change(
            c2,
            a2,
            step_effect(w, action, outcomes[0], previous, next),
            outcomes.drop_first(),
            previous,
            next,
        )
    }
}

/// Every step that undoes a change (or, for a reset, removes the onboarding
/// marker) succeeds along the run.
pub open spec fn undo_steps_succeed(c: SettingsChange, outcomes: Seq<Outcome>) -> bool
    decreases outcomes.len(),
{
    if outcomes.len() == 0 || c.stage is Finished {
        true
    } else {
        &&& (match c.stage {
            ChangeStage::RestoringShortcut { .. } => outcomes[0] is Succeeded,
            ChangeStage::RestoringAutostart { .. } => outcomes[0] is Succeeded,
            ChangeStage::RemovingMarker => outcomes[0] is Succeeded,
            _ => true,
        })
        &&& undo_steps_succeed(change_step(c, outcomes[0]).0, outcomes.drop_first())
    }
}

/// How the world stands at each stage of a change from `previous` to
/// `next`; `clean` when the undoing steps succeed.
pub open spec fn change_invariant(
    c: SettingsChange,
    action: ChangeAction,
    w: ChangeWorld,
    previous: SettingsView,
    next: SettingsView,
    clean: bool,
) -> bool {
    &&& c.shortcut_changed == (previous.shortcut != next.shortcut)
    &&& match c.stage {
        ChangeStage::SwitchingShortcut => {
            &&& c.shortcut_changed
            &&& action == ChangeAction::SwitchShortcut { from: Side::Previous, to: Side::Next }
            &&& w == world_before(previous)
        },
        ChangeStage::SettingAutostart => {
            &&& action == ChangeAction::SetAutostart { from: Side::Next }
            &&& w.shortcut == next.shortcut
            &&& w.launch_at_login == previous.launch_at_login
            &&& !w.saved_next
        },
        ChangeStage::Saving => {
            &&& action == ChangeAction::SaveNext
            &&& w.shortcut == next.shortcut
            &&& w.launch_at_login == next.launch_at_login
            &&& !w.saved_next
        },
        ChangeStage::RestoringShortcut { then_autostart, .. } => {
            &&& c.shortcut_changed
            &&& action == ChangeAction::SwitchShortcut { from: Side::Next, to: Side::Previous }
            &&& w.launch_at_login == (if then_autostart {
                next.launch_at_login
            } else {
                previous.launch_at_login
            })
            &&& !w.saved_next
        },
        ChangeStage::RestoringAutostart { .. } => {
            &&& action == ChangeAction::SetAutostart { from: Side::Previous }
            &&& clean ==> w.shortcut == previous.shortcut
            &&& !w.saved_next
        },
        ChangeStage::RemovingMarker => {
            &&& action == ChangeAction::RemoveOnboardingMarker
            &&& w.shortcut == next.shortcut
            &&& w.launch_at_login == next.launch_at_login
            &&& w.saved_next
        },
        ChangeStage::Finished => {
            &&& action is Commit ==> w.shortcut == next.shortcut && w.launch_at_login
                == next.launch_at_login && w.saved_next
            &&& (clean && action is Fail) ==> w == world_before(previous)
        },
    }
}

proof fn lemma_run_keeps_invariant(
    c: SettingsChange,
    action: ChangeAction,
    w: ChangeWorld,
    outcomes: Seq<Outcome>,
    previous: SettingsView,
    next: SettingsView,
    clean: bool,
)
    requires
        change_invariant(c, action, w, previous, next, clean),
        clean ==> undo_steps_succeed(c, outcomes),
    ensures
        ({
            let (c2, a2, w2) = run_change(c, action, w, outcomes, previous, next);
            change_invariant(c2, a2, w2, previous, next, clean)
        }),
    decreases outcomes.len(),
{
    if outcomes.len() == 0 || c.stage is Finished {
    } else {
        let o = outcomes[0];
        let (c2, a2) = change_step(c, o);
        let w2 = step_effect(w, action, o, previous, next);
        assert(change_invariant(c2, a2, w2, previous, next, clean));
        lemma_run_keeps_invariant(c2, a2, w2, outcomes.drop_first(), previous, next, clean);
    }
}

/// A change that commits has put the new settings in force: the new
/// shortcut is registered, start-at-login is as the new settings say, and
/// they are saved.
pub proof fn lemma_committed_change_applies_next(
    previous: SettingsView,
    next: SettingsView,
    resets: bool,
    outcomes: Seq<Outcome>,
)
    ensures
        ({
            let (c0, a0) = change_start(previous, next, resets);
            let (c, a, w) = run_change(c0, a0, world_before(previous), outcomes, previous, next);
            a is Commit ==> w.shortcut == next.shortcut && w.launch_at_login == next.launch_at_login
                && w.saved_next
        }),
{
    let (c0, a0) = change_start(previous, next, resets);
    assert(change_invariant(c0, a0, world_before(previous), previous, next, false));
    lemma_run_keeps_invariant(c0, a0, world_before(previous), outcomes, previous, next, false);
    let (c, a, w) = run_change(c0, a0, world_before(previous), outcomes, previous, next);
    if a is Commit {
        lemma_commit_only_when_finished(c0, a0, world_before(previous), outcomes, previous, next);
    }
}

proof fn lemma_commit_only_when_finished(
    c: SettingsChange,
    action: ChangeAction,
    w: ChangeWorld,
    outcomes: Seq<Outcome>,
    previous: SettingsView,
    next: SettingsView,
)
    requires
        !(c.stage is Finished) ==> !(action is Commit) && !(action is Fail),
    ensures
        ({
            let (c2, a2, w2) = run_change(c, action, w, outcomes, previous, next);
            (a2 is Commit || a2 is Fail) ==> c2.stage is Finished
        }),
    decreases outcomes.len(),
{
    if outcomes.len() == 0 || c.stage is Finished {
    } else {
        let o = outcomes[0];
        let (c2, a2) = change_step(c, o);
        let w2 = step_effect(w, action, o, previous, next);
        lemma_commit_only_when_finished(c2, a2, w2, outcomes.drop_first(), previous, next);
    }
}

/// A change that fails, when every step that undoes it succeeds, leaves the
/// previous settings in force: the previous shortcut registered,
/// start-at-login as before, and the new settings not saved.
pub proof fn lemma_failed_change_restores_previous(
    previous: SettingsView,
    next: SettingsView,
    resets: bool,
    outcomes: Seq<Outcome>,
)
    requires
        undo_steps_succeed(change_start(previous, next, resets).0, outcomes),
    ensures
        ({
            let (c0, a0) = change_start(previous, next, resets);
            let (c, a, w) = run_change(c0, a0, world_before(previous), outcomes, previous, next);
            a is Fail ==> w == world_before(previous)
        }),
{
    let (c0, a0) = change_start(previous, next, resets);
    assert(change_invariant(c0, a0, world_before(previous), previous, next, true));
    lemma_run_keeps_invariant(c0, a0, world_before(previous), outcomes, previous, next, true);
    lemma_commit_only_when_finished(c0, a0, world_before(previous), outcomes, previous, next);
}

/// How many more outcomes a change at this stage takes at most to finish.
pub open spec fn steps_left(stage: ChangeStage) -> nat {
    match stage {
        ChangeStage::SwitchingShortcut => 5,
        ChangeStage::SettingAutostart => 4,
        ChangeStage::Saving => 3,
        ChangeStage::RestoringShortcut { then_autostart, .. } => if then_autostart { 2 } else { 1 },
        ChangeStage::RestoringAutostart { .. } => 1,
        ChangeStage::RemovingMarker => 1,
        ChangeStage::Finished => 0,
    }
}

proof fn lemma_run_finishes(
    c: SettingsChange,
    action: ChangeAction,
    w: ChangeWorld,
    outcomes: Seq<Outcome>,
    previous: SettingsView,
    next: SettingsView,
)
    requires
        outcomes.len() >= steps_left(c.stage),
    ensures
        run_change(c, action, w, outcomes, previous, next).0.stage is Finished,
    decreases outcomes.len(),
{
    if outcomes.len() == 0 || c.stage is Finished {
    } else {
        let o = outcomes[0];
        let (c2, a2) = change_step(c, o);
        assert(steps_left(c2.stage) < steps_left(c.stage));
        lemma_run_finishes(c2, a2, step_effect(w, action, o, previous, next), outcomes.drop_first(), previous, next);
    }
}

/// Every change finishes, committed or failed, after at most five outside
/// steps.
pub proof fn lemma_change_finishes_within_five_steps(
    previous: SettingsView,
    next: SettingsView,
    resets: bool,
    outcomes: Seq<Outcome>,
)
    requires
        outcomes.len() >= 5,
    ensures
        ({
            let (c0, a0) = change_start(previous, next, resets);
            let (c, a, w) = run_change(c0, a0, world_before(previous), outcomes, previous, next);
            &&& c.stage is Finished
            &&& (a is Commit || a is Fail)
        }),
{
    let (c0, a0) = change_start(previous, next, resets);
    lemma_run_finishes(c0, a0, world_before(previous), outcomes, previous, next);
    lemma_finished_action(c0, a0, world_before(previous), outcomes, previous, next);
}

proof fn lemma_finished_action(
    c: SettingsChange,
    action: ChangeAction,
    w: ChangeWorld,
    outcomes: Seq<Outcome>,
    previous: SettingsView,
    next: SettingsView,
)
    requires
        c.stage is Finished ==> (action is Commit || action is Fail),
    ensures
        ({
            let (c2, a2, w2) = run_change(c, action, w, outcomes, previous, next);
            c2.stage is Finished ==> (a2 is Commit || a2 is Fail)
        }),
    decreases outcomes.len(),
{
    if outcomes.len() == 0 || c.stage is Finished {
    } else {
        let o = outcomes[0];
        let (c2, a2) = change_step(c, o);
        lemma_finished_action(c2, a2, step_effect(w, action, o, previous, next), outcomes.drop_first(), previous, next);
    }
}


/// Every step that a change asks for, from `action` on, when it receives
/// `outcomes` in turn.
pub open spec fn change_actions(c: SettingsChange, action: ChangeAction, outcomes: Seq<Outcome>) -> Seq<
    ChangeAction,
>
    decreases outcomes.len(),
{
    if outcomes.len() == 0 || c.stage is Finished {
        seq![action]
    } else {
        let (c2, a2) = change_step(c, outcomes[0]);
        seq![action] + change_actions(c2, a2, outcomes.drop_first())
    }
}

proof fn lemma_unchanged_shortcut_run(c: SettingsChange, action: ChangeAction, outcomes: Seq<Outcome>)
    requires
        !c.shortcut_changed,
        !(action is SwitchShortcut),
        !(c.stage is SwitchingShortcut),
        !(c.stage is RestoringShortcut),
    ensures
        forall|i: int|
            0 <= i < change_actions(c, action, outcomes).len() ==> !(#[trigger] change_actions(
                c,
                action,
                outcomes,
            )[i] is SwitchShortcut),
    decreases outcomes.len(),
{
    if outcomes.len() == 0 || c.stage is Finished {
    } else {
        let (c2, a2) = change_step(c, outcomes[0]);
        lemma_unchanged_shortcut_run(c2, a2, outcomes.drop_first());
        let rest = change_actions(c2, a2, outcomes.drop_first());
        assert forall|i: int| 0 <= i < change_actions(c, action, outcomes).len() implies !(
        #[trigger] change_actions(c, action, outcomes)[i] is SwitchShortcut) by {
            if i > 0 {
                assert(change_actions(c, action, outcomes)[i] == rest[i - 1]);
            }
        }
    }
}

/// A change (a save or a reset) that keeps the shortcut never asks to
/// unregister or register a shortcut, whatever its steps report.
pub proof fn lemma_unchanged_shortcut_is_never_switched(
    previous: SettingsView,
    next: SettingsView,
    resets: bool,
    outcomes: Seq<Outcome>,
)
    requires
        previous.shortcut == next.shortcut,
    ensures
        ({
            let (c0, a0) = change_start(previous, next, resets);
            forall|i: int|
                0 <= i < change_actions(c0, a0, outcomes).len() ==> !(#[trigger] change_actions(
                    c0,
                    a0,
                    outcomes,
                )[i] is SwitchShortcut)
        }),
{
    let (c0, a0) = change_start(previous, next, resets);
    lemma_unchanged_shortcut_run(c0, a0, outcomes);
}


proof fn lemma_save_run_keeps_marker(c: SettingsChange, action: ChangeAction, outcomes: Seq<Outcome>)
    requires
        !c.resets,
        !(action is RemoveOnboardingMarker),
        !(c.stage is RemovingMarker),
    ensures
        forall|i: int|
            0 <= i < change_actions(c, action, outcomes).len() ==> !(#[trigger] change_actions(
                c,
                action,
                outcomes,
            )[i] is RemoveOnboardingMarker),
    decreases outcomes.len(),
{
    if outcomes.len() == 0 || c.stage is Finished {
    } else {
        let (c2, a2) = change_step(c, outcomes[0]);
        lemma_save_run_keeps_marker(c2, a2, outcomes.drop_first());
        let rest = change_actions(c2, a2, outcomes.drop_first());
        assert forall|i: int| 0 <= i < change_actions(c, action, outcomes).len() implies !(
        #[trigger] change_actions(c, action, outcomes)[i] is RemoveOnboardingMarker) by {
            if i > 0 {
                assert(change_actions(c, action, outcomes)[i] == rest[i - 1]);
            }
        }
    }
}

/// A save (a change that is not a reset) never asks to remove the
/// onboarding marker, whatever its steps report.
pub proof fn lemma_save_never_removes_the_marker(
    previous: SettingsView,
    next: SettingsView,
    outcomes: Seq<Outcome>,
)
    ensures
        ({
            let (c0, a0) = change_start(previous, next, false);
            forall|i: int|
                0 <= i < change_actions(c0, a0, outcomes).len() ==> !(#[trigger] change_actions(
                    c0,
                    a0,
                    outcomes,
                )[i] is RemoveOnboardingMarker)
        }),
{
    let (c0, a0) = change_start(previous, next, false);
    lemma_save_run_keeps_marker(c0, a0, outcomes);
}

/// When every step succeeds, a change asks, in order: to switch the shortcut
/// from the previous to the new one (only if they differ), to set
/// start-at-login as the new settings say, to save them, to remove the
/// onboarding marker (only for a reset), and to commit; then it is over.
pub proof fn lemma_successful_change_steps(
    previous: SettingsView,
    next: SettingsView,
    resets: bool,
    outcomes: Seq<Outcome>,
)
    requires
        outcomes.len() >= 5,
        forall|i: int| 0 <= i < outcomes.len() ==> #[trigger] outcomes[i] is Succeeded,
    ensures
        ({
            let (c0, a0) = change_start(previous, next, resets);
            change_actions(c0, a0, outcomes) == (if previous.shortcut != next.shortcut {
                seq![ChangeAction::SwitchShortcut { from: Side::Previous, to: Side::Next }]
            } else {
                Seq::<ChangeAction>::empty()
            }) + seq![ChangeAction::SetAutostart { from: Side::Next }, ChangeAction::SaveNext] + (
            if resets {
                seq![ChangeAction::RemoveOnboardingMarker]
            } else {
                Seq::<ChangeAction>::empty()
            }) + seq![ChangeAction::Commit]
        }),
{
    let (c0, a0) = change_start(previous, next, resets);
    let o1 = outcomes.drop_first();
    let o2 = o1.drop_first();
    let o3 = o2.drop_first();
    let o4 = o3.drop_first();
    assert(outcomes[0] is Succeeded);
    assert(o1[0] == outcomes[1] && o1[0] is Succeeded);
    assert(o2[0] == outcomes[2] && o2[0] is Succeeded);
    assert(o3[0] == outcomes[3] && o3[0] is Succeeded);
    assert(o4.len() >= 1 && o4[0] == outcomes[4] && o4[0] is Succeeded);
    let (c1, a1) = change_step(c0, outcomes[0]);
    let (c2, a2) = change_step(c1, o1[0]);
    let (c3, a3) = change_step(c2, o2[0]);
    let (c4, a4) = change_step(c3, o3[0]);
    if previous.shortcut != next.shortcut {
        if resets {
            assert(c4.stage is Finished);
            assert(change_actions(c4, a4, o4) == seq![a4]);
            assert(change_actions(c3, a3, o3) == seq![a3] + change_actions(c4, a4, o4));
        } else {
            assert(c3.stage is Finished);
            assert(change_actions(c3, a3, o3) == seq![a3]);
        }
        assert(change_actions(c2, a2, o2) == seq![a2] + change_actions(c3, a3, o3));
    } else {
        if resets {
            assert(c3.stage is Finished);
            assert(change_actions(c3, a3, o3) == seq![a3]);
            assert(change_actions(c2, a2, o2) == seq![a2] + change_actions(c3, a3, o3));
        } else {
            assert(c2.stage is Finished);
            assert(change_actions(c2, a2, o2) == seq![a2]);
        }
    }
    assert(change_actions(c1, a1, o1) == seq![a1] + change_actions(c2, a2, o2));
    assert(change_actions(c0, a0, outcomes) == seq![a0] + change_actions(c1, a1, o1));
    assert(change_actions(c0, a0, outcomes) =~= (if previous.shortcut != next.shortcut {
        seq![ChangeAction::SwitchShortcut { from: Side::Previous, to: Side::Next }]
    } else {
        Seq::<ChangeAction>::empty()
    }) + seq![ChangeAction::SetAutostart { from: Side::Next }, ChangeAction::SaveNext] + (if resets {
        seq![ChangeAction::RemoveOnboardingMarker]
    } else {
        Seq::<ChangeAction>::empty()
    }) + seq![ChangeAction::Commit]);
}

} // verus!
