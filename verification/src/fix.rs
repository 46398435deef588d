//! The decisions of fixing the selected text: copy the selection, convert
//! it to the other layout, paste it back, and give the clipboard its old
//! contents again.
use vstd::prelude::*;
use crate::layout::{convert_layout, converted};
use crate::text::{is_blank, is_white_space, string_of, trimmed, lemma_trimmed_empty_iff_all_white};

verus! {

/// The message when the selection is empty or only white space.
pub open spec fn empty_selection_message() -> Seq<char> {
    "Не удалось получить выделенный текст"@
}

/// The outside step that fixing the selected text asks for next.
pub enum FixAction {
    /// Wait 120 ms, open the clipboard, read its text, and get the keyboard.
    Prepare,
    /// Press Command+C, wait 300 ms, and read the clipboard.
    CopySelection,
    /// Put this text on the clipboard, wait 150 ms, and press Command+V.
    PasteText { text: String },
    /// Wait 250 ms and put this text back on the clipboard.
    RestoreClipboard { text: String },
    /// The fix is over, with this result.
    Done { result: Result<(), String> },
}

/// A [`FixAction`] with its texts taken as plain values.
pub enum FixActionView {
    Prepare,
    CopySelection,
    PasteText { text: Seq<char> },
    RestoreClipboard { text: Seq<char> },
    Done { result: Result<(), Seq<char>> },
}

impl View for FixAction {
    type V = FixActionView;

    open spec fn view(&self) -> FixActionView {
        match self {
            FixAction::Prepare => FixActionView::Prepare,
            FixAction::CopySelection => FixActionView::CopySelection,
            FixAction::PasteText { text } => FixActionView::PasteText { text: text@ },
            FixAction::RestoreClipboard { text } => FixActionView::RestoreClipboard { text: text@ },
            FixAction::Done { result } => FixActionView::Done {
                result: match result {
                    Ok(()) => Ok(()),
                    Err(e) => Err(e@),
                },
            },
        }
    }
}

/// What the last outside step of a fix reported.
pub enum FixEvent {
    /// The clipboard and keyboard are ready; this was the clipboard's text,
    /// if it held any.
    Prepared { previous_clipboard: Option<String> },
    /// The selection was copied; this is the clipboard's text now.
    Copied { selection: String },
    /// The converted text was pasted.
    Pasted,
    /// The old clipboard text was put back (or putting it back failed).
    Restored,
    /// The step failed with this message (a failure to put the old clipboard
    /// text back does not fail the fix).
    Failed { message: String },
}

/// A [`FixEvent`] with its texts taken as plain values.
pub enum FixEventView {
    Prepared { previous_clipboard: Option<Seq<char>> },
    Copied { selection: Seq<char> },
    Pasted,
    Restored,
    Failed { message: Seq<char> },
}

/// An optional text taken by its view.
pub open spec fn text_view(t: Option<String>) -> Option<Seq<char>> {
    match t {
        Some(s) => Some(s@),
        None => None,
    }
}

impl View for FixEvent {
    type V = FixEventView;

    open spec fn view(&self) -> FixEventView {
        match self {
            FixEvent::Prepared { previous_clipboard } => FixEventView::Prepared {
                previous_clipboard: text_view(*previous_clipboard),
            },
            FixEvent::Copied { selection } => FixEventView::Copied { selection: selection@ },
            FixEvent::Pasted => FixEventView::Pasted,
            FixEvent::Restored => FixEventView::Restored,
            FixEvent::Failed { message } => FixEventView::Failed { message: message@ },
        }
    }
}

/// Where a fix stands.
pub enum FixStage {
    Preparing,
    Copying { previous_clipboard: Option<String> },
    Pasting { previous_clipboard: Option<String> },
    Restoring,
    Finished,
}

/// A [`FixStage`] with its texts taken as plain values.
pub enum FixStageView {
    Preparing,
    Copying { previous_clipboard: Option<Seq<char>> },
    Pasting { previous_clipboard: Option<Seq<char>> },
    Restoring,
    Finished,
}

impl View for FixStage {
    type V = FixStageView;

    open spec fn view(&self) -> FixStageView {
        match self {
            FixStage::Preparing => FixStageView::Preparing,
            FixStage::Copying { previous_clipboard } => FixStageView::Copying {
                previous_clipboard: text_view(*previous_clipboard),
            },
            FixStage::Pasting { previous_clipboard } => FixStageView::Pasting {
                previous_clipboard: text_view(*previous_clipboard),
            },
            FixStage::Restoring => FixStageView::Restoring,
            FixStage::Finished => FixStageView::Finished,
        }
    }
}

/// An optional action taken by its view.
pub open spec fn action_view(a: Option<FixAction>) -> Option<FixActionView> {
    match a {
        Some(x) => Some(x@),
        None => None,
    }
}

/// Starts fixing the selected text.
pub fn begin_fix() -> (r: (FixStage, FixAction))
    ensures
        r.0@ == FixStageView::Preparing,
        r.1@ == FixActionView::Prepare,
{
    (FixStage::Preparing, FixAction::Prepare)
}

/// The step of a fix after `event`. A failure ends the fix with its message,
/// except a failure to put the old clipboard text back, which is ignored.
/// A selection that is empty once trimmed ends it with an error; otherwise
/// the selection converted by `convert_layout` is pasted; after the paste,
/// the old clipboard text, if there was one, is put back; the fix then
/// succeeds. An event that does not answer the step asked for changes
/// nothing and asks for nothing.
pub open spec fn fix_step(stage: FixStageView, event: FixEventView) -> (FixStageView, Option<FixActionView>) {
    match event {
        FixEventView::Failed { message } => if stage is Finished {
            (stage, None)
        } else if stage is Restoring {
            (FixStageView::Finished, Some(FixActionView::Done { result: Ok(()) }))
        } else {
            (FixStageView::Finished, Some(FixActionView::Done { result: Err(message) }))
        },
        FixEventView::Prepared { previous_clipboard } => match stage {
            FixStageView::Preparing => (
                FixStageView::Copying { previous_clipboard },
                Some(FixActionView::CopySelection),
            ),
            _ => (stage, None),
        },
        FixEventView::Copied { selection } => match stage {
            FixStageView::Copying { previous_clipboard } => if trimmed(selection).len() == 0 {
                (
                    FixStageView::Finished,
                    Some(FixActionView::Done { result: Err(empty_selection_message()) }),
                )
            } else {
                (
                    FixStageView::Pasting { previous_clipboard },
                    Some(FixActionView::PasteText { text: converted(selection) }),
                )
            },
            _ => (stage, None),
        },
        FixEventView::Pasted => match stage {
            FixStageView::Pasting { previous_clipboard } => match previous_clipboard {
                Some(text) => (FixStageView::Restoring, Some(FixActionView::RestoreClipboard { text })),
                None => (FixStageView::Finished, Some(FixActionView::Done { result: Ok(()) })),
            },
            _ => (stage, None),
        },
        FixEventView::Restored => match stage {
            FixStageView::Restoring => (
                FixStageView::Finished,
                Some(FixActionView::Done { result: Ok(()) }),
            ),
            _ => (stage, None),
        },
    }
}

/// Advances a fix by the report of its last step (see [`fix_step`]).
pub fn advance_fix(stage: FixStage, event: FixEvent) -> (r: (FixStage, Option<FixAction>))
    ensures
        (r.0@, action_view(r.1)) == fix_step(stage@, event@),
{
    match event {
        FixEvent::Failed { message } => match stage {
            FixStage::Finished => (FixStage::Finished, None),
            FixStage::Restoring => (FixStage::Finished, Some(FixAction::Done { result: Ok(()) })),
            _ => (FixStage::Finished, Some(FixAction::Done { result: Err(message) })),
        },
        FixEvent::Prepared { previous_clipboard } => match stage {
            FixStage::Preparing => (
                FixStage::Copying { previous_clipboard },
                Some(FixAction::CopySelection),
            ),
            _ => (stage, None),
        },
        FixEvent::Copied { selection } => match stage {
            FixStage::Copying { previous_clipboard } => if is_blank(selection.as_str()) {
                (
                    FixStage::Finished,
                    Some(FixAction::Done { result: Err(string_of("Не удалось получить выделенный текст")) }),
                )
            } else {
                let text = convert_layout(selection.as_str());
                (FixStage::Pasting { previous_clipboard }, Some(FixAction::PasteText { text }))
            },
            _ => (stage, None),
        },
        FixEvent::Pasted => match stage {
            FixStage::Pasting { previous_clipboard } => match previous_clipboard {
                Some(text) => (FixStage::Restoring, Some(FixAction::RestoreClipboard { text })),
                None => (FixStage::Finished, Some(FixAction::Done { result: Ok(()) })),
            },
            _ => (stage, None),
        },
        FixEvent::Restored => match stage {
            FixStage::Restoring => (FixStage::Finished, Some(FixAction::Done { result: Ok(()) })),
            _ => (stage, None),
        },
    }
}


/// The steps a fix asks for when it receives `events` in turn, starting at
/// `stage`.
pub open spec fn fix_run(stage: FixStageView, events: Seq<FixEventView>) -> Seq<FixActionView>
    decreases events.len(),
{
    if events.len() == 0 {
        seq![]
    } else {
        let (next, action) = fix_step(stage, events[0]);
        let first = match action {
            Some(a) => seq![a],
            None => seq![],
        };
        first + fix_run(next, events.drop_first())
    }
}

/// A step that a fix may ask for after `events`: a paste of the conversion
/// of a copied selection that is not blank, or a restore of the clipboard
/// text reported before the copy, or a step that writes nothing.
pub open spec fn step_justified(a: FixActionView, events: Seq<FixEventView>) -> bool {
    match a {
        FixActionView::PasteText { text } => exists|i: int|
            0 <= i < events.len() && (#[trigger] events[i] matches FixEventView::Copied { selection }
                && text == converted(selection) && trimmed(selection).len() > 0),
        FixActionView::RestoreClipboard { text } => exists|i: int|
            0 <= i < events.len() && #[trigger] events[i] == (FixEventView::Prepared {
                previous_clipboard: Some(text),
            }),
        _ => true,
    }
}

proof fn lemma_fix_run_justified(
    stage: FixStageView,
    history: Seq<FixEventView>,
    events: Seq<FixEventView>,
)
    requires
        match stage {
            FixStageView::Copying { previous_clipboard: Some(t) } => step_justified(
                FixActionView::RestoreClipboard { text: t },
                history,
            ),
            FixStageView::Pasting { previous_clipboard: Some(t) } => step_justified(
                FixActionView::RestoreClipboard { text: t },
                history,
            ),
            _ => true,
        },
    ensures
        forall|i: int|
            0 <= i < fix_run(stage, events).len() ==> step_justified(
                #[trigger] fix_run(stage, events)[i],
                history + events,
            ),
    decreases events.len(),
{
    if events.len() > 0 {
        let e = events[0];
        let (next, action) = fix_step(stage, e);
        let h2 = history.push(e);
        assert(h2 + events.drop_first() =~= history + events);
        assert(history + events =~= h2 + events.drop_first());
        assert((history + events)[history.len() as int] == e);
        assert forall|j: int| 0 <= j < history.len() implies (history + events)[j] == #[trigger] history[j] by {}
        match next {
            FixStageView::Copying { previous_clipboard: Some(t) } => {
                if e == (FixEventView::Prepared { previous_clipboard: Some(t) }) {
                    assert(h2[history.len() as int] == e);
                } else {
                    assert(stage == next);
                    let w = choose|i: int| 0 <= i < history.len() && #[trigger] history[i] == (FixEventView::Prepared {
                        previous_clipboard: Some(t),
                    });
                    assert(h2[w] == history[w]);
                }
            },
            FixStageView::Pasting { previous_clipboard: Some(t) } => {
                let w = choose|i: int| 0 <= i < history.len() && #[trigger] history[i] == (FixEventView::Prepared {
                    previous_clipboard: Some(t),
                });
                assert(h2[w] == history[w]);
            },
            _ => {},
        }
        lemma_fix_run_justified(next, h2, events.drop_first());
        let rest = fix_run(next, events.drop_first());
        let first = match action {
            Some(a) => seq![a],
            None => seq![],
        };
        assert(fix_run(stage, events) == first + rest);
        assert forall|i: int| 0 <= i < fix_run(stage, events).len() implies step_justified(
            #[trigger] fix_run(stage, events)[i],
            history + events,
        ) by {
            if i < first.len() {
                let a = action.unwrap();
                assert(fix_run(stage, events)[i] == a);
                match a {
                    FixActionView::PasteText { text } => {
                        assert((history + events)[history.len() as int] == e);
                    },
                    FixActionView::RestoreClipboard { text } => {
                        let w = choose|i: int| 0 <= i < history.len() && #[trigger] history[i] == (FixEventView::Prepared {
                            previous_clipboard: Some(text),
                        });
                        assert((history + events)[w] == history[w]);
                    },
                    _ => {},
                }
            } else {
                assert(fix_run(stage, events)[i] == rest[i - first.len()]);
            }
        }
    }
}

/// Whatever the outside steps report, a fix pastes nothing but the layout
/// conversion of a selection it copied that is not blank, and puts nothing
/// back on the clipboard but the text the clipboard held before.
pub proof fn lemma_fix_writes_only_conversions_and_old_text(events: Seq<FixEventView>)
    ensures
        forall|i: int|
            0 <= i < fix_run(FixStageView::Preparing, events).len() ==> step_justified(
                #[trigger] fix_run(FixStageView::Preparing, events)[i],
                events,
            ),
{
    lemma_fix_run_justified(FixStageView::Preparing, seq![], events);
    assert(Seq::<FixEventView>::empty() + events =~= events);
}


/// Once the converted text is pasted, the fix succeeds: putting the old
/// clipboard text back is asked for when there was one, and whatever that
/// step reports, the fix then ends without error.
pub proof fn lemma_fix_succeeds_once_pasted(previous: Option<Seq<char>>, report: FixEventView)
    requires
        report is Restored || report is Failed,
    ensures
        ({
            let (stage, action) = fix_step(FixStageView::Pasting { previous_clipboard: previous }, FixEventView::Pasted);
            match previous {
                Some(text) => {
                    &&& action == Some(FixActionView::RestoreClipboard { text })
                    &&& fix_step(stage, report) == (
                        FixStageView::Finished,
                        Some(FixActionView::Done { result: Ok(()) }),
                    )
                },
                None => action == Some(FixActionView::Done { result: Ok(()) }),
            }
        }),
{
}


/// A copied selection with any character that is not white space (a single
/// letter is enough) is pasted converted to the other layout; only a
/// selection of white space alone, or an empty one, ends the fix with the
/// empty-selection error.
pub proof fn lemma_copied_selection_is_pasted_unless_blank(
    previous: Option<Seq<char>>,
    selection: Seq<char>,
)
    ensures
        (exists|i: int| 0 <= i < selection.len() && !is_white_space(#[trigger] selection[i])) ==> fix_step(
            FixStageView::Copying { previous_clipboard: previous },
            FixEventView::Copied { selection },
        ) == (
            FixStageView::Pasting { previous_clipboard: previous },
            Some(FixActionView::PasteText { text: converted(selection) }),
        ),
        (forall|i: int| 0 <= i < selection.len() ==> is_white_space(#[trigger] selection[i])) ==> fix_step(
            FixStageView::Copying { previous_clipboard: previous },
            FixEventView::Copied { selection },
        ) == (
            FixStageView::Finished,
            Some(FixActionView::Done { result: Err("Не удалось получить выделенный текст"@) }),
        ),
{
    lemma_trimmed_empty_iff_all_white(selection);
}

} // verus!
