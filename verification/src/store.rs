//! The steps by which a message is stored, one after the other, each by what came of the one
//! before.
use crate::parse::HandledMail;
use vstd::prelude::*;

verus! {

/// What is done next to store a message.
#[derive(Debug, Clone, Copy, PartialEq, Eq, Structural)]
pub enum StoreAction {
    /// The attachments are saved.
    Save,
    /// The script that counts downloads is written.
    WriteCounter,
    /// The first rules of the directory are written.
    WriteRules,
    /// The download is recorded in the database.
    Record,
    /// The archive is made and put in its place.
    Pack,
    /// The note is written.
    WriteNote,
    /// The files that serve the download are written.
    WritePage,
    /// The attachments, which are in the archive now, are removed.
    Remove,
    /// Nothing more is done.
    Finish,
}

/// How far the storing of a message has come.
#[derive(Debug, Clone, Copy, PartialEq, Eq, Structural)]
pub struct StoreState {
    /// What is done next.
    pub action: StoreAction,
    /// Whether the archive is in its place.
    pub packed: bool,
    /// Whether the message counts as handled.
    pub handled: bool,
}

/// The start of storing. A message without attachments leaves nothing to store.
pub open spec fn first_step(has_attachments: bool) -> StoreState {
    if has_attachments {
        StoreState { action: StoreAction::Save, packed: false, handled: false }
    } else {
        StoreState { action: StoreAction::Finish, packed: false, handled: true }
    }
}

/// The start of storing a message.
pub fn start_storing(mail: &HandledMail) -> (r: StoreState)
    ensures
        r == first_step(mail@.attachments.len() > 0),
{
    if mail.attachments.len() > 0 {
        StoreState { action: StoreAction::Save, packed: false, handled: false }
    } else {
        StoreState { action: StoreAction::Finish, packed: false, handled: true }
    }
}

/// What follows the page, or the note where there is no page: the attachments are removed if
/// the archive is in its place.
pub open spec fn last_action(packed: bool) -> StoreAction {
    if packed {
        StoreAction::Remove
    } else {
        StoreAction::Finish
    }
}

/// What follows a step that has succeeded or failed. Attachments that cannot be saved end
/// it; a note that cannot be written has no page; all else goes on.
pub open spec fn step_after(s: StoreState, succeeded: bool) -> StoreState {
    match s.action {
        StoreAction::Save => if succeeded {
            StoreState { action: StoreAction::WriteCounter, handled: true, ..s }
        } else {
            StoreState { action: StoreAction::Finish, ..s }
        },
        StoreAction::WriteCounter => StoreState { action: StoreAction::WriteRules, ..s },
        StoreAction::WriteRules => StoreState { action: StoreAction::Record, ..s },
        StoreAction::Record => StoreState { action: StoreAction::Pack, ..s },
        StoreAction::Pack => StoreState { action: StoreAction::WriteNote, packed: succeeded, ..s },
        StoreAction::WriteNote => if succeeded {
            StoreState { action: StoreAction::WritePage, ..s }
        } else {
            StoreState { action: last_action(s.packed), ..s }
        },
        StoreAction::WritePage => StoreState { action: last_action(s.packed), ..s },
        StoreAction::Remove => StoreState { action: StoreAction::Finish, ..s },
        StoreAction::Finish => s,
    }
}

/// What follows a step that has succeeded or failed.
pub fn next_step(state: StoreState, succeeded: bool) -> (r: StoreState)
    ensures
        r == step_after(state, succeeded),
{
    let mut next = state;
    let last = if state.packed {
        StoreAction::Remove
    } else {
        StoreAction::Finish
    };
    match state.action {
        StoreAction::Save => {
            if succeeded {
                next.action = StoreAction::WriteCounter;
                next.handled = true;
            } else {
                next.action = StoreAction::Finish;
            }
        },
        StoreAction::WriteCounter => {
            next.action = StoreAction::WriteRules;
        },
        StoreAction::WriteRules => {
            next.action = StoreAction::Record;
        },
        StoreAction::Record => {
            next.action = StoreAction::Pack;
        },
        StoreAction::Pack => {
            next.action = StoreAction::WriteNote;
            next.packed = succeeded;
        },
        StoreAction::WriteNote => {
            if succeeded {
                next.action = StoreAction::WritePage;
            } else {
                next.action = last;
            }
        },
        StoreAction::WritePage => {
            next.action = last;
        },
        StoreAction::Remove => {
            next.action = StoreAction::Finish;
        },
        StoreAction::Finish => {},
    }
    next
}

/// How far storing has come after some steps, by what came of each.
pub open spec fn after_steps(s: StoreState, outcomes: Seq<bool>) -> StoreState
    decreases outcomes.len(),
{
    if outcomes.len() == 0 {
        s
    } else {
        step_after(after_steps(s, outcomes.drop_last()), outcomes.last())
    }
}

/// Where storing stands after some steps.
proof fn lemma_steps(outcomes: Seq<bool>)
    ensures
        ({
            let s = after_steps(first_step(true), outcomes);
            let n = outcomes.len();
            if n == 0 {
                s == first_step(true)
            } else if !outcomes[0] {
                s.action == StoreAction::Finish && !s.handled && !s.packed
            } else {
                &&& s.handled
                &&& n <= 4 ==> !s.packed
                &&& n == 1 ==> s.action == StoreAction::WriteCounter
                &&& n == 2 ==> s.action == StoreAction::WriteRules
                &&& n == 3 ==> s.action == StoreAction::Record
                &&& n == 4 ==> s.action == StoreAction::Pack
                &&& n == 5 ==> s.action == StoreAction::WriteNote
                &&& n >= 5 ==> s.packed == outcomes[4]
                &&& n == 6 && outcomes[5] ==> s.action == StoreAction::WritePage
                &&& n == 6 && !outcomes[5] ==> s.action == last_action(s.packed)
                &&& n == 7 && outcomes[5] ==> s.action == last_action(s.packed)
                &&& n == 7 && !outcomes[5] ==> s.action == StoreAction::Finish
                &&& n >= 8 ==> s.action == StoreAction::Finish
            }
        }),
    decreases outcomes.len(),
{
    if outcomes.len() > 0 {
        lemma_steps(outcomes.drop_last());
    }
}

/// Whatever comes of the steps, the attachments are removed only after they were saved and
/// the archive was put in its place, and the page is written only after the note was.
pub proof fn law_nothing_is_lost(outcomes: Seq<bool>)
    ensures
        after_steps(first_step(true), outcomes).action == StoreAction::Remove ==> outcomes.len()
            >= 6 && outcomes[0] && outcomes[4],
        after_steps(first_step(true), outcomes).action == StoreAction::WritePage ==> outcomes.len()
            == 6 && outcomes[0] && outcomes[5],
{
    lemma_steps(outcomes);
}

/// Whatever comes of the steps, storing ends after eight of them at the most, and a message
/// with attachments counts as handled exactly if they were saved; nothing but to save them
/// was tried if they were not.
pub proof fn law_handled_means_saved(outcomes: Seq<bool>)
    ensures
        outcomes.len() >= 8 ==> after_steps(first_step(true), outcomes).action
            == StoreAction::Finish,
        after_steps(first_step(true), outcomes).handled <==> outcomes.len() > 0 && outcomes[0],
        outcomes.len() > 0 && !outcomes[0] ==> after_steps(first_step(true), outcomes).action
            == StoreAction::Finish,
{
    lemma_steps(outcomes);
}

/// A message without attachments is handled, and nothing of it is stored.
pub proof fn law_nothing_to_store(outcomes: Seq<bool>)
    ensures
        after_steps(first_step(false), outcomes) == first_step(false),
        first_step(false).handled,
    decreases outcomes.len(),
{
    if outcomes.len() > 0 {
        law_nothing_to_store(outcomes.drop_last());
    }
}

/// Where every step succeeds they come in this order: the attachments are saved, the script
/// and the first rules are written, the download is recorded, the archive is made, the note
/// and the page are written, and the attachments are removed. To record, to write the script
/// or to write the rules may fail without an end to the rest.
pub proof fn law_steps_come_in_order(outcomes: Seq<bool>)
    requires
        outcomes.len() > 0,
        outcomes[0],
    ensures
        ({
            let action = after_steps(first_step(true), outcomes).action;
            let n = outcomes.len();
            &&& first_step(true).action == StoreAction::Save
            &&& n == 1 ==> action == StoreAction::WriteCounter
            &&& n == 2 ==> action == StoreAction::WriteRules
            &&& n == 3 ==> action == StoreAction::Record
            &&& n == 4 ==> action == StoreAction::Pack
            &&& n == 5 ==> action == StoreAction::WriteNote
            &&& n == 6 && outcomes[5] ==> action == StoreAction::WritePage
            &&& n == 6 && !outcomes[5] && outcomes[4] ==> action == StoreAction::Remove
            &&& n == 6 && !outcomes[5] && !outcomes[4] ==> action == StoreAction::Finish
            &&& n == 7 && outcomes[5] && outcomes[4] ==> action == StoreAction::Remove
            &&& n == 7 && outcomes[5] && !outcomes[4] ==> action == StoreAction::Finish
        }),
{
    lemma_steps(outcomes);
}

} // verus!
