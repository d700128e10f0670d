//! What receipts say of the commands that they answer, and what becomes of the files of the queue.

use crate::api::{
    artifact_receipt, artifacts_receipt, lane_child_receipt, run_status_receipt,
    run_summary_receipt, service_receipt, ActionStatus, ArtifactText, Command, Receipt, Reply,
    RunFolder, RunResults,
};
use crate::dispatch::{index_receipt, IndexTally};
use crate::intents::{
    accepted_receipt_written, dispatch_ui_intent_started, intent_refusal, intent_stored,
    mark_intent_applied, ClosingError, IntentClosing, IntentStep, StoreFailure,
};
use crate::paths::joined_path;
use crate::queue::{
    poll_interval, processing_action, queue_action, receipt_is_due, with_json, ApiPaths,
    ProcessingAction, QueueAction,
};
use crate::text::{opt_text, texts};
use vstd::prelude::*;

verus! {

/// Whether a receipt is for a command: they share the identity, the sender and the version.
pub open spec fn is_for(r: Receipt, cmd: Command) -> bool {
    &&& r.action_id@ == cmd.action_id@
    &&& opt_text(r.actor) == opt_text(cmd.actor)
    &&& r.protocol_version == cmd.protocol_version
    &&& r.kind@ == cmd.command.id()
}

/// Whether a receipt ends well: it has its result and no error.
pub open spec fn ends_well(r: Receipt) -> bool {
    r.status == ActionStatus::Completed && r.error is None
}

/// Whether a receipt ends badly: it has no result, and says why.
pub open spec fn ends_badly(r: Receipt) -> bool {
    &&& r.status == ActionStatus::Error || r.status == ActionStatus::Rejected
    &&& r.result is Nothing
    &&& r.error is Some || r.note is Some
}

/// What the service did ends well with its reply; what it could not do ends badly with its reason.
pub proof fn service_receipts_tell_the_outcome(
    cmd: &Command,
    at: &str,
    outcome: Result<Reply, String>,
    r: Receipt,
)
    requires
        call_ensures(service_receipt, (cmd, at, outcome), r),
    ensures
        is_for(r, *cmd),
        r.started_at@ == at@,
        outcome is Ok ==> ends_well(r) && r.result == outcome->Ok_0,
        outcome is Err ==> ends_badly(r) && r.error is Some && r.error->0@ == outcome->Err_0@,
{
}

/// A run is completed where its results are found, and unknown otherwise; asking is no failure.
pub proof fn run_receipts_tell_what_was_found(
    cmd: &Command,
    at: &str,
    found: bool,
    r: Receipt,
    id: &str,
    results: RunResults,
    s: Receipt,
    folder: RunFolder,
    t: Receipt,
    text: ArtifactText,
    u: Receipt,
)
    requires
        call_ensures(run_status_receipt, (cmd, at, found), r),
        call_ensures(run_summary_receipt, (cmd, at, id, results), s),
        call_ensures(artifacts_receipt, (cmd, at, id, folder), t),
        call_ensures(artifact_receipt, (cmd, at, text), u),
    ensures
        is_for(r, *cmd) && is_for(s, *cmd) && is_for(t, *cmd) && is_for(u, *cmd),
        ends_well(r),
        r.result matches Reply::RunStatus { status, found: f } && f == found && (found ==> status@
            == "completed"@) && (!found ==> status@ == "unknown"@),
        results is Found <==> ends_well(s),
        !(results is Found) <==> ends_badly(s),
        results matches RunResults::Found(x) ==> s.result == Reply::Document(x),
        folder is Listed <==> ends_well(t),
        !(folder is Listed) <==> ends_badly(t),
        folder matches RunFolder::Listed(x) ==> t.result == Reply::Files(x),
        folder is Outside <==> t.status == ActionStatus::Rejected,
        text is Json || text is Plain <==> ends_well(u),
        text is Unreadable || text is Outside <==> ends_badly(u),
        text is Outside <==> u.status == ActionStatus::Rejected,
        text matches ArtifactText::Json(x) ==> u.result == Reply::Document(x),
        text matches ArtifactText::Plain(x) ==> u.result == Reply::Text(x),
{
}

/// The receipt of one lane of a batch has an identity of its own and names the command of the whole
/// batch; it ends with an error exactly where one is given.
pub proof fn lane_receipts_name_their_batch(
    cmd: &Command,
    id: &str,
    at: &str,
    result: Reply,
    error: Option<String>,
    r: Receipt,
)
    requires
        call_ensures(lane_child_receipt, (cmd, id, at, result, error), r),
    ensures
        r.action_id@ == id@,
        opt_text(r.actor) == opt_text(cmd.actor),
        r.result == result,
        error is Some <==> r.status == ActionStatus::Error,
        error is None <==> r.status == ActionStatus::Completed,
        opt_text(r.error) == opt_text(error),
        r.note is Some,
        ({
            let note = r.note->0@;
            let n = cmd.action_id@.len() as int;
            note.len() >= n && note.skip(note.len() - n) == cmd.action_id@
        }),
{
    let head = "child receipt for start_all_lane_batches "@;
    let note = head + cmd.action_id@;
    assert(note.skip(note.len() - cmd.action_id@.len()) =~= cmd.action_id@);
}

/// The receipt of an index counts what was done to each file. It fails exactly where a file failed,
/// and shows the first twenty of the failures.
pub proof fn index_receipts_count_the_files(
    cmd: &Command,
    at: &str,
    dir: &str,
    recursive: bool,
    files: usize,
    tally: &IndexTally,
    dim: usize,
    path: &str,
    r: Receipt,
    i: int,
)
    requires
        call_ensures(index_receipt, (cmd, at, dir, recursive, files, tally, dim, path), r),
    ensures
        is_for(r, *cmd),
        tally.failures@.len() == 0 <==> r.status == ActionStatus::Completed,
        tally.failures@.len() > 0 <==> r.status == ActionStatus::Error && r.error is Some,
        r.result matches Reply::Index(x) && {
            &&& x.dir@ == dir@ && x.index_path@ == path@
            &&& x.recursive == recursive && x.files == files && x.embedding_dim == dim
            &&& x.indexed == tally.indexed && x.already_cached == tally.cached
            &&& x.failed == tally.failures@.len()
            &&& x.failures@.len() <= 20 && x.failures@.len() <= tally.failures@.len()
            &&& tally.failures@.len() <= 20 ==> x.failures@.len() == tally.failures@.len()
            &&& tally.failures@.len() > 20 ==> x.failures@.len() == 20
            &&& 0 <= i < x.failures@.len() ==> x.failures@[i]@ == tally.failures@[i]@
        },
{
    if let Reply::Index(x) = r.result {
        let shown = texts(x.failures@);
        assert(shown.len() == x.failures@.len());
        assert(texts(tally.failures@).len() == tally.failures@.len());
        if 0 <= i < x.failures@.len() {
            assert(shown[i] == x.failures@[i]@);
            assert(texts(tally.failures@)[i] == tally.failures@[i]@);
        }
    }
}

/// A command is carried out at most once: with a receipt its file goes, in the queue as in work;
/// without one it is taken out of the queue, and put back where it was left in work.
pub proof fn commands_with_receipts_are_done(
    paths: &ApiPaths,
    name: &str,
    has_receipt: bool,
    r: QueueAction,
    s: ProcessingAction,
)
    requires
        call_ensures(queue_action, (paths, name, has_receipt), r),
        call_ensures(processing_action, (paths, name, has_receipt), s),
    ensures
        r is Drop <==> has_receipt,
        s is Drop ==> has_receipt,
        s is Requeue ==> !has_receipt && s->Requeue_target@ == joined_path(
            paths.style,
            paths.commands@,
            name@,
        ),
        has_receipt ==> !(s is Requeue) && !(r is Claim),
        (exists|stem: Seq<char>| name@ == #[trigger] with_json(stem)) ==> !(s is Ignore),
        s is Ignore ==> !(exists|stem: Seq<char>| name@ == #[trigger] with_json(stem)),
{
    crate::dispatch_laws::protocol_files_end_with_json(name@);
}

/// Every receipt but that of an accepted intent is still to be written, and the queue is looked at
/// again as soon as was asked for, but not without any pause.
pub proof fn receipts_are_due_but_for_intents(receipt: &Receipt, due: bool, ms: u64, pause: u64)
    requires
        call_ensures(receipt_is_due, (receipt,), due),
        call_ensures(poll_interval, (ms,), pause),
    ensures
        !due <==> receipt.status == ActionStatus::Accepted,
        pause > 0,
        ms > 0 ==> pause == ms,
        pause <= ms + 1,
{
}

/// An intent that is well formed is accepted: its receipt is written, then the intent itself. One
/// that is not is rejected, and one that could not be written ends with an error that says why.
pub proof fn intents_are_accepted_or_refused(
    paths: &ApiPaths,
    cmd: &Command,
    at: &str,
    step: IntentStep,
    written: Result<(), String>,
    next: Result<String, Receipt>,
    accepted: Receipt,
    stored: Result<(), StoreFailure>,
    last: Receipt,
)
    requires
        call_ensures(dispatch_ui_intent_started, (paths, cmd, at), step),
        call_ensures(accepted_receipt_written, (paths, cmd, at, written), next),
        call_ensures(intent_stored, (cmd, at, accepted, stored), last),
    ensures
        step is Refused <==> intent_refusal(cmd.command) is Some,
        step matches IntentStep::Refused(r) ==> is_for(r, *cmd) && r.status
            == ActionStatus::Rejected && ends_badly(r),
        step matches IntentStep::Accept { receipt_path, receipt } ==> is_for(receipt, *cmd)
            && receipt.status == ActionStatus::Accepted && receipt.error is None
            && receipt_path@ == joined_path(
            paths.style,
            paths.receipts@,
            with_json(cmd.action_id@),
        ),
        written is Ok <==> next is Ok,
        next is Ok ==> next->Ok_0@ == joined_path(
            paths.style,
            paths.intents@,
            with_json(cmd.action_id@),
        ),
        next is Err ==> is_for(next->Err_0, *cmd) && next->Err_0.status == ActionStatus::Error
            && ends_badly(next->Err_0),
        stored is Ok ==> last == accepted,
        stored is Err ==> is_for(last, *cmd) && last.status == ActionStatus::Error && ends_badly(
            last,
        ),
{
    crate::dispatch_laws::intents_are_refused_for_a_reason(cmd.command);
}

/// A window closes an intent only with a final receipt and only where it holds the claim. What it
/// then writes and removes belongs to the intent of the receipt.
pub proof fn windows_close_their_own_intents(
    paths: &ApiPaths,
    receipt: &Receipt,
    process_id: u32,
    claimed: bool,
    r: Result<IntentClosing, ClosingError>,
)
    requires
        call_ensures(mark_intent_applied, (paths, receipt, process_id, claimed), r),
    ensures
        r is Ok <==> claimed && (receipt.status == ActionStatus::Applied || receipt.status
            == ActionStatus::Rejected),
        r is Ok ==> {
            let plan = r->Ok_0;
            let name = with_json(receipt.action_id@);
            &&& plan.receipt_path@ == joined_path(paths.style, paths.receipts@, name)
            &&& plan.record_path@ == joined_path(paths.style, paths.intents_applied@, name)
        },
        r matches Err(ClosingError::NotOwned(m)) ==> !claimed,
        r matches Err(ClosingError::NotFinal(m)) ==> receipt.status != ActionStatus::Applied
            && receipt.status != ActionStatus::Rejected,
{
}

} // verus!
