//! How a file is replaced as a whole: it is written next to its target under a name of its own,
//! the target is cleared away, and the new file takes its place.

use crate::number::{decimal, decimal_text};
use crate::outside::{is_hyphenated, random_id};
use crate::queue::is_queue_file;
use crate::text::cat3;
use vstd::prelude::*;

verus! {

/// How often a replacement is tried while someone reads the target.
pub const REPLACE_ATTEMPTS: u32 = 21;

/// Why a file could not be removed or renamed.
#[derive(Clone, Copy, Debug, PartialEq, Eq, Structural)]
pub enum FileFailure {
    NotFound,
    PermissionDenied,
    WouldBlock,
    AlreadyExists,
    Other,
}

/// Whether a failure passes: someone else holds the file for a moment. The codes are those of the
/// operating system for a denied access, a sharing violation and a lock violation.
pub open spec fn passes(failure: FileFailure, os_code: Option<i32>) -> bool {
    ||| failure is PermissionDenied
    ||| failure is WouldBlock
    ||| failure is AlreadyExists
    ||| os_code == Some(5i32)
    ||| os_code == Some(32i32)
    ||| os_code == Some(33i32)
}

/// What is done to the files next, in which attempt.
#[derive(Clone, Copy, Debug, PartialEq, Eq, Structural)]
pub enum ReplaceStep {
    /// The target is removed.
    Clear { attempt: u32 },
    /// The new file is renamed to the target.
    Place { attempt: u32 },
}

/// What came of it.
#[derive(Clone, Copy, Debug, PartialEq, Eq, Structural)]
pub enum ReplaceEvent {
    Done,
    Failed { failure: FileFailure, os_code: Option<i32> },
}

#[derive(Clone, Copy, Debug, PartialEq, Eq, Structural)]
pub enum ReplaceNext {
    Go(ReplaceStep),
    /// After a moment.
    Later(ReplaceStep),
    Replaced,
    /// The new file is removed and the last failure returned.
    GiveUp,
}

pub open spec fn attempt_of(step: ReplaceStep) -> u32 {
    match step {
        ReplaceStep::Clear { attempt } => attempt,
        ReplaceStep::Place { attempt } => attempt,
    }
}

/// What follows a step: a target that is not there need not be removed, and a failure that passes
/// starts the next attempt, as long as there is one.
pub open spec fn replace_follows(step: ReplaceStep, event: ReplaceEvent) -> ReplaceNext {
    match event {
        ReplaceEvent::Done => match step {
            ReplaceStep::Clear { attempt } => ReplaceNext::Go(ReplaceStep::Place { attempt }),
            ReplaceStep::Place { .. } => ReplaceNext::Replaced,
        },
        ReplaceEvent::Failed { failure, os_code } => if step is Clear && failure is NotFound {
            ReplaceNext::Go(ReplaceStep::Place { attempt: attempt_of(step) })
        } else if passes(failure, os_code) && attempt_of(step) + 1 < REPLACE_ATTEMPTS {
            ReplaceNext::Later(ReplaceStep::Clear { attempt: (attempt_of(step) + 1) as u32 })
        } else {
            ReplaceNext::GiveUp
        },
    }
}

/// The step that a replacement begins with.
pub fn first_replacement() -> (r: ReplaceStep)
    ensures
        r == (ReplaceStep::Clear { attempt: 0 }),
{
    ReplaceStep::Clear { attempt: 0 }
}

/// The step that follows another.
pub fn next_replacement(step: ReplaceStep, event: ReplaceEvent) -> (r: ReplaceNext)
    ensures
        r == replace_follows(step, event),
{
    match event {
        ReplaceEvent::Done => match step {
            ReplaceStep::Clear { attempt } => ReplaceNext::Go(ReplaceStep::Place { attempt }),
            ReplaceStep::Place { .. } => ReplaceNext::Replaced,
        },
        ReplaceEvent::Failed { failure, os_code } => {
            let (attempt, clearing): (u32, bool) = match step {
                ReplaceStep::Clear { attempt } => (attempt, true),
                ReplaceStep::Place { attempt } => (attempt, false),
            };
            if clearing && failure == FileFailure::NotFound {
                return ReplaceNext::Go(ReplaceStep::Place { attempt });
            }
            let held = match os_code {
                Some(code) => code == 5 || code == 32 || code == 33,
                None => false,
            };
            let passing = failure == FileFailure::PermissionDenied || failure
                == FileFailure::WouldBlock || failure == FileFailure::AlreadyExists || held;
            if passing && attempt < REPLACE_ATTEMPTS - 1 {
                ReplaceNext::Later(ReplaceStep::Clear { attempt: attempt + 1 })
            } else {
                ReplaceNext::GiveUp
            }
        },
    }
}

/// How many steps may still follow.
pub open spec fn steps_left(step: ReplaceStep) -> int {
    match step {
        ReplaceStep::Clear { attempt } => 2 * (REPLACE_ATTEMPTS - attempt),
        ReplaceStep::Place { attempt } => 2 * (REPLACE_ATTEMPTS - attempt) - 1,
    }
}

/// A replacement ends: every step leaves fewer to follow, whatever comes of it.
pub proof fn replacements_end(step: ReplaceStep, event: ReplaceEvent)
    requires
        attempt_of(step) < REPLACE_ATTEMPTS,
    ensures
        match replace_follows(step, event) {
            ReplaceNext::Go(next) => 0 < steps_left(next) < steps_left(step),
            ReplaceNext::Later(next) => 0 < steps_left(next) < steps_left(step),
            _ => true,
        },
{
}

/// A target counts as replaced only when the new file has taken its place.
pub proof fn replaced_means_placed(step: ReplaceStep, event: ReplaceEvent)
    ensures
        replace_follows(step, event) is Replaced <==> step is Place && event is Done,
{
}

/// The name of the new file while it is written.
pub open spec fn temporary(name: Seq<char>, process_id: u32, id: Seq<char>) -> Seq<char> {
    "."@ + name + "."@ + decimal(process_id as nat) + "."@ + id + ".tmp"@
}

/// The name of a new file next to the target of the given name, for a process and an id.
pub fn temporary_name_as(name: &str, process_id: u32, id: &str) -> (r: String)
    ensures
        r@ == temporary(name@, process_id, id@),
{
    let digits = decimal_text(process_id as u64);
    let mut s = cat3(".", name, ".");
    s.append(digits.as_str());
    s.append(".");
    s.append(id);
    s.append(".tmp");
    s
}

/// The name of a new file next to the target of the given name. No other writer has it.
pub fn temporary_name(name: &str, process_id: u32) -> (r: String)
    ensures
        exists|id: Seq<char>|
            is_hyphenated(id) && r@ == #[trigger] temporary(name@, process_id, id),
{
    let id = random_id();
    let r = temporary_name_as(name, process_id, id.as_str());
    assert(r@ == temporary(name@, process_id, id@));
    r
}

/// A file that is still written is never taken for a command or an intent.
pub proof fn temporary_files_are_not_commands(name: Seq<char>, process_id: u32, id: Seq<char>)
    ensures
        !is_queue_file(temporary(name, process_id, id)),
{
    let t = temporary(name, process_id, id);
    assert(t.skip(t.len() - ".tmp"@.len()) =~= ".tmp"@);
}

} // verus!
