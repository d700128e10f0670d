//! What replacing a file promises.

use crate::number::decimal;
use crate::replacing::{
    attempt_of, passes, replace_follows, temporary, FileFailure, ReplaceEvent, ReplaceNext,
    ReplaceStep,
};
use vstd::prelude::*;

verus! {

/// Whether the failure is one that comes from another program that has the file open.
pub open spec fn is_held(failure: FileFailure, os_code: Option<i32>) -> bool {
    match failure {
        FileFailure::PermissionDenied => true,
        FileFailure::WouldBlock => true,
        FileFailure::AlreadyExists => true,
        _ => os_code is Some && (os_code->0 == 5 || os_code->0 == 32 || os_code->0 == 33),
    }
}

/// A file that another program holds is tried again from the start, up to twenty more times. A
/// target that is not there is no failure. Any other failure ends the replacement.
pub proof fn held_files_are_tried_again(
    step: ReplaceStep,
    failure: FileFailure,
    os_code: Option<i32>,
)
    requires
        attempt_of(step) <= 20,
    ensures
        ({
            let next = replace_follows(step, ReplaceEvent::Failed { failure, os_code });
            let missing = step is Clear && failure is NotFound;
            &&& missing ==> next == ReplaceNext::Go(
                ReplaceStep::Place { attempt: attempt_of(step) },
            )
            &&& !missing && is_held(failure, os_code) && attempt_of(step) < 20 ==> (next matches
                ReplaceNext::Later(ReplaceStep::Clear { attempt }) && attempt == attempt_of(step)
                + 1)
            &&& !missing && is_held(failure, os_code) && attempt_of(step) == 20 ==> next is GiveUp
            &&& !missing && !is_held(failure, os_code) ==> next is GiveUp
        }),
        passes(failure, os_code) <==> is_held(failure, os_code),
{
}

/// The target is removed before the new file takes its place, in the same attempt.
pub proof fn targets_are_cleared_first(step: ReplaceStep)
    ensures
        step is Clear ==> replace_follows(step, ReplaceEvent::Done) == ReplaceNext::Go(
            ReplaceStep::Place { attempt: attempt_of(step) },
        ),
        step is Place ==> replace_follows(step, ReplaceEvent::Done) is Replaced,
{
}

/// The name of a new file begins with a dot and the name of its target, ends with `.tmp`, and is
/// another one for every id.
pub proof fn new_files_have_names_of_their_own(
    name: Seq<char>,
    process_id: u32,
    a: Seq<char>,
    b: Seq<char>,
)
    ensures
        ({
            let t = temporary(name, process_id, a);
            let n = name.len() as int;
            let d = decimal(process_id as nat);
            &&& t.len() == n + d.len() + a.len() + 7
            &&& t[0] == '.'
            &&& t.subrange(1, 1 + n) == name
            &&& t[1 + n] == '.'
            &&& t.subrange(2 + n, 2 + n + d.len()) == d
            &&& t[2 + n + d.len()] == '.'
            &&& t.subrange(3 + n + d.len(), 3 + n + d.len() + a.len()) == a
            &&& t.skip(t.len() - 4) == ".tmp"@
        }),
        a != b ==> temporary(name, process_id, a) != temporary(name, process_id, b),
{
    reveal_strlit(".");
    reveal_strlit(".tmp");
    let t = temporary(name, process_id, a);
    let u = temporary(name, process_id, b);
    let n = name.len() as int;
    let d = decimal(process_id as nat);
    assert(t.subrange(1, 1 + n) =~= name);
    assert(t.subrange(2 + n, 2 + n + d.len()) =~= d);
    assert(t.subrange(3 + n + d.len(), 3 + n + d.len() + a.len()) =~= a);
    assert(u.subrange(3 + n + d.len(), 3 + n + d.len() + b.len()) =~= b);
    assert(t.skip(t.len() - 4) =~= ".tmp"@);
    if t == u {
        assert(a.len() == b.len());
    }
}

} // verus!
