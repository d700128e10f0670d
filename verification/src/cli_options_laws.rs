//! What the options of the queue and of the window's inspection promise, and what a run ends with.

use crate::api::ActionStatus;
use crate::cli::{
    cli_entry, command_source, exit_code_for_status, inspect_options, queue_options,
    worst_exit_code, CommandSource, Entry,
};
use crate::intents::is_tab;
use crate::number::unsigned_value;
use vstd::prelude::*;

verus! {

proof fn lemma_queue_words()
    ensures
        "--once"@.len() == 6,
        "--watch"@.len() == 7,
        "--poll-ms"@.len() == 9,
{
    reveal_strlit("--once");
    reveal_strlit("--watch");
    reveal_strlit("--poll-ms");
}

proof fn lemma_queue_options(args: Seq<Seq<char>>, i: nat, watch: bool, poll_ms: nat, more: Seq<Seq<char>>)
    requires
        i <= args.len(),
        queue_options(args, i, watch, poll_ms) is Ok,
    ensures
        ({
            let (w, p) = queue_options(args, i, watch, poll_ms)->Ok_0;
            queue_options(args + more, i, watch, poll_ms) == queue_options(
                args + more,
                args.len(),
                w,
                p,
            )
        }),
    decreases args.len() - i,
{
    let all = args + more;
    if i < args.len() {
        assert(all[i as int] == args[i as int]);
        if args[i as int] == "--once"@ {
            lemma_queue_options(args, i + 1, false, poll_ms, more);
        } else if args[i as int] == "--watch"@ {
            lemma_queue_options(args, i + 1, true, poll_ms, more);
        } else if args[i as int] == "--poll-ms"@ {
            assert(all[i as int + 1] == args[i as int + 1]);
            lemma_queue_options(
                args,
                i + 2,
                watch,
                unsigned_value(args[i as int + 1], u64::MAX as nat)->0,
                more,
            );
        }
    }
}

/// The queue is worked through once unless the last word on it is to watch it, every quarter of a
/// second unless another time is given. A later option counts before an earlier one, and an option
/// that is not known or has no number is refused.
pub proof fn later_queue_options_count(args: Seq<Seq<char>>, number: Seq<char>, other: Seq<char>)
    requires
        queue_options(args, 0, false, 250) is Ok,
    ensures
        queue_options(Seq::empty(), 0, false, 250) == Ok::<(bool, nat), Seq<char>>((false, 250)),
        ({
            let (w, p) = queue_options(args, 0, false, 250)->Ok_0;
            &&& queue_options(args.push("--watch"@), 0, false, 250) == Ok::<(bool, nat), Seq<char>>(
                (true, p),
            )
            &&& queue_options(args.push("--once"@), 0, false, 250) == Ok::<(bool, nat), Seq<char>>(
                (false, p),
            )
            &&& unsigned_value(number, u64::MAX as nat) is Some ==> queue_options(
                args.push("--poll-ms"@).push(number),
                0,
                false,
                250,
            ) == Ok::<(bool, nat), Seq<char>>((w, unsigned_value(number, u64::MAX as nat)->0))
            &&& unsigned_value(number, u64::MAX as nat) is None ==> queue_options(
                args.push("--poll-ms"@).push(number),
                0,
                false,
                250,
            ) is Err
            &&& queue_options(args.push("--poll-ms"@), 0, false, 250) is Err
            &&& other != "--watch"@ && other != "--once"@ ==> queue_options(
                args.push(other),
                0,
                false,
                250,
            ) is Err
        }),
{
    lemma_queue_words();
    let (w, p) = queue_options(args, 0, false, 250)->Ok_0;
    let n = args.len();
    let a = args.push("--watch"@);
    let b = args.push("--once"@);
    let c = args.push("--poll-ms"@).push(number);
    let d = args.push("--poll-ms"@);
    let e = args.push(other);
    assert(a =~= args + seq!["--watch"@]);
    assert(b =~= args + seq!["--once"@]);
    assert(c =~= args + seq!["--poll-ms"@, number]);
    assert(d =~= args + seq!["--poll-ms"@]);
    assert(e =~= args + seq![other]);
    lemma_queue_options(args, 0, false, 250, seq!["--watch"@]);
    lemma_queue_options(args, 0, false, 250, seq!["--once"@]);
    lemma_queue_options(args, 0, false, 250, seq!["--poll-ms"@, number]);
    lemma_queue_options(args, 0, false, 250, seq!["--poll-ms"@]);
    lemma_queue_options(args, 0, false, 250, seq![other]);
    assert(a[n as int] == "--watch"@ && b[n as int] == "--once"@ && c[n as int] == "--poll-ms"@
        && d[n as int] == "--poll-ms"@ && e[n as int] == other && c[n as int + 1] == number);
    assert(queue_options(a, n + 1, true, p) == Ok::<(bool, nat), Seq<char>>((true, p)));
    assert(queue_options(b, n + 1, false, p) == Ok::<(bool, nat), Seq<char>>((false, p)));
    if unsigned_value(number, u64::MAX as nat) is Some {
        let v = unsigned_value(number, u64::MAX as nat)->0;
        assert(queue_options(c, n + 2, w, v) == Ok::<(bool, nat), Seq<char>>((w, v)));
    }
}

proof fn lemma_inspect_words()
    ensures
        "--out"@[2] == 'o',
        "--tab"@[2] == 't',
        "--out"@.len() == 5,
        "--tab"@.len() == 5,
{
    reveal_strlit("--out");
    reveal_strlit("--tab");
}

proof fn lemma_inspect_options(
    args: Seq<Seq<char>>,
    i: nat,
    out: Option<Seq<char>>,
    tabs: Seq<Seq<char>>,
    more: Seq<Seq<char>>,
)
    requires
        i <= args.len(),
        inspect_options(args, i, out, tabs) is Ok,
    ensures
        ({
            let (o, t) = inspect_options(args, i, out, tabs)->Ok_0;
            inspect_options(args + more, i, out, tabs) == inspect_options(
                args + more,
                args.len(),
                o,
                t,
            )
        }),
    decreases args.len() - i,
{
    let all = args + more;
    if i < args.len() {
        assert(all[i as int] == args[i as int]);
        if args[i as int] == "--out"@ {
            assert(all[i as int + 1] == args[i as int + 1]);
            lemma_inspect_options(args, i + 2, Some(args[i as int + 1]), tabs, more);
        } else if args[i as int] == "--tab"@ {
            assert(all[i as int + 1] == args[i as int + 1]);
            lemma_inspect_options(args, i + 2, out, tabs.push(args[i as int + 1]), more);
        }
    }
}

/// The inspection writes to the folder that is named last, and looks at the tabs in the order in
/// which they are named. A tab that is not known is refused, and so is an option without its value.
pub proof fn inspections_look_at_the_tabs_named(args: Seq<Seq<char>>, value: Seq<char>)
    requires
        inspect_options(args, 0, None, Seq::empty()) is Ok,
    ensures
        ({
            let none = Seq::<Seq<char>>::empty();
            let (o, t) = inspect_options(args, 0, None, none)->Ok_0;
            let outed = inspect_options(args.push("--out"@).push(value), 0, None, none);
            let tabbed = inspect_options(args.push("--tab"@).push(value), 0, None, none);
            &&& inspect_options(none, 0, None, none) == Ok::<
                (Option<Seq<char>>, Seq<Seq<char>>),
                Seq<char>,
            >((None, none))
            &&& outed is Ok && outed->Ok_0 == (Some(value), t)
            &&& is_tab(value) ==> tabbed is Ok && tabbed->Ok_0 == (o, t.push(value))
            &&& !is_tab(value) ==> tabbed is Err
            &&& inspect_options(args.push("--out"@), 0, None, none) is Err
            &&& inspect_options(args.push("--tab"@), 0, None, none) is Err
            &&& inspect_options(args.push(value), 0, None, none) is Err
        }),
{
    lemma_inspect_words();
    let none = Seq::<Seq<char>>::empty();
    let (o, t) = inspect_options(args, 0, None, none)->Ok_0;
    let n = args.len();
    let a = args.push("--out"@).push(value);
    let b = args.push("--tab"@).push(value);
    let c = args.push("--out"@);
    let d = args.push("--tab"@);
    let e = args.push(value);
    assert(a =~= args + seq!["--out"@, value]);
    assert(b =~= args + seq!["--tab"@, value]);
    assert(c =~= args + seq!["--out"@]);
    assert(d =~= args + seq!["--tab"@]);
    assert(e =~= args + seq![value]);
    lemma_inspect_options(args, 0, None, none, seq!["--out"@, value]);
    lemma_inspect_options(args, 0, None, none, seq!["--tab"@, value]);
    lemma_inspect_options(args, 0, None, none, seq!["--out"@]);
    lemma_inspect_options(args, 0, None, none, seq!["--tab"@]);
    lemma_inspect_options(args, 0, None, none, seq![value]);
    assert(a[n as int] == "--out"@ && b[n as int] == "--tab"@ && c[n as int] == "--out"@
        && d[n as int] == "--tab"@ && e[n as int] == value && a[n as int + 1] == value
        && b[n as int + 1] == value);
    let outed = inspect_options(a, n + 2, Some(value), t);
    assert(outed is Ok && outed->Ok_0 == (Some(value), t));
    let tabbed = inspect_options(b, n + 2, o, t.push(value));
    assert(tabbed is Ok && tabbed->Ok_0 == (o, t.push(value)));
}

/// A command that failed or was refused ends with one, any other with nought; and many end with one
/// as soon as one of them does.
pub proof fn failures_show_in_the_exit_code(
    status: ActionStatus,
    r: i32,
    statuses: &Vec<ActionStatus>,
    all: i32,
)
    requires
        call_ensures(exit_code_for_status, (status,), r),
        call_ensures(worst_exit_code, (statuses,), all),
    ensures
        r == 0 || r == 1,
        r == 1 <==> status == ActionStatus::Error || status == ActionStatus::Rejected,
        all == 0 || all == 1,
        statuses@.contains(status) && r == 1 ==> all == 1,
        (forall|i: int|
            0 <= i < statuses@.len() ==> (#[trigger] statuses@[i]) != ActionStatus::Error
                && statuses@[i] != ActionStatus::Rejected) ==> all == 0,
{
    if statuses@.contains(status) && r == 1 {
        let i = statuses@.index_of(status);
        assert(!statuses@[i].is_applied());
    }
}

/// The first word tells what is to be done; a word that is none of those known names a command.
pub proof fn first_words_tell_what_to_do(first: &str, r: Entry, none: Entry)
    requires
        call_ensures(cli_entry, (Some(first),), r),
        call_ensures(cli_entry, (None,), none),
    ensures
        none is Nothing,
        !(r is Nothing),
        r is ControllerProbe <==> first@ == "controller-probe"@,
        r is UiInspect <==> first@ == "ui-inspect"@,
        r is Help <==> first@ == "help"@ || first@ == "--help"@ || first@ == "-h"@,
        r is RunQueue <==> first@ == "run-queue"@,
        r is CommandDocument <==> first@ == "command"@,
{
    reveal_strlit("controller-probe");
    reveal_strlit("ui-inspect");
    reveal_strlit("help");
    reveal_strlit("--help");
    reveal_strlit("-h");
    reveal_strlit("run-queue");
    reveal_strlit("command");
    assert("controller-probe"@.len() == 16 && "ui-inspect"@.len() == 10 && "help"@.len() == 4
        && "--help"@.len() == 6 && "-h"@.len() == 2 && "run-queue"@.len() == 9
        && "command"@.len() == 7);
}

/// A command is read from the text behind `--json`, and otherwise from the file that is named.
pub proof fn commands_come_from_a_file_or_a_text(args: &Vec<String>, r: Result<CommandSource, String>)
    requires
        call_ensures(command_source, (args,), r),
    ensures
        r is Ok <==> args@.len() >= 2 || args@.len() == 1 && args@[0]@ != "--json"@,
        r matches Ok(CommandSource::File(path)) ==> path@ == args@[0]@ && path@ != "--json"@,
        r matches Ok(CommandSource::Json(text)) ==> args@[0]@ == "--json"@ && text@ == args@[1]@,
{
}

} // verus!
