//! What renaming, creating and moving files promise.

use crate::media_fs::{
    count_extension, count_stem, counted_name, first_forbidden, is_forbidden, is_reserved,
    kept_extension, move_begins, move_failures, move_follows, moved_targets, name_refusal,
    rename_outcome, said, shown_char, text_bytes, MoveEvent, MoveNext, MovePlan, MoveStep,
    RenameStep,
};
use crate::number::{decimal, decimal_round_trip};
use crate::paths::{
    components_of, dot_place, extension_of, file_name_of, joined_path, parent_of, PathStyle,
};
use crate::text::{ascii_lower, split, trimmed};
use vstd::prelude::*;

verus! {

/// A name is as long as its characters are together: an ASCII character takes one byte, and no
/// character more than four.
pub proof fn names_are_measured_in_bytes(a: Seq<char>, b: Seq<char>, c: char)
    ensures
        text_bytes(a + b) == text_bytes(a) + text_bytes(b),
        text_bytes(seq![c]) == 1 <==> (c as int) < 128,
        text_bytes(seq![c]) <= 2 <==> (c as int) < 2048,
        text_bytes(seq![c]) <= 3 <==> (c as int) < 65536,
        1 <= text_bytes(seq![c]) <= 4,
        a.len() <= text_bytes(a) <= 4 * a.len(),
        (forall|i: int| 0 <= i < a.len() ==> (#[trigger] a[i] as int) < 128) ==> text_bytes(a)
            == a.len(),
    decreases a.len(), b.len(),
{
    let one = seq![c];
    assert(one.drop_last() =~= Seq::<char>::empty());
    assert(text_bytes(one.drop_last()) == 0);
    assert(one.last() == c);
    if b.len() > 0 {
        assert((a + b).drop_last() =~= a + b.drop_last());
        names_are_measured_in_bytes(a, b.drop_last(), c);
    } else {
        assert(a + b =~= a);
        if a.len() > 0 {
            let rest = a.drop_last();
            names_are_measured_in_bytes(rest, b, c);
            if forall|i: int| 0 <= i < a.len() ==> (#[trigger] a[i] as int) < 128 {
                assert forall|i: int| 0 <= i < rest.len() implies (#[trigger] rest[i] as int)
                    < 128 by {
                    assert(rest[i] == a[i]);
                }
                assert((a[a.len() - 1] as int) < 128);
            }
        }
    }
}

proof fn lemma_first_forbidden(s: Seq<char>) -> (at: int)
    ensures
        first_forbidden(s) is None ==> forall|i: int|
            0 <= i < s.len() ==> !is_forbidden(#[trigger] s[i]),
        first_forbidden(s) is Some ==> {
            &&& 0 <= at < s.len()
            &&& is_forbidden(s[at])
            &&& first_forbidden(s)->0 == s[at]
            &&& forall|i: int| 0 <= i < at ==> !is_forbidden(#[trigger] s[i])
        },
    decreases s.len(),
{
    if s.len() == 0 || is_forbidden(s[0]) {
        0
    } else {
        let t = s.drop_first();
        let at = lemma_first_forbidden(t);
        if first_forbidden(s) is None {
            assert forall|i: int| 0 <= i < s.len() implies !is_forbidden(#[trigger] s[i]) by {
                if i > 0 {
                    assert(t[i - 1] == s[i]);
                }
            }
        } else {
            assert forall|i: int| 0 <= i < at + 1 implies !is_forbidden(#[trigger] s[i]) by {
                if i > 0 {
                    assert(t[i - 1] == s[i]);
                }
            }
        }
        at + 1
    }
}

/// The characters that a folder's separators, drives and patterns are written with.
pub open spec fn has_meaning_in_paths(c: char) -> bool {
    "<>:\"/\\|?*"@.contains(c)
}

/// A character may stand in a name unless it is a control character or has a meaning in paths.
pub proof fn control_characters_and_path_signs_are_forbidden(c: char)
    ensures
        is_forbidden(c) <==> c < ' ' || has_meaning_in_paths(c),
{
    reveal_strlit("<>:\"/\\|?*");
    let w = "<>:\"/\\|?*"@;
    assert(w.len() == 9);
    if is_forbidden(c) && c >= ' ' {
        assert(w[0] == c || w[1] == c || w[2] == c || w[3] == c || w[4] == c || w[5] == c || w[6]
            == c || w[7] == c || w[8] == c);
    }
}

/// Whether a word is one of the devices without a number, in lower case.
pub open spec fn plain_device(w: Seq<char>) -> bool {
    w == seq!['c', 'o', 'n'] || w == seq!['p', 'r', 'n'] || w == seq!['a', 'u', 'x'] || w == seq![
        'n',
        'u',
        'l',
    ]
}

/// The devices are four words, and two more with a digit from one to nine, in any case.
pub proof fn devices_are_named_in_any_case(s: Seq<char>)
    ensures
        is_reserved(s) <==> {
            let l = ascii_lower(s);
            ||| plain_device(l)
            ||| l.len() == 4 && '1' <= l[3] && l[3] <= '9' && (l.take(3) == seq!['c', 'o', 'm']
                || l.take(3) == seq!['l', 'p', 't'])
        },
{
    let l = ascii_lower(s);
    lemma_words();
    if l.len() == 4 {
        let t = l.take(3);
        assert(t[0] == l[0] && t[1] == l[1] && t[2] == l[2]);
        if t == seq!['c', 'o', 'm'] || t == seq!['l', 'p', 't'] {
            assert(l =~= seq![t[0], t[1], t[2], l[3]]);
        }
        if is_reserved(s) {
            assert(t =~= seq!['c', 'o', 'm'] || t =~= seq!['l', 'p', 't']);
        }
    }
}

#[verifier::spinoff_prover]
#[verifier::rlimit(40)]
proof fn lemma_words()
    ensures
        ascii_lower("CON"@) == seq!['c', 'o', 'n'],
        ascii_lower("PRN"@) == seq!['p', 'r', 'n'],
        ascii_lower("AUX"@) == seq!['a', 'u', 'x'],
        ascii_lower("NUL"@) == seq!['n', 'u', 'l'],
        ascii_lower("COM1"@) == seq!['c', 'o', 'm', '1'],
        ascii_lower("COM2"@) == seq!['c', 'o', 'm', '2'],
        ascii_lower("COM3"@) == seq!['c', 'o', 'm', '3'],
        ascii_lower("COM4"@) == seq!['c', 'o', 'm', '4'],
        ascii_lower("COM5"@) == seq!['c', 'o', 'm', '5'],
        ascii_lower("COM6"@) == seq!['c', 'o', 'm', '6'],
        ascii_lower("COM7"@) == seq!['c', 'o', 'm', '7'],
        ascii_lower("COM8"@) == seq!['c', 'o', 'm', '8'],
        ascii_lower("COM9"@) == seq!['c', 'o', 'm', '9'],
        ascii_lower("LPT1"@) == seq!['l', 'p', 't', '1'],
        ascii_lower("LPT2"@) == seq!['l', 'p', 't', '2'],
        ascii_lower("LPT3"@) == seq!['l', 'p', 't', '3'],
        ascii_lower("LPT4"@) == seq!['l', 'p', 't', '4'],
        ascii_lower("LPT5"@) == seq!['l', 'p', 't', '5'],
        ascii_lower("LPT6"@) == seq!['l', 'p', 't', '6'],
        ascii_lower("LPT7"@) == seq!['l', 'p', 't', '7'],
        ascii_lower("LPT8"@) == seq!['l', 'p', 't', '8'],
        ascii_lower("LPT9"@) == seq!['l', 'p', 't', '9'],
{
    reveal_strlit("CON");
    reveal_strlit("PRN");
    reveal_strlit("AUX");
    reveal_strlit("NUL");
    reveal_strlit("COM1");
    reveal_strlit("COM2");
    reveal_strlit("COM3");
    reveal_strlit("COM4");
    reveal_strlit("COM5");
    reveal_strlit("COM6");
    reveal_strlit("COM7");
    reveal_strlit("COM8");
    reveal_strlit("COM9");
    reveal_strlit("LPT1");
    reveal_strlit("LPT2");
    reveal_strlit("LPT3");
    reveal_strlit("LPT4");
    reveal_strlit("LPT5");
    reveal_strlit("LPT6");
    reveal_strlit("LPT7");
    reveal_strlit("LPT8");
    reveal_strlit("LPT9");
    assert(ascii_lower("CON"@) =~= seq!['c', 'o', 'n']);
    assert(ascii_lower("PRN"@) =~= seq!['p', 'r', 'n']);
    assert(ascii_lower("AUX"@) =~= seq!['a', 'u', 'x']);
    assert(ascii_lower("NUL"@) =~= seq!['n', 'u', 'l']);
    assert(ascii_lower("COM1"@) =~= seq!['c', 'o', 'm', '1']);
    assert(ascii_lower("COM2"@) =~= seq!['c', 'o', 'm', '2']);
    assert(ascii_lower("COM3"@) =~= seq!['c', 'o', 'm', '3']);
    assert(ascii_lower("COM4"@) =~= seq!['c', 'o', 'm', '4']);
    assert(ascii_lower("COM5"@) =~= seq!['c', 'o', 'm', '5']);
    assert(ascii_lower("COM6"@) =~= seq!['c', 'o', 'm', '6']);
    assert(ascii_lower("COM7"@) =~= seq!['c', 'o', 'm', '7']);
    assert(ascii_lower("COM8"@) =~= seq!['c', 'o', 'm', '8']);
    assert(ascii_lower("COM9"@) =~= seq!['c', 'o', 'm', '9']);
    assert(ascii_lower("LPT1"@) =~= seq!['l', 'p', 't', '1']);
    assert(ascii_lower("LPT2"@) =~= seq!['l', 'p', 't', '2']);
    assert(ascii_lower("LPT3"@) =~= seq!['l', 'p', 't', '3']);
    assert(ascii_lower("LPT4"@) =~= seq!['l', 'p', 't', '4']);
    assert(ascii_lower("LPT5"@) =~= seq!['l', 'p', 't', '5']);
    assert(ascii_lower("LPT6"@) =~= seq!['l', 'p', 't', '6']);
    assert(ascii_lower("LPT7"@) =~= seq!['l', 'p', 't', '7']);
    assert(ascii_lower("LPT8"@) =~= seq!['l', 'p', 't', '8']);
    assert(ascii_lower("LPT9"@) =~= seq!['l', 'p', 't', '9']);
}

/// A name is good where, without the white space around it, it is not empty, takes no more than
/// 240 bytes, holds no forbidden character, does not end with a dot, and does not begin with a
/// device up to its first dot. A refusal names the first forbidden character where there is one.
pub proof fn good_names_are_those_that_can_be_stored(name: Seq<char>, at: int)
    ensures
        ({
            let t = trimmed(name);
            name_refusal(name) is None <==> {
                &&& 0 < t.len()
                &&& text_bytes(t) <= 240
                &&& forall|i: int| 0 <= i < t.len() ==> !is_forbidden(#[trigger] t[i])
                &&& t.last() != '.' && t.last() != ' '
                &&& !is_reserved(split(t, '.')[0])
            }
        }),
        ({
            let t = trimmed(name);
            0 <= at < t.len() && is_forbidden(t[at]) && (forall|i: int|
                0 <= i < at ==> !is_forbidden(#[trigger] t[i])) && text_bytes(t) <= 240
                ==> name_refusal(name) == Some(
                "name contains a forbidden character: "@ + shown_char(t[at]),
            )
        }),
        trimmed(name).len() == 0 ==> name_refusal(name) == Some("name is empty"@),
        text_bytes(trimmed(name)) > 240 ==> name_refusal(name) == Some("name is too long"@),
{
    let t = trimmed(name);
    let first = lemma_first_forbidden(t);
    if t.len() > 0 {
        names_are_measured_in_bytes(t, t, 'a');
    }
    if 0 <= at < t.len() && is_forbidden(t[at]) && (forall|i: int|
        0 <= i < at ==> !is_forbidden(#[trigger] t[i])) {
        assert(first_forbidden(t) is Some);
        if first < at {
            assert(!is_forbidden(t[first]));
        }
        if at < first {
            assert(!is_forbidden(t[at]));
        }
    }
}

/// A forbidden character is shown between quotes, as itself unless it could not be seen.
pub proof fn forbidden_characters_are_shown_in_quotes(c: char)
    ensures
        shown_char(c).len() >= 3,
        shown_char(c)[0] == '\'',
        shown_char(c).last() == '\'',
        is_forbidden(c) && c >= ' ' && c != '\\' ==> shown_char(c) == seq!['\'', c, '\''],
        c == '\\' ==> shown_char(c) == seq!['\'', '\\', '\\', '\''],
        c < ' ' ==> shown_char(c)[1] == '\\',
        c == '\n' ==> shown_char(c) == seq!['\'', '\\', 'n', '\''],
        c == '\t' ==> shown_char(c) == seq!['\'', '\\', 't', '\''],
        c == '\r' ==> shown_char(c) == seq!['\'', '\\', 'r', '\''],
{
    assert(is_forbidden(c) && c >= ' ' && c != '\\' ==> shown_char(c) =~= seq!['\'', c, '\'']);
    assert(c == '\\' ==> shown_char(c) =~= seq!['\'', '\\', '\\', '\'']);
    assert(c == '\n' ==> shown_char(c) =~= seq!['\'', '\\', 'n', '\'']);
    assert(c == '\t' ==> shown_char(c) =~= seq!['\'', '\\', 't', '\'']);
    assert(c == '\r' ==> shown_char(c) =~= seq!['\'', '\\', 'r', '\'']);
}

/// A new name begins as it was given. It gets the extension of the old one where that is asked
/// for and it has none; without that it is taken as it is.
pub proof fn extensions_are_kept_on_request(
    style: PathStyle,
    source: Seq<char>,
    name: Seq<char>,
    e: Seq<char>,
)
    ensures
        kept_extension(style, source, name, false) == name,
        extension_of(style, name) is Some ==> kept_extension(style, source, name, true) == name,
        extension_of(style, name) is None && extension_of(style, source) == Some(e) && e.len() > 0
            ==> {
            let r = kept_extension(style, source, name, true);
            &&& r.len() == name.len() + 1 + e.len()
            &&& r.take(name.len() as int) == name
            &&& r[name.len() as int] == '.'
            &&& r.skip(name.len() as int + 1) == e
        },
        extension_of(style, source) is None ==> kept_extension(style, source, name, true) == name,
{
    reveal_strlit(".");
    let r = name + "."@ + e;
    assert(r.take(name.len() as int) =~= name);
    assert(r.skip(name.len() as int + 1) =~= e);
}

/// The names of a series differ from each other. Each holds its number in brackets between the
/// stem and the extension of the first.
pub proof fn counted_names_differ(style: PathStyle, name: Seq<char>, a: nat, b: nat)
    requires
        2 <= a,
        2 <= b,
        a != b,
    ensures
        counted_name(style, name, 1) == name,
        counted_name(style, name, a) != counted_name(style, name, b),
        ({
            let r = counted_name(style, name, a);
            let stem = count_stem(style, name);
            let end = count_extension(style, name);
            let d = decimal(a);
            let n = stem.len() as int;
            let m = n + 2 + d.len();
            &&& r.len() == m + 1 + end.len()
            &&& r.take(n) == stem
            &&& r[n] == ' ' && r[n + 1] == '('
            &&& r.subrange(n + 2, m) == d
            &&& r[m] == ')'
            &&& r.skip(m + 1) == end
        }),
        file_name_of(style, name) == Some(name) && extension_of(style, name) is Some ==> name
            == count_stem(style, name) + count_extension(style, name),
        file_name_of(style, name) == Some(name) && extension_of(style, name) is None ==> name
            == count_stem(style, name) && count_extension(style, name).len() == 0,
{
    reveal_strlit(" (");
    reveal_strlit(")");
    reveal_strlit(".");
    let stem = count_stem(style, name);
    let end = count_extension(style, name);
    let x = counted_name(style, name, a);
    let y = counted_name(style, name, b);
    let d = decimal(a);
    let e = decimal(b);
    decimal_round_trip(a);
    decimal_round_trip(b);
    let n = stem.len() as int;
    assert(x.take(n) =~= stem);
    assert(x.subrange(n + 2, n + 2 + d.len()) =~= d);
    assert(y.subrange(n + 2, n + 2 + e.len()) =~= e);
    assert(x.skip(n + 3 + d.len()) =~= end);
    if x == y {
        assert(d.len() == e.len());
        assert(d == e);
    }
    if file_name_of(style, name) == Some(name) {
        lemma_dot_found(name, name.len());
        if extension_of(style, name) is Some {
            assert(name =~= stem + end);
        }
    }
}

proof fn lemma_dot_found(name: Seq<char>, n: nat)
    requires
        n <= name.len(),
    ensures
        dot_place(name, n) > 0 ==> dot_place(name, n) < n
            && name[dot_place(name, n) as int] == '.',
    decreases n,
{
    if n > 0 {
        lemma_dot_found(name, (n - 1) as nat);
    }
}

/// A file that is renamed stays in its folder and gets a good name. It takes the place of no other
/// file: nothing stands there, or only a file whose path is its own but for the case. A rename
/// that would is refused, and every other one with a good name goes on.
pub proof fn renames_stay_in_their_folder<F: Fn(&str) -> bool>(
    style: PathStyle,
    exists_at: F,
    source: Seq<char>,
    new_name: Seq<char>,
    keep: bool,
    r: Result<RenameStep, String>,
)
    requires
        rename_outcome(style, exists_at, source, new_name, keep, r),
    ensures
        ({
            let name = kept_extension(style, source, trimmed(new_name), keep);
            let folder = parent_of(style, source)->0;
            let target = joined_path(style, folder, trimmed(name));
            let own = components_of(style, target) == components_of(style, source);
            let by_case = ascii_lower(target) == ascii_lower(source);
            &&& r is Ok ==> name_refusal(name) is None && parent_of(style, source) is Some
            &&& r is Ok && r->Ok_0 is Keep ==> own && r->Ok_0->Keep_target@ == target
            &&& r is Ok && r->Ok_0 is Rename ==> {
                &&& !own
                &&& r->Ok_0->Rename_target@ == target
                &&& by_case || said(exists_at, target, false)
            }
            &&& name_refusal(name) is Some ==> r is Err && r->Err_0@ == name_refusal(name)->0
            &&& name_refusal(name) is None && parent_of(style, source) is None ==> r is Err
            &&& name_refusal(name) is None && parent_of(style, source) is Some && r is Err ==> !own
                && !by_case && said(exists_at, target, true)
        }),
{
}

/// A file in its own folder stays where it is, whatever stands there. Any other goes below the
/// folder that was named, under its own name where nothing stands there.
pub proof fn moves_go_to_the_folder_named<F: Fn(&str) -> bool>(
    style: PathStyle,
    exists_at: F,
    source: Seq<char>,
    dest_dir: Seq<char>,
    dest_is_folder: bool,
    r: Result<MovePlan, String>,
)
    requires
        move_begins(style, exists_at, source, dest_dir, dest_is_folder, r),
    ensures
        !dest_is_folder ==> r is Err,
        file_name_of(style, source) is None ==> r is Err,
        r is Ok && r->Ok_0.step is Stay ==> r->Ok_0.target@ == source && parent_of(style, source)
            is Some && components_of(style, parent_of(style, source)->0) == components_of(
            style,
            dest_dir,
        ),
        dest_is_folder && file_name_of(style, source) is Some && parent_of(style, source) is Some
            && components_of(style, parent_of(style, source)->0) == components_of(style, dest_dir)
            ==> r is Ok && r->Ok_0.step is Stay,
        r is Ok && !(r->Ok_0.step is Stay) ==> {
            let name = file_name_of(style, source)->0;
            &&& r->Ok_0.step is Rename
            &&& said(exists_at, r->Ok_0.target@, false)
            &&& exists|n: nat|
                1 <= n && r->Ok_0.target@ == joined_path(
                    style,
                    dest_dir,
                    #[trigger] counted_name(style, name, n),
                ) && (n > 1 ==> said(exists_at, joined_path(style, dest_dir, name), true))
        },
        dest_is_folder && file_name_of(style, source) is Some && r is Err ==> said(
            exists_at,
            joined_path(style, dest_dir, file_name_of(style, source)->0),
            true,
        ),
{
    if file_name_of(style, source) is Some {
        let name = file_name_of(style, source)->0;
        assert(counted_name(style, name, 1) == name);
    }
}

/// How far a move has come: each step is followed by a later one, or by the end.
pub open spec fn progress(step: MoveStep) -> nat {
    match step {
        MoveStep::Stay => 0,
        MoveStep::Rename => 1,
        MoveStep::StatSource => 2,
        MoveStep::Copy { source_len } => 3,
        MoveStep::StatCopy { source_len } => 4,
        MoveStep::DropCopy { source_len, copy_len } => 5,
        MoveStep::DropSource { source_len, copy_len } => 5,
    }
}

/// A move comes to an end, and the length that was found at the start stays known. It has succeeded
/// only where the rename succeeded, or a copy of that length stands and the source is gone. After a
/// failure the source still stands.
pub proof fn moves_lose_nothing(step: MoveStep, event: MoveEvent, next: MoveNext)
    requires
        move_follows(step, event, next),
    ensures
        next is Step ==> progress(next->Step_0) == progress(step) + 1,
        next is Moved <==> step is Stay || (step is Rename || step is DropSource) && !(event is Failed),
        step is Rename && event is Failed ==> next is Step,
        step is StatSource || step is StatCopy ==> (next is Step <==> event is Length),
        step is Copy ==> (next is Step <==> !(event is Failed)),
        step is DropCopy ==> next is Failed,
        step is DropSource && event is Failed ==> next is Failed,
        next is Step && next->Step_0 is Copy ==> event == MoveEvent::Length(
            next->Step_0->Copy_source_len,
        ),
        next is Step && next->Step_0 is StatCopy ==> step is Copy
            && next->Step_0->StatCopy_source_len == step->Copy_source_len,
        next is Step && next->Step_0 is DropCopy ==> {
            &&& step is StatCopy
            &&& event == MoveEvent::Length(next->Step_0->DropCopy_copy_len)
            &&& next->Step_0->DropCopy_source_len == step->StatCopy_source_len
            &&& next->Step_0->DropCopy_copy_len != next->Step_0->DropCopy_source_len
        },
        next is Step && next->Step_0 is DropSource ==> {
            &&& step is StatCopy
            &&& event == MoveEvent::Length(next->Step_0->DropSource_copy_len)
            &&& next->Step_0->DropSource_source_len == step->StatCopy_source_len
            &&& next->Step_0->DropSource_copy_len == next->Step_0->DropSource_source_len
        },
        event is Failed && next is Failed && !(step is DropCopy) ==> {
            let why = event->Failed_0@;
            let message = next->Failed_0@;
            message.len() >= why.len() && message.skip(message.len() - why.len()) == why
        },
{
    if event is Failed && next is Failed && !(step is DropCopy) {
        let why = event->Failed_0@;
        let message = next->Failed_0@;
        let head = match step {
            MoveStep::StatSource => "stat source: "@,
            MoveStep::Copy { source_len } => "copy failed: "@,
            MoveStep::StatCopy { source_len } => "stat copy: "@,
            _ => "copied, but could not remove source: "@,
        };
        assert(message == head + why);
        assert(message.skip(message.len() - why.len()) =~= why);
    }
}

/// Every file is told of once: as moved with its target, or as not moved with its reason. What
/// comes of one file does not depend on the others.
pub proof fn every_file_comes_out_once(
    sources: Seq<Seq<char>>,
    outcomes: Seq<Result<String, String>>,
    source: Seq<char>,
    outcome: Result<String, String>,
)
    requires
        sources.len() == outcomes.len(),
    ensures
        moved_targets(outcomes).len() + move_failures(sources, outcomes).len() == outcomes.len(),
        outcome is Ok ==> {
            &&& moved_targets(outcomes.push(outcome)) == moved_targets(outcomes).push(
                outcome->Ok_0,
            )
            &&& move_failures(sources.push(source), outcomes.push(outcome)) == move_failures(
                sources,
                outcomes,
            )
        },
        outcome is Err ==> {
            &&& moved_targets(outcomes.push(outcome)) == moved_targets(outcomes)
            &&& move_failures(sources.push(source), outcomes.push(outcome)) == move_failures(
                sources,
                outcomes,
            ).push((source, outcome->Err_0@))
        },
        outcomes.len() == 0 ==> moved_targets(outcomes).len() == 0,
    decreases outcomes.len(),
{
    let more = outcomes.push(outcome);
    assert(more.drop_last() =~= outcomes);
    assert(more.last() == outcome);
    lemma_failures_of_head(sources, source, outcomes);
    if outcomes.len() > 0 {
        every_file_comes_out_once(sources.drop_last(), outcomes.drop_last(), source, outcome);
        lemma_failures_of_head(sources.drop_last(), sources.last(), outcomes.drop_last());
        assert(sources.drop_last().push(sources.last()) =~= sources);
    }
}

proof fn lemma_failures_of_head(
    sources: Seq<Seq<char>>,
    source: Seq<char>,
    outcomes: Seq<Result<String, String>>,
)
    requires
        outcomes.len() <= sources.len(),
    ensures
        move_failures(sources.push(source), outcomes) == move_failures(sources, outcomes),
    decreases outcomes.len(),
{
    if outcomes.len() > 0 {
        lemma_failures_of_head(sources, source, outcomes.drop_last());
        assert(sources.push(source)[outcomes.len() - 1] == sources[outcomes.len() - 1]);
    }
}

} // verus!
