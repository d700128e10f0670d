//! What the flags of a command line say, and what the command that is built from them holds.

use crate::api::{Command, CommandKind};
use crate::cli::{
    all_values, count_of, flag_label, holds_tokens, last_value, line_outcome, read_flags,
    recursion_given, shape_of, signed_of, was_given, wide_of, CommandFlags, FlagShape, TokenModel,
};
use crate::number::{signed_value, unsigned_value};
use crate::text::{ascii_lower, opt_text, texts};
use vstd::prelude::*;

verus! {

/// Whether a flag stands alone, without a value behind it.
pub open spec fn stands_alone(flag: Seq<char>) -> bool {
    flag == "--in-place"@ || flag == "--in-parent"@ || flag == "--steal"@ || flag == "--face-crop"@ || flag == "--allow-partial"@ || flag == "--recursive"@ || flag == "--no-recursive"@ || flag == "--confirm"@ || flag == "--confirmed"@
}

/// The values that a command line gives to a flag, under either of its names, from place `i` on.
pub open spec fn values_on(args: Seq<Seq<char>>, i: nat, name: Seq<char>, other: Seq<char>) -> Seq<
    Seq<char>,
>
    decreases args.len() + 1 - i,
{
    if i >= args.len() {
        Seq::empty()
    } else if stands_alone(args[i as int]) {
        values_on(args, i + 1, name, other)
    } else if i + 1 >= args.len() {
        Seq::empty()
    } else if args[i as int] == name || args[i as int] == other {
        seq![args[i as int + 1]] + values_on(args, i + 2, name, other)
    } else {
        values_on(args, i + 2, name, other)
    }
}

/// Whether a command line sets a switch, under either of its names, from place `i` on.
pub open spec fn sets(args: Seq<Seq<char>>, i: nat, name: Seq<char>, other: Seq<char>) -> bool
    decreases args.len() + 1 - i,
{
    if i >= args.len() {
        false
    } else if stands_alone(args[i as int]) {
        args[i as int] == name || args[i as int] == other || sets(args, i + 1, name, other)
    } else {
        sets(args, i + 2, name, other)
    }
}

/// What a command line says of subfolders, from place `i` on: the last word on it counts.
pub open spec fn subfolders_on(args: Seq<Seq<char>>, i: nat) -> Option<bool>
    decreases args.len() + 1 - i,
{
    if i >= args.len() {
        None
    } else if !stands_alone(args[i as int]) {
        subfolders_on(args, i + 2)
    } else if subfolders_on(args, i + 1) is Some {
        subfolders_on(args, i + 1)
    } else if args[i as int] == "--recursive"@ {
        Some(true)
    } else if args[i as int] == "--no-recursive"@ {
        Some(false)
    } else {
        None
    }
}

/// The value of a flag on a command line: the last one where it is given more than once.
pub open spec fn value_on(args: Seq<Seq<char>>, name: Seq<char>) -> Option<Seq<char>> {
    let v = values_on(args, 0, name, name);
    if v.len() == 0 {
        None
    } else {
        Some(v.last())
    }
}

/// The value of the first flag that a command line gives.
pub open spec fn either_on(args: Seq<Seq<char>>, name: Seq<char>, other: Seq<char>) -> Option<
    Seq<char>,
> {
    if value_on(args, name) is Some {
        value_on(args, name)
    } else {
        value_on(args, other)
    }
}

/// The value of a flag, or nothing.
pub open spec fn text_on(args: Seq<Seq<char>>, name: Seq<char>) -> Seq<char> {
    match value_on(args, name) {
        Some(v) => v,
        None => Seq::empty(),
    }
}

/// The number that a flag gives, under either of its names.
pub open spec fn count_on(args: Seq<Seq<char>>, name: Seq<char>, other: Seq<char>, max: nat) -> Option<
    nat,
> {
    let v = values_on(args, 0, name, other);
    if v.len() == 0 {
        None
    } else {
        unsigned_value(v.last(), max)
    }
}

/// The first image that a command line gives, or else its path.
pub open spec fn image_on(args: Seq<Seq<char>>) -> Option<Seq<char>> {
    let v = values_on(args, 0, "--image"@, "--images"@);
    if v.len() > 0 {
        Some(v[0])
    } else {
        value_on(args, "--path"@)
    }
}

/// Whether a label is that of two names, and not of a switch.
spec fn takes_values(label: Seq<char>, name: Seq<char>, other: Seq<char>) -> bool {
    &&& forall|f: Seq<char>| #[trigger] flag_label(f) == label <==> f == name || f == other
    &&& !stands_alone(name) && !stands_alone(other)
}

/// Whether a label is that of a switch with two names.
spec fn is_set(label: Seq<char>, name: Seq<char>, other: Seq<char>) -> bool {
    &&& forall|f: Seq<char>| #[trigger] flag_label(f) == label <==> f == name || f == other
    &&& stands_alone(name) && stands_alone(other)
}

proof fn lemma_values_of_lists(a: Seq<TokenModel>, b: Seq<TokenModel>, label: Seq<char>)
    ensures
        all_values(a + b, label) == all_values(a, label) + all_values(b, label),
    decreases b.len(),
{
    if b.len() == 0 {
        assert(a + b =~= a);
        assert(all_values(a, label) + all_values(b, label) =~= all_values(a, label));
    } else {
        assert((a + b).drop_last() =~= a + b.drop_last());
        lemma_values_of_lists(a, b.drop_last(), label);
        assert(all_values(a + b, label) =~= all_values(a, label) + all_values(b, label));
    }
}

proof fn lemma_one_value(t: TokenModel, label: Seq<char>)
    ensures
        all_values(seq![t], label) == if t.label == label {
            seq![t.value]
        } else {
            Seq::<Seq<char>>::empty()
        },
{
    assert(seq![t].drop_last() =~= Seq::<TokenModel>::empty());
    reveal_with_fuel(all_values, 2);
    assert(Seq::<Seq<char>>::empty().push(t.value) =~= seq![t.value]);
}

proof fn lemma_last_of_values(t: Seq<TokenModel>, label: Seq<char>)
    ensures
        last_value(t, label) == (if all_values(t, label).len() == 0 {
            None
        } else {
            Some(all_values(t, label).last())
        }),
    decreases t.len(),
{
    if t.len() > 0 {
        lemma_last_of_values(t.drop_last(), label);
    }
}

proof fn lemma_values_read(
    kind: Seq<char>,
    args: Seq<Seq<char>>,
    i: nat,
    label: Seq<char>,
    name: Seq<char>,
    other: Seq<char>,
)
    requires
        takes_values(label, name, other),
    ensures
        read_flags(kind, args, i) matches Ok(t) ==> all_values(t, label) == values_on(
            args,
            i,
            name,
            other,
        ),
    decreases args.len() + 1 - i,
{
    if i < args.len() {
        let flag = args[i as int];
        match shape_of(flag) {
            None => {},
            Some(FlagShape::Switch) => {
                assert(stands_alone(flag));
                lemma_values_read(kind, args, i + 1, label, name, other);
                if let Ok(ts) = read_flags(kind, args, i + 1) {
                    let tok = TokenModel { label: flag_label(flag), value: Seq::empty() };
                    lemma_values_of_lists(seq![tok], ts, label);
                    lemma_one_value(tok, label);
                    assert(Seq::<Seq<char>>::empty() + all_values(ts, label) =~= all_values(
                        ts,
                        label,
                    ));
                }
            },
            Some(shape) => {
                assert(!stands_alone(flag));
                lemma_values_read(kind, args, i + 2, label, name, other);
                if i + 1 < args.len() {
                    if let Ok(ts) = read_flags(kind, args, i + 2) {
                        let tok = TokenModel {
                            label: flag_label(flag),
                            value: args[i as int + 1],
                        };
                        lemma_values_of_lists(seq![tok], ts, label);
                        lemma_one_value(tok, label);
                        assert(Seq::<Seq<char>>::empty() + all_values(ts, label) =~= all_values(
                            ts,
                            label,
                        ));
                    }
                }
            },
        }
    }
}

proof fn lemma_sets_read(
    kind: Seq<char>,
    args: Seq<Seq<char>>,
    i: nat,
    label: Seq<char>,
    name: Seq<char>,
    other: Seq<char>,
)
    requires
        is_set(label, name, other),
    ensures
        read_flags(kind, args, i) matches Ok(t) ==> (all_values(t, label).len() > 0) == sets(
            args,
            i,
            name,
            other,
        ),
    decreases args.len() + 1 - i,
{
    if i < args.len() {
        let flag = args[i as int];
        match shape_of(flag) {
            None => {},
            Some(FlagShape::Switch) => {
                assert(stands_alone(flag));
                lemma_sets_read(kind, args, i + 1, label, name, other);
                if let Ok(ts) = read_flags(kind, args, i + 1) {
                    let tok = TokenModel { label: flag_label(flag), value: Seq::empty() };
                    lemma_values_of_lists(seq![tok], ts, label);
                    lemma_one_value(tok, label);
                }
            },
            Some(shape) => {
                assert(!stands_alone(flag));
                lemma_sets_read(kind, args, i + 2, label, name, other);
                if i + 1 < args.len() {
                    if let Ok(ts) = read_flags(kind, args, i + 2) {
                        let tok = TokenModel {
                            label: flag_label(flag),
                            value: args[i as int + 1],
                        };
                        lemma_values_of_lists(seq![tok], ts, label);
                        lemma_one_value(tok, label);
                    }
                }
            },
        }
    }
}

proof fn lemma_recursion_of_lists(a: TokenModel, b: Seq<TokenModel>)
    ensures
        recursion_given(seq![a] + b) == if recursion_given(b) is Some {
            recursion_given(b)
        } else if a.label == "--recursive"@ {
            Some(true)
        } else if a.label == "--no-recursive"@ {
            Some(false)
        } else {
            None
        },
    decreases b.len(),
{
    let s = seq![a] + b;
    if b.len() == 0 {
        assert(s =~= seq![a]);
        assert(s.drop_last() =~= Seq::<TokenModel>::empty());
        reveal_with_fuel(recursion_given, 2);
    } else {
        assert(s.drop_last() =~= seq![a] + b.drop_last());
        lemma_recursion_of_lists(a, b.drop_last());
    }
}

proof fn lemma_recursion_read(kind: Seq<char>, args: Seq<Seq<char>>, i: nat)
    requires
        is_set("--recursive"@, "--recursive"@, "--recursive"@),
        is_set("--no-recursive"@, "--no-recursive"@, "--no-recursive"@),
    ensures
        read_flags(kind, args, i) matches Ok(t) ==> recursion_given(t) == subfolders_on(args, i),
    decreases args.len() + 1 - i,
{
    if i < args.len() {
        let flag = args[i as int];
        match shape_of(flag) {
            None => {},
            Some(FlagShape::Switch) => {
                assert(stands_alone(flag));
                lemma_recursion_read(kind, args, i + 1);
                if let Ok(ts) = read_flags(kind, args, i + 1) {
                    let tok = TokenModel { label: flag_label(flag), value: Seq::empty() };
                    lemma_recursion_of_lists(tok, ts);
                }
            },
            Some(shape) => {
                assert(!stands_alone(flag));
                lemma_recursion_read(kind, args, i + 2);
                if i + 1 < args.len() {
                    if let Ok(ts) = read_flags(kind, args, i + 2) {
                        let tok = TokenModel {
                            label: flag_label(flag),
                            value: args[i as int + 1],
                        };
                        lemma_recursion_of_lists(tok, ts);
                    }
                }
            },
        }
    }
}

/// Whether a text has a length and begins, behind its two dashes, with two characters.
spec fn looks(s: Seq<char>, len: nat, c: char, d: char) -> bool {
    s.len() == len && s[2] == c && s[3] == d
}

/// The flags with two names and the switches, by their looks.
proof fn lemma_special_names()
    ensures
        looks("--feature"@, 9, 'f', 'e'),
        looks("--features"@, 10, 'f', 'e'),
        looks("--image"@, 7, 'i', 'm'),
        looks("--images"@, 8, 'i', 'm'),
        looks("--concurrency"@, 13, 'c', 'o'),
        looks("--concurrency-limit"@, 19, 'c', 'o'),
        looks("--file"@, 6, 'f', 'i'),
        looks("--files"@, 7, 'f', 'i'),
        looks("--confirm"@, 9, 'c', 'o'),
        looks("--confirmed"@, 11, 'c', 'o'),
        looks("--in-place"@, 10, 'i', 'n'),
        looks("--in-parent"@, 11, 'i', 'n'),
        looks("--steal"@, 7, 's', 't'),
        looks("--face-crop"@, 11, 'f', 'a'),
        looks("--allow-partial"@, 15, 'a', 'l'),
        looks("--recursive"@, 11, 'r', 'e'),
        looks("--no-recursive"@, 14, 'n', 'o'),
{
    reveal_strlit("--feature");
    reveal_strlit("--features");
    reveal_strlit("--image");
    reveal_strlit("--images");
    reveal_strlit("--concurrency");
    reveal_strlit("--concurrency-limit");
    reveal_strlit("--file");
    reveal_strlit("--files");
    reveal_strlit("--confirm");
    reveal_strlit("--confirmed");
    reveal_strlit("--in-place");
    reveal_strlit("--in-parent");
    reveal_strlit("--steal");
    reveal_strlit("--face-crop");
    reveal_strlit("--allow-partial");
    reveal_strlit("--recursive");
    reveal_strlit("--no-recursive");
}

/// A flag that looks like none of those has one name and takes a value.
proof fn lemma_plain_name(label: Seq<char>)
    requires
        label.len() >= 4,
        !looks(label, 9, 'f', 'e'),
        !looks(label, 10, 'f', 'e'),
        !looks(label, 7, 'i', 'm'),
        !looks(label, 8, 'i', 'm'),
        !looks(label, 13, 'c', 'o'),
        !looks(label, 19, 'c', 'o'),
        !looks(label, 6, 'f', 'i'),
        !looks(label, 7, 'f', 'i'),
        !looks(label, 9, 'c', 'o'),
        !looks(label, 11, 'c', 'o'),
        !looks(label, 10, 'i', 'n'),
        !looks(label, 11, 'i', 'n'),
        !looks(label, 7, 's', 't'),
        !looks(label, 11, 'f', 'a'),
        !looks(label, 15, 'a', 'l'),
        !looks(label, 11, 'r', 'e'),
        !looks(label, 14, 'n', 'o'),
    ensures
        takes_values(label, label, label),
{
    lemma_special_names();
}

proof fn lemma_double_names()
    ensures
        takes_values("--feature"@, "--feature"@, "--features"@),
        takes_values("--image"@, "--image"@, "--images"@),
        takes_values("--file"@, "--file"@, "--files"@),
        takes_values("--concurrency-limit"@, "--concurrency-limit"@, "--concurrency"@),
        is_set("--in-place"@, "--in-place"@, "--in-place"@),
        is_set("--in-parent"@, "--in-parent"@, "--in-parent"@),
        is_set("--steal"@, "--steal"@, "--steal"@),
        is_set("--face-crop"@, "--face-crop"@, "--face-crop"@),
        is_set("--allow-partial"@, "--allow-partial"@, "--allow-partial"@),
        is_set("--confirm"@, "--confirm"@, "--confirmed"@),
        is_set("--recursive"@, "--recursive"@, "--recursive"@),
        is_set("--no-recursive"@, "--no-recursive"@, "--no-recursive"@),
{
    lemma_special_names();
}

/// Whether flags hold what a command line says.
spec fn holds_line(f: CommandFlags, args: Seq<Seq<char>>) -> bool {
    &&& opt_text(f.project) == value_on(args, "--project"@)
    &&& opt_text(f.worktree) == value_on(args, "--worktree"@)
    &&& opt_text(f.tab) == value_on(args, "--tab"@)
    &&& opt_text(f.run_id) == value_on(args, "--run-id"@)
    &&& opt_text(f.artifact_path) == value_on(args, "--path"@)
    &&& opt_text(f.dir) == value_on(args, "--dir"@)
    &&& opt_text(f.keep_dir) == value_on(args, "--keep-dir"@)
    &&& opt_text(f.cull_dir) == value_on(args, "--cull-dir"@)
    &&& opt_text(f.review_dir) == value_on(args, "--review-dir"@)
    &&& opt_text(f.review.session) == value_on(args, "--session"@)
    &&& opt_text(f.review.id) == value_on(args, "--id"@)
    &&& opt_text(f.review.decision) == value_on(args, "--decision"@)
    &&& opt_text(f.review.reason) == value_on(args, "--reason"@)
    &&& opt_text(f.review.actor) == value_on(args, "--actor"@)
    &&& opt_text(f.review.gate_manifest) == value_on(args, "--gate-manifest"@)
    &&& opt_text(f.review.clusters) == value_on(args, "--clusters"@)
    &&& opt_text(f.review.out) == value_on(args, "--out"@)
    &&& opt_text(f.review.name) == value_on(args, "--name"@)
    &&& opt_text(f.review.threshold) == value_on(args, "--threshold"@)
    &&& opt_text(f.review.lane_id) == value_on(args, "--lane-id"@)
    &&& opt_text(f.review.lane_name) == value_on(args, "--lane-name"@)
    &&& opt_text(f.review.lane_mode) == value_on(args, "--lane-mode"@)
    &&& opt_text(f.review.media_notes) == value_on(args, "--notes"@)
    &&& opt_text(f.review.media_tags) == value_on(args, "--tags"@)
    &&& opt_text(f.review.media_label) == value_on(args, "--label"@)
    &&& opt_text(f.review.media_hex) == value_on(args, "--hex"@)
    &&& opt_text(f.review.media_tag_filter) == value_on(args, "--tag"@)
    &&& opt_text(f.review.media_query) == value_on(args, "--query"@)
    &&& opt_text(f.review.media_mode) == value_on(args, "--mode"@)
    &&& opt_text(f.review.media_nav_action) == value_on(args, "--action"@)
    &&& opt_text(f.review.media_tab_id) == value_on(args, "--tab-id"@)
    &&& texts(f.features@) == values_on(args, 0, "--feature"@, "--features"@)
    &&& texts(f.images@) == values_on(args, 0, "--image"@, "--images"@)
    &&& texts(f.review.filters@) == values_on(args, 0, "--filter"@, "--filter"@)
    &&& texts(f.review.media_files@) == values_on(args, 0, "--file"@, "--files"@)
    &&& f.in_place == sets(args, 0, "--in-place"@, "--in-place"@)
    &&& f.in_parent == sets(args, 0, "--in-parent"@, "--in-parent"@)
    &&& f.review.steal == sets(args, 0, "--steal"@, "--steal"@)
    &&& f.review.face_crop == sets(args, 0, "--face-crop"@, "--face-crop"@)
    &&& f.review.allow_partial == sets(args, 0, "--allow-partial"@, "--allow-partial"@)
    &&& f.review.media_confirm == sets(args, 0, "--confirm"@, "--confirmed"@)
    &&& count_of(f.review.shards) == count_on(args, "--shards"@, "--shards"@, usize::MAX as nat)
    &&& count_of(f.review.shard) == count_on(args, "--shard"@, "--shard"@, usize::MAX as nat)
    &&& count_of(f.review.page) == count_on(args, "--page"@, "--page"@, usize::MAX as nat)
    &&& count_of(f.review.repeats) == count_on(args, "--repeats"@, "--repeats"@, usize::MAX as nat)
    &&& count_of(f.review.concurrency_limit) == count_on(args, "--concurrency-limit"@, "--concurrency"@, usize::MAX as nat)
    &&& wide_of(f.review.media_cap_mb) == count_on(args, "--cap-mb"@, "--cap-mb"@, u64::MAX as nat)
    &&& signed_of(f.review.media_video_value) == (match value_on(args, "--value"@) {
        Some(v) => signed_value(v),
        None => None,
    })
    &&& f.review.lane_recursive == subfolders_on(args, 0)
}

proof fn lemma_text_read(kind: Seq<char>, args: Seq<Seq<char>>, label: Seq<char>)
    requires
        takes_values(label, label, label),
    ensures
        read_flags(kind, args, 0) matches Ok(t) ==> last_value(t, label) == value_on(args, label),
{
    lemma_values_read(kind, args, 0, label, label, label);
    if let Ok(t) = read_flags(kind, args, 0) {
        lemma_last_of_values(t, label);
    }
}

proof fn lemma_pair_read(kind: Seq<char>, args: Seq<Seq<char>>, name: Seq<char>, other: Seq<char>)
    requires
        takes_values(name, name, other),
    ensures
        read_flags(kind, args, 0) matches Ok(t) ==> all_values(t, name) == values_on(
            args,
            0,
            name,
            other,
        ) && last_value(t, name) == (if values_on(args, 0, name, other).len() == 0 {
            None
        } else {
            Some(values_on(args, 0, name, other).last())
        }),
{
    lemma_values_read(kind, args, 0, name, name, other);
    if let Ok(t) = read_flags(kind, args, 0) {
        lemma_last_of_values(t, name);
    }
}

proof fn lemma_switch_read(kind: Seq<char>, args: Seq<Seq<char>>, name: Seq<char>, other: Seq<char>)
    requires
        is_set(name, name, other),
    ensures
        read_flags(kind, args, 0) matches Ok(t) ==> was_given(t, name) == sets(args, 0, name, other),
{
    lemma_sets_read(kind, args, 0, name, name, other);
    if let Ok(t) = read_flags(kind, args, 0) {
        lemma_last_of_values(t, name);
    }
}

#[verifier::spinoff_prover]
proof fn lemma_holds_line(kind: Seq<char>, args: Seq<Seq<char>>, f: CommandFlags, t: Seq<TokenModel>)
    requires
        read_flags(kind, args, 0) == Ok::<Seq<TokenModel>, Seq<char>>(t),
        holds_tokens(f, t),
    ensures
        holds_line(f, args),
        last_value(t, "--actor"@) == value_on(args, "--actor"@),
        last_value(t, "--action-id"@) == value_on(args, "--action-id"@),
{
    assert(takes_values("--project"@, "--project"@, "--project"@)) by {
        reveal_strlit("--project");
        lemma_plain_name("--project"@);
    }
    assert(takes_values("--worktree"@, "--worktree"@, "--worktree"@)) by {
        reveal_strlit("--worktree");
        lemma_plain_name("--worktree"@);
    }
    assert(takes_values("--tab"@, "--tab"@, "--tab"@)) by {
        reveal_strlit("--tab");
        lemma_plain_name("--tab"@);
    }
    assert(takes_values("--run-id"@, "--run-id"@, "--run-id"@)) by {
        reveal_strlit("--run-id");
        lemma_plain_name("--run-id"@);
    }
    assert(takes_values("--path"@, "--path"@, "--path"@)) by {
        reveal_strlit("--path");
        lemma_plain_name("--path"@);
    }
    assert(takes_values("--dir"@, "--dir"@, "--dir"@)) by {
        reveal_strlit("--dir");
        lemma_plain_name("--dir"@);
    }
    assert(takes_values("--keep-dir"@, "--keep-dir"@, "--keep-dir"@)) by {
        reveal_strlit("--keep-dir");
        lemma_plain_name("--keep-dir"@);
    }
    assert(takes_values("--cull-dir"@, "--cull-dir"@, "--cull-dir"@)) by {
        reveal_strlit("--cull-dir");
        lemma_plain_name("--cull-dir"@);
    }
    assert(takes_values("--review-dir"@, "--review-dir"@, "--review-dir"@)) by {
        reveal_strlit("--review-dir");
        lemma_plain_name("--review-dir"@);
    }
    assert(takes_values("--session"@, "--session"@, "--session"@)) by {
        reveal_strlit("--session");
        lemma_plain_name("--session"@);
    }
    assert(takes_values("--id"@, "--id"@, "--id"@)) by {
        reveal_strlit("--id");
        lemma_plain_name("--id"@);
    }
    assert(takes_values("--decision"@, "--decision"@, "--decision"@)) by {
        reveal_strlit("--decision");
        lemma_plain_name("--decision"@);
    }
    assert(takes_values("--reason"@, "--reason"@, "--reason"@)) by {
        reveal_strlit("--reason");
        lemma_plain_name("--reason"@);
    }
    assert(takes_values("--actor"@, "--actor"@, "--actor"@)) by {
        reveal_strlit("--actor");
        lemma_plain_name("--actor"@);
    }
    assert(takes_values("--gate-manifest"@, "--gate-manifest"@, "--gate-manifest"@)) by {
        reveal_strlit("--gate-manifest");
        lemma_plain_name("--gate-manifest"@);
    }
    assert(takes_values("--clusters"@, "--clusters"@, "--clusters"@)) by {
        reveal_strlit("--clusters");
        lemma_plain_name("--clusters"@);
    }
    assert(takes_values("--out"@, "--out"@, "--out"@)) by {
        reveal_strlit("--out");
        lemma_plain_name("--out"@);
    }
    assert(takes_values("--name"@, "--name"@, "--name"@)) by {
        reveal_strlit("--name");
        lemma_plain_name("--name"@);
    }
    assert(takes_values("--threshold"@, "--threshold"@, "--threshold"@)) by {
        reveal_strlit("--threshold");
        lemma_plain_name("--threshold"@);
    }
    assert(takes_values("--lane-id"@, "--lane-id"@, "--lane-id"@)) by {
        reveal_strlit("--lane-id");
        lemma_plain_name("--lane-id"@);
    }
    assert(takes_values("--lane-name"@, "--lane-name"@, "--lane-name"@)) by {
        reveal_strlit("--lane-name");
        lemma_plain_name("--lane-name"@);
    }
    assert(takes_values("--lane-mode"@, "--lane-mode"@, "--lane-mode"@)) by {
        reveal_strlit("--lane-mode");
        lemma_plain_name("--lane-mode"@);
    }
    assert(takes_values("--notes"@, "--notes"@, "--notes"@)) by {
        reveal_strlit("--notes");
        lemma_plain_name("--notes"@);
    }
    assert(takes_values("--tags"@, "--tags"@, "--tags"@)) by {
        reveal_strlit("--tags");
        lemma_plain_name("--tags"@);
    }
    assert(takes_values("--label"@, "--label"@, "--label"@)) by {
        reveal_strlit("--label");
        lemma_plain_name("--label"@);
    }
    assert(takes_values("--hex"@, "--hex"@, "--hex"@)) by {
        reveal_strlit("--hex");
        lemma_plain_name("--hex"@);
    }
    assert(takes_values("--tag"@, "--tag"@, "--tag"@)) by {
        reveal_strlit("--tag");
        lemma_plain_name("--tag"@);
    }
    assert(takes_values("--query"@, "--query"@, "--query"@)) by {
        reveal_strlit("--query");
        lemma_plain_name("--query"@);
    }
    assert(takes_values("--mode"@, "--mode"@, "--mode"@)) by {
        reveal_strlit("--mode");
        lemma_plain_name("--mode"@);
    }
    assert(takes_values("--action"@, "--action"@, "--action"@)) by {
        reveal_strlit("--action");
        lemma_plain_name("--action"@);
    }
    assert(takes_values("--tab-id"@, "--tab-id"@, "--tab-id"@)) by {
        reveal_strlit("--tab-id");
        lemma_plain_name("--tab-id"@);
    }
    assert(takes_values("--action-id"@, "--action-id"@, "--action-id"@)) by {
        reveal_strlit("--action-id");
        lemma_plain_name("--action-id"@);
    }
    assert(takes_values("--shards"@, "--shards"@, "--shards"@)) by {
        reveal_strlit("--shards");
        lemma_plain_name("--shards"@);
    }
    assert(takes_values("--shard"@, "--shard"@, "--shard"@)) by {
        reveal_strlit("--shard");
        lemma_plain_name("--shard"@);
    }
    assert(takes_values("--page"@, "--page"@, "--page"@)) by {
        reveal_strlit("--page");
        lemma_plain_name("--page"@);
    }
    assert(takes_values("--repeats"@, "--repeats"@, "--repeats"@)) by {
        reveal_strlit("--repeats");
        lemma_plain_name("--repeats"@);
    }
    assert(takes_values("--cap-mb"@, "--cap-mb"@, "--cap-mb"@)) by {
        reveal_strlit("--cap-mb");
        lemma_plain_name("--cap-mb"@);
    }
    assert(takes_values("--value"@, "--value"@, "--value"@)) by {
        reveal_strlit("--value");
        lemma_plain_name("--value"@);
    }
    assert(takes_values("--filter"@, "--filter"@, "--filter"@)) by {
        reveal_strlit("--filter");
        lemma_plain_name("--filter"@);
    }
    lemma_double_names();
    lemma_text_read(kind, args, "--project"@);
    lemma_text_read(kind, args, "--worktree"@);
    lemma_text_read(kind, args, "--tab"@);
    lemma_text_read(kind, args, "--run-id"@);
    lemma_text_read(kind, args, "--path"@);
    lemma_text_read(kind, args, "--dir"@);
    lemma_text_read(kind, args, "--keep-dir"@);
    lemma_text_read(kind, args, "--cull-dir"@);
    lemma_text_read(kind, args, "--review-dir"@);
    lemma_text_read(kind, args, "--session"@);
    lemma_text_read(kind, args, "--id"@);
    lemma_text_read(kind, args, "--decision"@);
    lemma_text_read(kind, args, "--reason"@);
    lemma_text_read(kind, args, "--actor"@);
    lemma_text_read(kind, args, "--gate-manifest"@);
    lemma_text_read(kind, args, "--clusters"@);
    lemma_text_read(kind, args, "--out"@);
    lemma_text_read(kind, args, "--name"@);
    lemma_text_read(kind, args, "--threshold"@);
    lemma_text_read(kind, args, "--lane-id"@);
    lemma_text_read(kind, args, "--lane-name"@);
    lemma_text_read(kind, args, "--lane-mode"@);
    lemma_text_read(kind, args, "--notes"@);
    lemma_text_read(kind, args, "--tags"@);
    lemma_text_read(kind, args, "--label"@);
    lemma_text_read(kind, args, "--hex"@);
    lemma_text_read(kind, args, "--tag"@);
    lemma_text_read(kind, args, "--query"@);
    lemma_text_read(kind, args, "--mode"@);
    lemma_text_read(kind, args, "--action"@);
    lemma_text_read(kind, args, "--tab-id"@);
    lemma_text_read(kind, args, "--action-id"@);
    lemma_text_read(kind, args, "--shards"@);
    lemma_text_read(kind, args, "--shard"@);
    lemma_text_read(kind, args, "--page"@);
    lemma_text_read(kind, args, "--repeats"@);
    lemma_text_read(kind, args, "--cap-mb"@);
    lemma_text_read(kind, args, "--value"@);
    lemma_pair_read(kind, args, "--feature"@, "--features"@);
    lemma_pair_read(kind, args, "--image"@, "--images"@);
    lemma_pair_read(kind, args, "--file"@, "--files"@);
    lemma_pair_read(kind, args, "--concurrency-limit"@, "--concurrency"@);
    lemma_pair_read(kind, args, "--filter"@, "--filter"@);
    lemma_switch_read(kind, args, "--in-place"@, "--in-place"@);
    lemma_switch_read(kind, args, "--in-parent"@, "--in-parent"@);
    lemma_switch_read(kind, args, "--steal"@, "--steal"@);
    lemma_switch_read(kind, args, "--face-crop"@, "--face-crop"@);
    lemma_switch_read(kind, args, "--allow-partial"@, "--allow-partial"@);
    lemma_switch_read(kind, args, "--confirm"@, "--confirmed"@);
    lemma_recursion_read(kind, args, 0);
}

/// Commands on runs, files and identities hold what their line says. Each field comes
/// from its own flag, the last value of it where it is given more than once, and from no other.
#[verifier::spinoff_prover]
pub proof fn run_commands_say_what_their_line_says(
    kind: Seq<char>,
    args: Seq<Seq<char>>,
    f: CommandFlags,
    r: Result<Command, String>,
)
    requires
        line_outcome(kind, args, f, r),
        r is Ok,
    ensures
        match r->Ok_0.command {
            CommandKind::ListFeatures => {
                &&& ascii_lower(kind) == "list_features"@
            },
            CommandKind::ListModels => {
                &&& ascii_lower(kind) == "list_models"@
            },
            CommandKind::ListWorktrees => {
                &&& ascii_lower(kind) == "list_worktrees"@
            },
            CommandKind::GetState => {
                &&& ascii_lower(kind) == "get_state"@
            },
            CommandKind::StartRun { project_name, image_paths, feature_keys, worktree_path, in_place } => {
                &&& ascii_lower(kind) == "start_run"@
                &&& value_on(args, "--project"@) == Some(project_name@)
                &&& texts(image_paths@) == values_on(args, 0, "--image"@, "--images"@)
                &&& texts(feature_keys@) == values_on(args, 0, "--feature"@, "--features"@)
                &&& opt_text(worktree_path) == value_on(args, "--worktree"@)
                &&& in_place == sets(args, 0, "--in-place"@, "--in-place"@)
            },
            CommandKind::GetRunStatus { run_id } => {
                &&& ascii_lower(kind) == "get_run_status"@
                &&& value_on(args, "--run-id"@) == Some(run_id@)
            },
            CommandKind::GetRunSummary { run_id } => {
                &&& ascii_lower(kind) == "get_run_summary"@
                &&& value_on(args, "--run-id"@) == Some(run_id@)
            },
            CommandKind::ListArtifacts { run_id } => {
                &&& ascii_lower(kind) == "list_artifacts"@
                &&& value_on(args, "--run-id"@) == Some(run_id@)
            },
            CommandKind::ReadArtifact { path } => {
                &&& ascii_lower(kind) == "read_artifact"@
                &&& value_on(args, "--path"@) == Some(path@)
            },
            CommandKind::SetWorkspaceRoot { path } => {
                &&& ascii_lower(kind) == "set_workspace_root"@
                &&& value_on(args, "--path"@) == Some(path@)
            },
            CommandKind::SetCopyLocation { path } => {
                &&& ascii_lower(kind) == "set_copy_location"@
                &&& value_on(args, "--path"@) == Some(path@)
            },
            CommandKind::SortRun { run_id, in_parent, keep_dir, cull_dir, review_dir } => {
                &&& ascii_lower(kind) == "sort_run"@
                &&& value_on(args, "--run-id"@) == Some(run_id@)
                &&& in_parent == sets(args, 0, "--in-parent"@, "--in-parent"@)
                &&& keep_dir@ == text_on(args, "--keep-dir"@)
                &&& cull_dir@ == text_on(args, "--cull-dir"@)
                &&& review_dir@ == text_on(args, "--review-dir"@)
            },
            CommandKind::IdentityStatus => {
                &&& ascii_lower(kind) == "identity_status"@
            },
            CommandKind::IdentityGate { image } => {
                &&& ascii_lower(kind) == "identity_gate"@
                &&& image_on(args) == Some(image@)
            },
            CommandKind::IdentityGateDir { dir } => {
                &&& ascii_lower(kind) == "identity_gate_dir"@
                &&& either_on(args, "--dir"@, "--path"@) == Some(dir@)
            },
            CommandKind::IdentityDedup { dir, threshold } => {
                &&& ascii_lower(kind) == "identity_dedup"@
                &&& either_on(args, "--dir"@, "--path"@) == Some(dir@)
                &&& threshold@ == (match value_on(args, "--threshold"@) {
                Some(v) => v,
                None => "0.9"@,
            })
            },
            CommandKind::RenderEval { dir } => {
                &&& ascii_lower(kind) == "render_eval"@
                &&& either_on(args, "--dir"@, "--path"@) == Some(dir@)
            },
            CommandKind::CalibrateThreshold => {
                &&& ascii_lower(kind) == "calibrate_threshold"@
            },
            CommandKind::AnchorMontage { image } => {
                &&& ascii_lower(kind) == "anchor_montage"@
                &&& image_on(args) == Some(image@)
            },
            _ => true,
        },
{
    let t = read_flags(kind, args, 0)->Ok_0;
    lemma_holds_line(kind, args, f, t);
    let v = values_on(args, 0, "--image"@, "--images"@);
    if f.images@.len() > 0 {
        assert(texts(f.images@)[0] == f.images@[0]@);
    }
    assert(texts(f.features@).len() == f.features@.len());
    assert(texts(f.images@).len() == f.images@.len());
}

/// Commands on reviews and lanes hold what their line says. Each field comes
/// from its own flag, the last value of it where it is given more than once, and from no other.
#[verifier::spinoff_prover]
pub proof fn review_commands_say_what_their_line_says(
    kind: Seq<char>,
    args: Seq<Seq<char>>,
    f: CommandFlags,
    r: Result<Command, String>,
)
    requires
        line_outcome(kind, args, f, r),
        r is Ok,
    ensures
        match r->Ok_0.command {
            CommandKind::ReviewInit { dir, shards, gate_manifest, clusters } => {
                &&& ascii_lower(kind) == "review_init"@
                &&& either_on(args, "--dir"@, "--path"@) == Some(dir@)
                &&& shards == (match count_on(args, "--shards"@, "--shards"@, usize::MAX as nat) {
                Some(n) => n,
                None => 1nat,
            })
                &&& opt_text(gate_manifest) == value_on(args, "--gate-manifest"@)
                &&& opt_text(clusters) == value_on(args, "--clusters"@)
            },
            CommandKind::ReviewMontage { session, shard, page, face_crop, filters } => {
                &&& ascii_lower(kind) == "review_montage"@
                &&& value_on(args, "--session"@) == Some(session@)
                &&& count_of(shard) == count_on(args, "--shard"@, "--shard"@, usize::MAX as nat)
                &&& page == (match count_on(args, "--page"@, "--page"@, usize::MAX as nat) {
                Some(n) => n,
                None => 0nat,
            })
                &&& face_crop == sets(args, 0, "--face-crop"@, "--face-crop"@)
                &&& texts(filters@) == values_on(args, 0, "--filter"@, "--filter"@)
            },
            CommandKind::ReviewExport { session, out, repeats, name, allow_partial } => {
                &&& ascii_lower(kind) == "review_export"@
                &&& value_on(args, "--session"@) == Some(session@)
                &&& value_on(args, "--out"@) == Some(out@)
                &&& repeats == (match count_on(args, "--repeats"@, "--repeats"@, usize::MAX as nat) {
                Some(n) => n,
                None => 10nat,
            })
                &&& value_on(args, "--name"@) == Some(name@)
                &&& allow_partial == sets(args, 0, "--allow-partial"@, "--allow-partial"@)
            },
            CommandKind::ReviewClaim { session, shard, actor, steal } => {
                &&& ascii_lower(kind) == "review_claim"@
                &&& value_on(args, "--session"@) == Some(session@)
                &&& count_of(shard) == count_on(args, "--shard"@, "--shard"@, usize::MAX as nat)
                &&& actor@ == text_on(args, "--actor"@)
                &&& steal == sets(args, 0, "--steal"@, "--steal"@)
            },
            CommandKind::ReviewDecide { session, id, decision, reason, actor } => {
                &&& ascii_lower(kind) == "review_decide"@
                &&& value_on(args, "--session"@) == Some(session@)
                &&& value_on(args, "--id"@) == Some(id@)
                &&& value_on(args, "--decision"@) == Some(decision@)
                &&& reason@ == text_on(args, "--reason"@)
                &&& actor@ == text_on(args, "--actor"@)
            },
            CommandKind::ReviewStatus { session } => {
                &&& ascii_lower(kind) == "review_status"@
                &&& value_on(args, "--session"@) == Some(session@)
            },
            CommandKind::ListLanes => {
                &&& ascii_lower(kind) == "list_lanes"@
            },
            CommandKind::SetLane { lane_id, name, mode, folder, recursive, steal, feature_keys } => {
                &&& ascii_lower(kind) == "set_lane"@
                &&& value_on(args, "--lane-id"@) == Some(lane_id@)
                &&& opt_text(name) == value_on(args, "--lane-name"@)
                &&& opt_text(mode) == value_on(args, "--lane-mode"@)
                &&& either_on(args, "--dir"@, "--path"@) == opt_text(folder)
                &&& recursive == subfolders_on(args, 0)
                &&& steal == sets(args, 0, "--steal"@, "--steal"@)
                &&& (match feature_keys {
                Some(v) => v@.len() > 0 && texts(v@) == values_on(args, 0, "--feature"@, "--features"@),
                None => values_on(args, 0, "--feature"@, "--features"@).len() == 0,
            })
            },
            CommandKind::ScanLane { lane_id, steal } => {
                &&& ascii_lower(kind) == "scan_lane"@
                &&& value_on(args, "--lane-id"@) == Some(lane_id@)
                &&& steal == sets(args, 0, "--steal"@, "--steal"@)
            },
            CommandKind::ScanAllLanes { steal } => {
                &&& ascii_lower(kind) == "scan_all_lanes"@
                &&& steal == sets(args, 0, "--steal"@, "--steal"@)
            },
            CommandKind::ClaimLane { lane_id, actor, steal } => {
                &&& ascii_lower(kind) == "claim_lane"@
                &&& value_on(args, "--lane-id"@) == Some(lane_id@)
                &&& actor@ == text_on(args, "--actor"@)
                &&& steal == sets(args, 0, "--steal"@, "--steal"@)
            },
            CommandKind::ReleaseLane { lane_id, actor, steal } => {
                &&& ascii_lower(kind) == "release_lane"@
                &&& value_on(args, "--lane-id"@) == Some(lane_id@)
                &&& actor@ == text_on(args, "--actor"@)
                &&& steal == sets(args, 0, "--steal"@, "--steal"@)
            },
            CommandKind::LaneStatus { lane_id } => {
                &&& ascii_lower(kind) == "lane_status"@
                &&& opt_text(lane_id) == value_on(args, "--lane-id"@)
            },
            CommandKind::StartLaneBatch { lane_id, project_name, feature_keys, in_place, steal } => {
                &&& ascii_lower(kind) == "start_lane_batch"@
                &&& value_on(args, "--lane-id"@) == Some(lane_id@)
                &&& project_name@ == text_on(args, "--project"@)
                &&& texts(feature_keys@) == values_on(args, 0, "--feature"@, "--features"@)
                &&& in_place == sets(args, 0, "--in-place"@, "--in-place"@)
                &&& steal == sets(args, 0, "--steal"@, "--steal"@)
            },
            CommandKind::StartAllLaneBatches { project_name, feature_keys, concurrency_limit, in_place, steal } => {
                &&& ascii_lower(kind) == "start_all_lane_batches"@
                &&& project_name@ == text_on(args, "--project"@)
                &&& texts(feature_keys@) == values_on(args, 0, "--feature"@, "--features"@)
                &&& concurrency_limit == (match count_on(args, "--concurrency-limit"@, "--concurrency"@, usize::MAX as nat) {
                Some(n) => n,
                None => 2nat,
            })
                &&& in_place == sets(args, 0, "--in-place"@, "--in-place"@)
                &&& steal == sets(args, 0, "--steal"@, "--steal"@)
            },
            _ => true,
        },
{
    let t = read_flags(kind, args, 0)->Ok_0;
    lemma_holds_line(kind, args, f, t);
    let v = values_on(args, 0, "--image"@, "--images"@);
    if f.images@.len() > 0 {
        assert(texts(f.images@)[0] == f.images@[0]@);
    }
    assert(texts(f.features@).len() == f.features@.len());
    assert(texts(f.images@).len() == f.images@.len());
}

/// Commands on the metadata, labels and indexes of media hold what their line says. Each field comes
/// from its own flag, the last value of it where it is given more than once, and from no other.
#[verifier::spinoff_prover]
pub proof fn media_commands_say_what_their_line_says(
    kind: Seq<char>,
    args: Seq<Seq<char>>,
    f: CommandFlags,
    r: Result<Command, String>,
)
    requires
        line_outcome(kind, args, f, r),
        r is Ok,
    ensures
        match r->Ok_0.command {
            CommandKind::MediaMetaGet { path } => {
                &&& ascii_lower(kind) == "media_meta_get"@
                &&& value_on(args, "--path"@) == Some(path@)
            },
            CommandKind::MediaMetaSet { path, notes, tags, label } => {
                &&& ascii_lower(kind) == "media_meta_set"@
                &&& value_on(args, "--path"@) == Some(path@)
                &&& opt_text(notes) == value_on(args, "--notes"@)
                &&& opt_text(tags) == value_on(args, "--tags"@)
                &&& opt_text(label) == value_on(args, "--label"@)
            },
            CommandKind::MediaMetaList { tag, label } => {
                &&& ascii_lower(kind) == "media_meta_list"@
                &&& opt_text(tag) == value_on(args, "--tag"@)
                &&& opt_text(label) == value_on(args, "--label"@)
            },
            CommandKind::MediaLabelsList => {
                &&& ascii_lower(kind) == "media_labels_list"@
            },
            CommandKind::MediaLabelConfigure { id, name, hex } => {
                &&& ascii_lower(kind) == "media_label_configure"@
                &&& value_on(args, "--label"@) == Some(id@)
                &&& value_on(args, "--name"@) == Some(name@)
                &&& value_on(args, "--hex"@) == Some(hex@)
            },
            CommandKind::MediaLabelCreate { name, hex, path } => {
                &&& ascii_lower(kind) == "media_label_create"@
                &&& value_on(args, "--name"@) == Some(name@)
                &&& value_on(args, "--hex"@) == Some(hex@)
                &&& opt_text(path) == value_on(args, "--path"@)
            },
            CommandKind::MediaLabelUpdate { id, name, hex } => {
                &&& ascii_lower(kind) == "media_label_update"@
                &&& value_on(args, "--label"@) == Some(id@)
                &&& opt_text(name) == value_on(args, "--name"@)
                &&& opt_text(hex) == value_on(args, "--hex"@)
            },
            CommandKind::MediaLabelDelete { id, confirmed } => {
                &&& ascii_lower(kind) == "media_label_delete"@
                &&& value_on(args, "--label"@) == Some(id@)
                &&& confirmed == sets(args, 0, "--confirm"@, "--confirmed"@)
            },
            CommandKind::MediaLabelAssign { path, id, action } => {
                &&& ascii_lower(kind) == "media_label_assign"@
                &&& value_on(args, "--path"@) == Some(path@)
                &&& opt_text(id) == value_on(args, "--label"@)
                &&& value_on(args, "--action"@) is Some && action@ == ascii_lower(value_on(args, "--action"@)->0)
            },
            CommandKind::MediaFavAdd { path } => {
                &&& ascii_lower(kind) == "media_fav_add"@
                &&& value_on(args, "--path"@) == Some(path@)
            },
            CommandKind::MediaFavRemove { path } => {
                &&& ascii_lower(kind) == "media_fav_remove"@
                &&& value_on(args, "--path"@) == Some(path@)
            },
            CommandKind::MediaFavList => {
                &&& ascii_lower(kind) == "media_fav_list"@
            },
            CommandKind::ThumbsGc { cap_mb } => {
                &&& ascii_lower(kind) == "thumbs_gc"@
                &&& wide_of(cap_mb) == count_on(args, "--cap-mb"@, "--cap-mb"@, u64::MAX as nat)
            },
            CommandKind::MediaIndexBuild { dir, recursive } => {
                &&& ascii_lower(kind) == "media_index_build"@
                &&& either_on(args, "--dir"@, "--path"@) == Some(dir@)
                &&& recursive == (subfolders_on(args, 0) == Some(true))
            },
            CommandKind::MediaSemanticSearch { query, dir, limit } => {
                &&& ascii_lower(kind) == "media_semantic_search"@
                &&& value_on(args, "--query"@) == Some(query@)
                &&& either_on(args, "--dir"@, "--path"@) == Some(dir@)
                &&& count_of(limit) == count_on(args, "--concurrency-limit"@, "--concurrency"@, usize::MAX as nat)
            },
            _ => true,
        },
{
    let t = read_flags(kind, args, 0)->Ok_0;
    lemma_holds_line(kind, args, f, t);
    let v = values_on(args, 0, "--image"@, "--images"@);
    if f.images@.len() > 0 {
        assert(texts(f.images@)[0] == f.images@[0]@);
    }
    assert(texts(f.features@).len() == f.features@.len());
    assert(texts(f.images@).len() == f.images@.len());
}

/// Commands for the window hold what their line says. Each field comes
/// from its own flag, the last value of it where it is given more than once, and from no other.
#[verifier::spinoff_prover]
pub proof fn window_commands_say_what_their_line_says(
    kind: Seq<char>,
    args: Seq<Seq<char>>,
    f: CommandFlags,
    r: Result<Command, String>,
)
    requires
        line_outcome(kind, args, f, r),
        r is Ok,
    ensures
        match r->Ok_0.command {
            CommandKind::SetProject { project_name } => {
                &&& ascii_lower(kind) == "set_project"@
                &&& value_on(args, "--project"@) == Some(project_name@)
            },
            CommandKind::SetWorktree { worktree_path } => {
                &&& ascii_lower(kind) == "set_worktree"@
                &&& value_on(args, "--worktree"@) == Some(worktree_path@)
            },
            CommandKind::SelectTab { tab } => {
                &&& ascii_lower(kind) == "select_tab"@
                &&& value_on(args, "--tab"@) == Some(tab@)
            },
            CommandKind::SetFeatures { feature_keys } => {
                &&& ascii_lower(kind) == "set_features"@
                &&& texts(feature_keys@) == values_on(args, 0, "--feature"@, "--features"@)
            },
            CommandKind::SetInPlace { in_place } => {
                &&& ascii_lower(kind) == "set_in_place"@
                &&& in_place == sets(args, 0, "--in-place"@, "--in-place"@)
            },
            CommandKind::ImportPaths { project_name, paths, in_place } => {
                &&& ascii_lower(kind) == "import_paths"@
                &&& value_on(args, "--project"@) == Some(project_name@)
                &&& texts(paths@) == values_on(args, 0, "--image"@, "--images"@)
                &&& in_place == sets(args, 0, "--in-place"@, "--in-place"@)
            },
            CommandKind::StartRunUi => {
                &&& ascii_lower(kind) == "start_run_ui"@
            },
            CommandKind::UiSnapshot { output } => {
                &&& ascii_lower(kind) == "ui_snapshot"@
                &&& opt_text(output) == value_on(args, "--out"@)
            },
            CommandKind::MediaSetFolder { path } => {
                &&& ascii_lower(kind) == "media_set_folder"@
                &&& either_on(args, "--dir"@, "--path"@) == Some(path@)
            },
            CommandKind::MediaSearch { query, mode } => {
                &&& ascii_lower(kind) == "media_search"@
                &&& value_on(args, "--query"@) == Some(query@)
                &&& opt_text(mode) == value_on(args, "--mode"@)
            },
            CommandKind::MediaSelect { paths } => {
                &&& ascii_lower(kind) == "media_select"@
                &&& texts(paths@) == values_on(args, 0, "--file"@, "--files"@)
            },
            CommandKind::MediaOpenSelected => {
                &&& ascii_lower(kind) == "media_open_selected"@
            },
            CommandKind::MediaTabs { action, tab_id, path } => {
                &&& ascii_lower(kind) == "media_tabs"@
                &&& value_on(args, "--action"@) is Some && action@ == ascii_lower(value_on(args, "--action"@)->0)
                &&& opt_text(tab_id) == value_on(args, "--tab-id"@)
                &&& opt_text(path) == value_on(args, "--path"@)
            },
            CommandKind::MediaFolderNavigate { action } => {
                &&& ascii_lower(kind) == "media_folder_navigate"@
                &&& value_on(args, "--action"@) is Some && action@ == ascii_lower(value_on(args, "--action"@)->0)
            },
            CommandKind::MediaVideoControl { action, value, output } => {
                &&& ascii_lower(kind) == "media_video_control"@
                &&& value_on(args, "--action"@) is Some && action@ == ascii_lower(value_on(args, "--action"@)->0)
                &&& signed_of(value) == (match value_on(args, "--value"@) {
                Some(v) => signed_value(v),
                None => None,
            })
                &&& opt_text(output) == value_on(args, "--out"@)
            },
            CommandKind::MediaLabelMutation { action, path, id, name, hex, confirmed } => {
                &&& ascii_lower(kind) == "media_label_mutation"@
                &&& value_on(args, "--action"@) is Some && action@ == ascii_lower(value_on(args, "--action"@)->0)
                &&& opt_text(path) == value_on(args, "--path"@)
                &&& opt_text(id) == value_on(args, "--label"@)
                &&& opt_text(name) == value_on(args, "--name"@)
                &&& opt_text(hex) == value_on(args, "--hex"@)
                &&& confirmed == sets(args, 0, "--confirm"@, "--confirmed"@)
            },
            _ => true,
        },
{
    let t = read_flags(kind, args, 0)->Ok_0;
    lemma_holds_line(kind, args, f, t);
    let v = values_on(args, 0, "--image"@, "--images"@);
    if f.images@.len() > 0 {
        assert(texts(f.images@)[0] == f.images@[0]@);
    }
    assert(texts(f.features@).len() == f.features@.len());
    assert(texts(f.images@).len() == f.images@.len());
}

/// A command carries the actor and the identity that its line names, and a new identity where it
/// names none.
pub proof fn commands_carry_their_actor_and_identity(
    kind: Seq<char>,
    args: Seq<Seq<char>>,
    f: CommandFlags,
    r: Result<Command, String>,
)
    requires
        line_outcome(kind, args, f, r),
        r is Ok,
    ensures
        opt_text(r->Ok_0.actor) == value_on(args, "--actor"@),
        value_on(args, "--action-id"@) is Some ==> r->Ok_0.action_id@ == value_on(
            args,
            "--action-id"@,
        )->0,
        value_on(args, "--action-id"@) is None ==> r->Ok_0.action_id@.len() == 36,
        r->Ok_0.issued_at is Some,
{
    let t = read_flags(kind, args, 0)->Ok_0;
    lemma_holds_line(kind, args, f, t);
}

/// What a flag says does not depend on the values of other flags: a line on which only those differ
/// gives it the same values.
pub proof fn values_of_other_flags_do_not_matter(
    args: Seq<Seq<char>>,
    changed: Seq<Seq<char>>,
    i: nat,
    name: Seq<char>,
    other: Seq<char>,
    at: int,
)
    requires
        changed.len() == args.len(),
        forall|j: int| 0 <= j < args.len() && j != at ==> #[trigger] changed[j] == args[j],
        is_value_place(args, i, at),
        at > 0 ==> args[at - 1] != name && args[at - 1] != other,
    ensures
        values_on(changed, i, name, other) == values_on(args, i, name, other),
    decreases args.len() + 1 - i,
{
    if i < args.len() {
        if stands_alone(args[i as int]) {
            assert(changed[i as int] == args[i as int]);
            values_of_other_flags_do_not_matter(args, changed, i + 1, name, other, at);
        } else if i + 1 < args.len() {
            assert(changed[i as int] == args[i as int]);
            if at == i + 1 {
                lemma_beyond(args, changed, i + 2, name, other, at);
            } else {
                values_of_other_flags_do_not_matter(args, changed, i + 2, name, other, at);
                assert(changed[i as int + 1] == args[i as int + 1]);
            }
        }
    }
}

/// Whether a place of a line, read from place `i` on, holds the value of a flag.
pub open spec fn is_value_place(args: Seq<Seq<char>>, i: nat, at: int) -> bool
    decreases args.len() + 1 - i,
{
    if i >= args.len() {
        false
    } else if stands_alone(args[i as int]) {
        at != i && is_value_place(args, i + 1, at)
    } else {
        at == i + 1 || (at != i && is_value_place(args, i + 2, at))
    }
}

proof fn lemma_beyond(
    args: Seq<Seq<char>>,
    changed: Seq<Seq<char>>,
    i: nat,
    name: Seq<char>,
    other: Seq<char>,
    at: int,
)
    requires
        changed.len() == args.len(),
        at < i,
        forall|j: int| 0 <= j < args.len() && j != at ==> #[trigger] changed[j] == args[j],
    ensures
        values_on(changed, i, name, other) == values_on(args, i, name, other),
    decreases args.len() + 1 - i,
{
    if i < args.len() {
        assert(changed[i as int] == args[i as int]);
        if i + 1 < args.len() {
            assert(changed[i as int + 1] == args[i as int + 1]);
        }
        lemma_beyond(args, changed, i + 1, name, other, at);
        lemma_beyond(args, changed, i + 2, name, other, at);
    }
}

/// Whether a flag stands at a place of a line, read from place `i` on.
pub open spec fn is_flag_place(args: Seq<Seq<char>>, i: nat, at: nat) -> bool
    decreases args.len() + 1 - i,
{
    at == i || (i < args.len() && if stands_alone(args[i as int]) {
        is_flag_place(args, i + 1, at)
    } else {
        is_flag_place(args, i + 2, at)
    })
}

/// A line is refused for a flag that is unknown, that lacks its value, or whose value is no number
/// where one is asked for, wherever on the line the flag stands.
pub proof fn bad_flags_refuse_the_line(kind: Seq<char>, args: Seq<Seq<char>>, i: nat, at: nat)
    requires
        is_flag_place(args, i, at),
        at < args.len(),
        ({
            let flag = args[at as int];
            ||| shape_of(flag) is None
            ||| !stands_alone(flag) && at + 1 == args.len()
            ||| (flag == "--shards"@ || flag == "--shard"@ || flag == "--page"@ || flag
                == "--repeats"@ || flag == "--concurrency"@ || flag == "--concurrency-limit"@)
                && unsigned_value(args[at as int + 1], usize::MAX as nat) is None
            ||| flag == "--cap-mb"@ && unsigned_value(args[at as int + 1], u64::MAX as nat) is None
            ||| flag == "--value"@ && signed_value(args[at as int + 1]) is None
            ||| flag == "--threshold"@ && !crate::number::is_float_text(args[at as int + 1])
        }),
    ensures
        read_flags(kind, args, i) is Err,
    decreases args.len() + 1 - i,
{
    if at == i {
        lemma_number_flags();
    } else if stands_alone(args[i as int]) {
        bad_flags_refuse_the_line(kind, args, i + 1, at);
    } else {
        bad_flags_refuse_the_line(kind, args, i + 2, at);
    }
}

#[verifier::spinoff_prover]
proof fn lemma_number_flags()
    ensures
        shape_of("--shards"@) == Some(FlagShape::Count),
        shape_of("--shard"@) == Some(FlagShape::Count),
        shape_of("--page"@) == Some(FlagShape::Count),
        shape_of("--repeats"@) == Some(FlagShape::Count),
        shape_of("--concurrency"@) == Some(FlagShape::Count),
        shape_of("--concurrency-limit"@) == Some(FlagShape::Count),
        shape_of("--cap-mb"@) == Some(FlagShape::Wide),
        shape_of("--value"@) == Some(FlagShape::Signed),
        shape_of("--threshold"@) == Some(FlagShape::Fraction),
{
    reveal_strlit("--in-place");
    reveal_strlit("--in-parent");
    reveal_strlit("--steal");
    reveal_strlit("--face-crop");
    reveal_strlit("--allow-partial");
    reveal_strlit("--recursive");
    reveal_strlit("--no-recursive");
    reveal_strlit("--confirm");
    reveal_strlit("--confirmed");
    reveal_strlit("--action-id");
    reveal_strlit("--actor");
    reveal_strlit("--project");
    reveal_strlit("--worktree");
    reveal_strlit("--tab");
    reveal_strlit("--run-id");
    reveal_strlit("--path");
    reveal_strlit("--feature");
    reveal_strlit("--features");
    reveal_strlit("--image");
    reveal_strlit("--images");
    reveal_strlit("--dir");
    reveal_strlit("--session");
    reveal_strlit("--id");
    reveal_strlit("--decision");
    reveal_strlit("--reason");
    reveal_strlit("--gate-manifest");
    reveal_strlit("--clusters");
    reveal_strlit("--filter");
    reveal_strlit("--out");
    reveal_strlit("--name");
    reveal_strlit("--lane-id");
    reveal_strlit("--lane-name");
    reveal_strlit("--lane-mode");
    reveal_strlit("--keep-dir");
    reveal_strlit("--cull-dir");
    reveal_strlit("--review-dir");
    reveal_strlit("--notes");
    reveal_strlit("--tags");
    reveal_strlit("--label");
    reveal_strlit("--hex");
    reveal_strlit("--tag");
    reveal_strlit("--query");
    reveal_strlit("--mode");
    reveal_strlit("--file");
    reveal_strlit("--files");
    reveal_strlit("--action");
    reveal_strlit("--tab-id");
    reveal_strlit("--shards");
    reveal_strlit("--shard");
    reveal_strlit("--page");
    reveal_strlit("--repeats");
    reveal_strlit("--concurrency");
    reveal_strlit("--concurrency-limit");
    reveal_strlit("--cap-mb");
    reveal_strlit("--value");
    reveal_strlit("--threshold");
    assert("--in-place"@.len() == 10);
    assert("--in-parent"@.len() == 11);
    assert("--steal"@.len() == 7);
    assert("--face-crop"@.len() == 11);
    assert("--allow-partial"@.len() == 15);
    assert("--recursive"@.len() == 11);
    assert("--no-recursive"@.len() == 14);
    assert("--confirm"@.len() == 9);
    assert("--confirmed"@.len() == 11);
    assert("--action-id"@.len() == 11);
    assert("--actor"@.len() == 7);
    assert("--project"@.len() == 9);
    assert("--worktree"@.len() == 10);
    assert("--tab"@.len() == 5);
    assert("--run-id"@.len() == 8);
    assert("--path"@.len() == 6);
    assert("--feature"@.len() == 9);
    assert("--features"@.len() == 10);
    assert("--image"@.len() == 7);
    assert("--images"@.len() == 8);
    assert("--dir"@.len() == 5);
    assert("--session"@.len() == 9);
    assert("--id"@.len() == 4);
    assert("--decision"@.len() == 10);
    assert("--reason"@.len() == 8);
    assert("--gate-manifest"@.len() == 15);
    assert("--clusters"@.len() == 10);
    assert("--filter"@.len() == 8);
    assert("--out"@.len() == 5);
    assert("--name"@.len() == 6);
    assert("--lane-id"@.len() == 9);
    assert("--lane-name"@.len() == 11);
    assert("--lane-mode"@.len() == 11);
    assert("--keep-dir"@.len() == 10);
    assert("--cull-dir"@.len() == 10);
    assert("--review-dir"@.len() == 12);
    assert("--notes"@.len() == 7);
    assert("--tags"@.len() == 6);
    assert("--label"@.len() == 7);
    assert("--hex"@.len() == 5);
    assert("--tag"@.len() == 5);
    assert("--query"@.len() == 7);
    assert("--mode"@.len() == 6);
    assert("--file"@.len() == 6);
    assert("--files"@.len() == 7);
    assert("--action"@.len() == 8);
    assert("--tab-id"@.len() == 8);
    assert("--shards"@.len() == 8);
    assert("--shard"@.len() == 7);
    assert("--page"@.len() == 6);
    assert("--repeats"@.len() == 9);
    assert("--concurrency"@.len() == 13);
    assert("--concurrency-limit"@.len() == 19);
    assert("--cap-mb"@.len() == 8);
    assert("--value"@.len() == 7);
    assert("--threshold"@.len() == 11);
    assert("--shards"@[2] != "--run-id"@[2]);
    assert("--shards"@[2] != "--images"@[2]);
    assert("--shards"@[2] != "--reason"@[2]);
    assert("--shards"@[2] != "--filter"@[2]);
    assert("--shards"@[2] != "--action"@[2]);
    assert("--shards"@[2] != "--tab-id"@[2]);
    assert("--shards"@[2] != "--cap-mb"@[2]);
    assert("--shard"@[3] != "--steal"@[3]);
    assert("--shard"@[2] != "--actor"@[2]);
    assert("--shard"@[2] != "--image"@[2]);
    assert("--shard"@[2] != "--notes"@[2]);
    assert("--shard"@[2] != "--label"@[2]);
    assert("--shard"@[2] != "--query"@[2]);
    assert("--shard"@[2] != "--files"@[2]);
    assert("--shard"@[2] != "--value"@[2]);
    assert("--page"@[4] != "--path"@[4]);
    assert("--page"@[2] != "--name"@[2]);
    assert("--page"@[2] != "--tags"@[2]);
    assert("--page"@[2] != "--mode"@[2]);
    assert("--page"@[2] != "--file"@[2]);
    assert("--repeats"@[2] != "--confirm"@[2]);
    assert("--repeats"@[2] != "--project"@[2]);
    assert("--repeats"@[2] != "--feature"@[2]);
    assert("--repeats"@[2] != "--session"@[2]);
    assert("--repeats"@[2] != "--lane-id"@[2]);
    assert("--cap-mb"@[2] != "--run-id"@[2]);
    assert("--cap-mb"@[2] != "--images"@[2]);
    assert("--cap-mb"@[2] != "--reason"@[2]);
    assert("--cap-mb"@[2] != "--filter"@[2]);
    assert("--cap-mb"@[2] != "--action"@[2]);
    assert("--cap-mb"@[2] != "--tab-id"@[2]);
    assert("--cap-mb"@[2] != "--shards"@[2]);
    assert("--value"@[2] != "--steal"@[2]);
    assert("--value"@[2] != "--actor"@[2]);
    assert("--value"@[2] != "--image"@[2]);
    assert("--value"@[2] != "--notes"@[2]);
    assert("--value"@[2] != "--label"@[2]);
    assert("--value"@[2] != "--query"@[2]);
    assert("--value"@[2] != "--files"@[2]);
    assert("--value"@[2] != "--shard"@[2]);
    assert("--threshold"@[2] != "--in-parent"@[2]);
    assert("--threshold"@[2] != "--face-crop"@[2]);
    assert("--threshold"@[2] != "--recursive"@[2]);
    assert("--threshold"@[2] != "--confirmed"@[2]);
    assert("--threshold"@[2] != "--action-id"@[2]);
    assert("--threshold"@[2] != "--lane-name"@[2]);
    assert("--threshold"@[2] != "--lane-mode"@[2]);
}

} // verus!
