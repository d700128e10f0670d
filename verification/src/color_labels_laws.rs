//! What the palette of color labels promises.

use crate::api::{ActionStatus, Receipt};
use crate::color_labels::{
    accepted_catalog_is_consistent, built_in_ids_are_valid, built_in_labels, canonical_color,
    canonical_color_is_canonical, catalog_validates_to_itself, checked_catalog, fixed_label, has_id,
    label, label_named, lemma_label_id_trimmed, tidy_ids, trimming_is_idempotent,
    ColorLabelDefinition, LabelModel,
};
use crate::media_commands::{label_create_outcome, label_made};
use crate::media_db::{
    current_ids_are_valid, is_new_label_id, label_with_id, migrated_ids, new_ids_are_stable,
    next_label, Access, MediaDb,
};
use crate::media_db_laws::{is_sound, lemma_fit, palettes_are_accepted_where_they_are_sound};
use crate::text::{ascii_lower, trimmed};
use vstd::prelude::*;

verus! {

/// The palette that comes with the program has seven labels, named by their color. Each id is a word
/// of the fixed vocabulary, and is the name in lower case.
pub proof fn built_in_labels_are_named_by_their_color(i: int)
    requires
        0 <= i < built_in_labels().len(),
    ensures
        built_in_labels().len() == 7,
        ascii_lower(built_in_labels()[i].name) == built_in_labels()[i].id,
        fixed_label(built_in_labels()[i].id) == Some(built_in_labels()[i].id),
        built_in_labels()[i].hex.len() == 7,
        built_in_labels()[i].hex[0] == '#',
        built_in_labels()[6].id == "gray"@,
        built_in_labels()[0].id == "red"@,
{
    reveal_strlit("red");
    reveal_strlit("orange");
    reveal_strlit("yellow");
    reveal_strlit("green");
    reveal_strlit("blue");
    reveal_strlit("purple");
    reveal_strlit("gray");
    reveal_strlit("Red");
    reveal_strlit("Orange");
    reveal_strlit("Yellow");
    reveal_strlit("Green");
    reveal_strlit("Blue");
    reveal_strlit("Purple");
    reveal_strlit("Gray");
    reveal_strlit("#C63E35");
    reveal_strlit("#E28A2C");
    reveal_strlit("#DEC33E");
    reveal_strlit("#54A65C");
    reveal_strlit("#4682C4");
    reveal_strlit("#945CC4");
    reveal_strlit("#808080");
    let d = built_in_labels()[i];
    assert(ascii_lower("Red"@) =~= "red"@);
    assert(ascii_lower("Orange"@) =~= "orange"@);
    assert(ascii_lower("Yellow"@) =~= "yellow"@);
    assert(ascii_lower("Green"@) =~= "green"@);
    assert(ascii_lower("Blue"@) =~= "blue"@);
    assert(ascii_lower("Purple"@) =~= "purple"@);
    assert(ascii_lower("Gray"@) =~= "gray"@);
    built_in_ids_are_valid();
    lemma_label_id_trimmed(d.id);
    assert(ascii_lower(d.id) =~= d.id);
}

/// A tidy list holds the entries of a list without the white space around them, each once and at its
/// first place, and no blank ones.
pub proof fn tidying_keeps_the_first_of_each(ids: Seq<Seq<char>>, one: Seq<char>, id: Seq<char>)
    ensures
        tidy_ids(Seq::empty()) == Seq::<Seq<char>>::empty(),
        trimmed(one).len() == 0 ==> tidy_ids(ids.push(one)) == tidy_ids(ids),
        tidy_ids(ids).contains(trimmed(one)) ==> tidy_ids(ids.push(one)) == tidy_ids(ids),
        trimmed(one).len() > 0 && !tidy_ids(ids).contains(trimmed(one)) ==> tidy_ids(ids.push(one))
            == tidy_ids(ids).push(trimmed(one)),
        tidy_ids(ids).contains(id) <==> id.len() > 0 && exists|i: int|
            0 <= i < ids.len() && trimmed(#[trigger] ids[i]) == id,
        tidy_ids(ids).no_duplicates(),
    decreases ids.len(),
{
    let more = ids.push(one);
    assert(more.drop_last() =~= ids);
    assert(more.last() == one);
    if ids.len() > 0 {
        let rest = ids.drop_last();
        let last = ids.last();
        tidying_keeps_the_first_of_each(rest, last, id);
        assert(rest.push(last) =~= ids);
        let done = tidy_ids(rest);
        let word = trimmed(last);
        let all = tidy_ids(ids);
        if exists|i: int| 0 <= i < rest.len() && trimmed(#[trigger] rest[i]) == id {
            let i = choose|i: int| 0 <= i < rest.len() && trimmed(#[trigger] rest[i]) == id;
            assert(ids[i] == rest[i]);
        }
        if exists|i: int| 0 <= i < ids.len() && trimmed(#[trigger] ids[i]) == id {
            let i = choose|i: int| 0 <= i < ids.len() && trimmed(#[trigger] ids[i]) == id;
            if i < rest.len() {
                assert(rest[i] == ids[i]);
            }
        }
        if word == id {
            assert(trimmed(ids[ids.len() - 1]) == id);
        }
        if word.len() > 0 && !done.contains(word) {
            assert(all == done.push(word));
            assert(all[done.len() as int] == word);
            if done.contains(id) {
                assert(all[done.index_of(id)] == id);
            }
            if all.contains(id) && id != word {
                assert(done[all.index_of(id)] == id);
            }
        }
    }
}

proof fn lemma_with_id(defs: Seq<LabelModel>, id: Seq<char>, at: int)
    requires
        0 <= at < defs.len(),
        defs[at].id == id,
        forall|i: int| 0 <= i < at ==> (#[trigger] defs[i]).id != id,
    ensures
        label_with_id(defs, id) == Some(defs[at]),
    decreases defs.len(),
{
    if defs[0].id != id {
        let rest = defs.drop_first();
        assert(rest[at - 1] == defs[at]);
        assert forall|i: int| 0 <= i < at - 1 implies (#[trigger] rest[i]).id != id by {
            assert(rest[i] == defs[i + 1]);
        }
        lemma_with_id(rest, id, at - 1);
    }
}

/// A new label has the name without the white space around it and the color in its canonical form,
/// under the id that it was made for. It is refused exactly where the palette with it would be.
pub proof fn new_labels_are_as_they_were_given(
    existing: Seq<LabelModel>,
    id: Seq<char>,
    name: Seq<char>,
    hex: Seq<char>,
)
    requires
        trimmed(id) == id,
        forall|i: int| 0 <= i < existing.len() ==> trimmed((#[trigger] existing[i]).id) != id,
    ensures
        next_label(existing, id, name, hex) is Ok <==> checked_catalog(
            existing.push(label(id, name, hex)),
        ) is Ok,
        next_label(existing, id, name, hex) is Ok ==> next_label(existing, id, name, hex)->Ok_0
            == label(id, trimmed(name), canonical_color(hex)),
{
    let defs = existing.push(label(id, name, hex));
    palettes_are_accepted_where_they_are_sound(defs);
    if checked_catalog(defs) is Ok {
        let m = checked_catalog(defs)->Ok_0;
        let n = existing.len() as int;
        assert(defs[n] == label(id, name, hex));
        assert(m[n] == label(id, trimmed(name), canonical_color(hex)));
        assert forall|i: int| 0 <= i < n implies (#[trigger] m[i]).id != id by {
            assert(defs[i] == existing[i]);
        }
        lemma_with_id(m, id, n);
    }
}

/// Stored entries stand for the ids of the labels that they name. An entry that names none stands
/// for its word of the fixed vocabulary; blank ones stand for nothing, and no id comes twice.
pub proof fn older_entries_stand_for_labels(
    catalog: Seq<LabelModel>,
    entries: Seq<Seq<char>>,
    one: Seq<char>,
)
    ensures
        migrated_ids(catalog, Seq::empty()).len() == 0,
        ({
            let done = migrated_ids(catalog, entries);
            let all = migrated_ids(catalog, entries.push(one));
            let named = label_named(catalog, one);
            &&& named is Some ==> all.contains(named->0)
            &&& named is None && trimmed(one).len() > 0 ==> all.contains(fixed_label(one)->0)
            &&& named is None && trimmed(one).len() == 0 ==> all == done
            &&& all == done || all.len() == done.len() + 1 && all.drop_last() == done
                && !done.contains(all.last())
        }),
{
    let more = entries.push(one);
    assert(more.drop_last() =~= entries);
    assert(more.last() == one);
    let done = migrated_ids(catalog, entries);
    let all = migrated_ids(catalog, more);
    let id = match label_named(catalog, one) {
        Some(id) => Some(id),
        None => fixed_label(one),
    };
    assert(ascii_lower(trimmed(one)).len() == trimmed(one).len());
    if id is Some && !done.contains(id->0) {
        assert(all == done.push(id->0));
        assert(all[done.len() as int] == id->0);
        assert(all.drop_last() =~= done);
    }
}

/// A label that was created comes last in the palette, under a new id, with the name and the color
/// that were given. The labels before it stay in their places, and so do the notes, the tags and
/// the favorites.
pub proof fn created_labels_come_last(
    before: MediaDb,
    after: MediaDb,
    name: Seq<char>,
    hex: Seq<char>,
    path: Option<Seq<char>>,
    r: Receipt,
    i: int,
)
    requires
        before.access_of() == Access::ReadWrite,
        after.same_frame(&before),
        label_create_outcome(&before, &after, name, hex, path, r),
        r.status == ActionStatus::Completed,
    ensures
        ({
            let old_labels = before.catalog_seen();
            let new_labels = after.catalog_seen();
            &&& new_labels.len() == old_labels.len() + 1
            &&& new_labels.last().name == trimmed(name)
            &&& new_labels.last().hex == canonical_color(hex)
            &&& is_new_label_id(new_labels.last().id)
            &&& 0 <= i < old_labels.len() ==> new_labels[i].id == old_labels[i].id
        }),
        after.tables().notes == before.tables().notes,
        after.tables().tags == before.tables().tags,
        after.tables().favorites == before.tables().favorites,
        path is None ==> after.tables().labels == before.tables().labels,
{
    let (id, x) = choose|id: Seq<char>, x: Result<ColorLabelDefinition, String>|
        {
            &&& is_new_label_id(id)
            &&& !has_id(before.catalog_seen(), id)
            &&& #[trigger] label_made(&before, &after, path, id, name, hex, x)
            &&& x is Err ==> r.status == ActionStatus::Rejected
        };
    let seen = before.catalog_seen();
    assert(label_made(&before, &after, path, id, name, hex, x));
    assert(x is Ok);
    current_ids_are_valid(before.tables().catalog);
    new_ids_are_stable(id);
    lemma_label_id_trimmed(id);
    assert forall|k: int| 0 <= k < seen.len() implies trimmed((#[trigger] seen[k]).id) != id by {
        lemma_label_id_trimmed(seen[k].id);
    }
    new_labels_are_as_they_were_given(seen, id, name, hex);
    let d = next_label(seen, id, name, hex)->Ok_0;
    let given = seen.push(label(id, name, hex));
    palettes_are_accepted_where_they_are_sound(given);
    assert(given[seen.len() as int] == label(id, name, hex));
    assert(is_sound(given));
    lemma_fit(given[seen.len() as int]);
    canonical_color_is_canonical(hex);
    trimming_is_idempotent(name);
    let defs = seen.push(d);
    assert(defs[seen.len() as int] == d);
    palettes_are_accepted_where_they_are_sound(defs);
    assert(checked_catalog(defs) is Ok);
    let m = checked_catalog(defs)->Ok_0;
    accepted_catalog_is_consistent(defs);
    catalog_validates_to_itself(m);
    assert(m[seen.len() as int] == m.last());
    if 0 <= i < seen.len() {
        assert(defs[i] == seen[i]);
        lemma_label_id_trimmed(seen[i].id);
        assert(m[i].id == trimmed(defs[i].id));
    }
}

} // verus!
