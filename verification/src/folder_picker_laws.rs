//! What the browser for folders promises.

use crate::debug_laws::orders_hold_every_place;
use crate::folder_picker::{
    arranged, begin_at, closed_after, found_names, frame_outcome, is_cut, lowered, readable, shows,
    without_backslashes, PickerEvent, PickerFrame, PickerModel, PickerPurpose,
};
use crate::number::decimal;
use crate::order::is_stable_order;
use crate::text::{text_rank, trimmed, unicode_lower, Rank};
use vstd::prelude::*;

verus! {

/// Reading one more entry adds its name where it can be read. The list is full with a thousand
/// names: what comes after that is left out, and the list says so.
pub proof fn full_lists_leave_the_rest_out(names: Seq<Option<String>>, one: Option<String>)
    ensures
        readable(Seq::empty()) == Seq::<Seq<char>>::empty(),
        one is Some ==> readable(names.push(one)) == readable(names).push(one->0@),
        one is None ==> readable(names.push(one)) == readable(names),
        readable(names).len() <= names.len(),
        found_names(names).len() <= 1000,
        readable(names).len() <= 1000 ==> found_names(names) == readable(names),
        readable(names).len() > 1000 ==> found_names(names) == readable(names).take(1000),
        is_cut(names.push(one)) <==> is_cut(names) || readable(names).len() >= 1000,
        !is_cut(Seq::<Option<String>>::empty()),
        names.len() <= 1000 ==> !is_cut(names),
    decreases names.len(),
{
    let more = names.push(one);
    assert(more.drop_last() =~= names);
    assert(more.last() == one);
    assert(more.take(names.len() as int) =~= names);
    if is_cut(names) {
        let j = choose|j: int|
            0 <= j < names.len() && readable(#[trigger] names.take(j)).len() >= 1000;
        assert(more.take(j) =~= names.take(j));
    }
    if is_cut(more) {
        let j = choose|j: int|
            0 <= j < more.len() && readable(#[trigger] more.take(j)).len() >= 1000;
        if j < names.len() {
            assert(more.take(j) =~= names.take(j));
        }
    }
    if names.len() > 0 {
        full_lists_leave_the_rest_out(names.drop_last(), names.last());
    }
    if names.len() <= 1000 && is_cut(names) {
        let j = choose|j: int|
            0 <= j < names.len() && readable(#[trigger] names.take(j)).len() >= 1000;
        full_lists_leave_the_rest_out(names.take(j), one);
    }
}

/// The browser shows the subfolders that were found, all of them, in the order of their names
/// without case. Where the folder could not be read it shows none, and says why.
pub proof fn listings_are_shown_in_order(
    m: PickerModel,
    listing: Result<Vec<Option<String>>, String>,
    i: int,
    j: int,
    p: int,
)
    requires
        shows(m, listing),
    ensures
        listing is Err ==> m.entries.len() == 0 && m.error.len() >= listing->Err_0@.len()
            && m.error.skip(m.error.len() - listing->Err_0@.len()) == listing->Err_0@,
        listing is Ok ==> m.error.len() == 0 && m.entries.len() == found_names(
            listing->Ok_0@,
        ).len(),
        listing is Ok && 0 <= i < j < m.entries.len() ==> text_rank(
            unicode_lower(m.entries[i]),
            unicode_lower(m.entries[j]),
        ) != Rank::Greater,
        listing is Ok && 0 <= i < m.entries.len() ==> found_names(listing->Ok_0@).contains(
            m.entries[i],
        ),
        listing is Ok && 0 <= p < found_names(listing->Ok_0@).len() ==> m.entries.contains(
            found_names(listing->Ok_0@)[p],
        ),
{
    match listing {
        Err(e) => {
            let head = "Cannot read folder: "@;
            assert((head + e@).skip((head + e@).len() - e@.len()) =~= e@);
        },
        Ok(names) => {
            let found = found_names(names@);
            let keys = lowered(found);
            let order = choose|order: Seq<usize>| #[trigger]
                is_stable_order(order, keys) && m.entries == arranged(found, order);
            full_lists_leave_the_rest_out(names@, None);
            orders_hold_every_place(order, keys, i, j);
            if 0 <= i < m.entries.len() {
                assert(m.entries[i] == found[order[i] as int]);
            }
            if 0 <= p < found.len() {
                assert(order.contains(p as usize));
                let k = order.index_of(p as usize);
                assert(m.entries[k] == found[p]);
            }
        },
    }
}

/// A browser begins at the folder it is given, without the white space around it. Where that is
/// none, it begins at the first drive.
pub proof fn browsers_begin_where_they_are_told(start: Seq<char>, is_folder: bool, drives: Seq<Seq<char>>)
    ensures
        is_folder && trimmed(start).len() > 0 ==> begin_at(start, is_folder, drives) == trimmed(
            start,
        ),
        !is_folder && drives.len() > 0 ==> begin_at(start, is_folder, drives) == drives[0],
        trimmed(start).len() == 0 && drives.len() > 0 ==> begin_at(start, is_folder, drives)
            == drives[0],
        !is_folder && drives.len() == 0 ==> begin_at(start, is_folder, drives) == "."@,
{
}

/// A browser stays open until a folder is picked, it is cancelled or its window is closed. Only a
/// pick gives a folder: the one that was shown. A closed browser does nothing.
pub proof fn browsers_stay_open_until_they_are_done(
    before: PickerModel,
    after: PickerModel,
    frame: PickerFrame,
    listing: Result<Vec<Option<String>>, String>,
    r: PickerEvent,
)
    requires
        frame_outcome(before, after, frame, listing, r),
    ensures
        before.open_for is None ==> after == before && r is Nothing,
        r is Picked <==> before.open_for is Some && frame.picked,
        r is Picked ==> r->folder@ == before.current,
        r is Picked && before.purpose is None ==> r->purpose == PickerPurpose::LaneFolder,
        before.open_for is Some ==> (after.open_for is Some <==> !frame.picked && !frame.cancelled
            && frame.window_open),
        after.open_for is Some ==> after.purpose == before.purpose,
        before.open_for is Some && after.open_for is None ==> after.purpose is None
            && after.entries.len() == 0 && after.error.len() == 0,
        before.open_for is Some && frame.nav_target is Some ==> after.current
            == frame.nav_target->0@ && after.path_input == after.current,
        frame.nav_target is None ==> after.current == before.current && after.path_input
            == before.path_input,
        after.drives == before.drives,
{
    if before.open_for is Some && (frame.picked || frame.cancelled || !frame.window_open) {
        let moved = choose|moved: PickerModel| #[trigger]
            closed_after(before, moved, after, frame, listing);
        assert(closed_after(before, moved, after, frame, listing));
    }
}

/// The title for a lane counts the lanes from one; the other purposes have titles of their own.
pub proof fn titles_tell_the_purpose(a: PickerPurpose, b: PickerPurpose, lane: nat, other: nat)
    ensures
        a is LaneFolder ==> a.heading(lane) == "Select folder — lane "@ + decimal(lane + 1),
        !(a is LaneFolder) ==> a.heading(lane) == a.heading(other),
        a is MoveDestination ==> a.heading(lane) == "Move to folder"@,
        a is CopyDestination ==> a.heading(lane) == "Copy to folder"@,
{
}

/// The text of a drive is its path up to the backslashes at the end.
pub proof fn drives_lose_their_backslashes(s: Seq<char>)
    ensures
        ({
            let r = without_backslashes(s);
            &&& r.len() <= s.len()
            &&& r == s.take(r.len() as int)
            &&& r.len() > 0 ==> r.last() != '\\'
            &&& forall|i: int| r.len() <= i < s.len() ==> #[trigger] s[i] == '\\'
        }),
    decreases s.len(),
{
    if s.len() > 0 && s.last() == '\\' {
        let t = s.drop_last();
        drives_lose_their_backslashes(t);
        let r = without_backslashes(t);
        assert(r =~= s.take(r.len() as int));
        assert forall|i: int| r.len() <= i < s.len() implies #[trigger] s[i] == '\\' by {
            if i < t.len() {
                assert(t[i] == s[i]);
            }
        }
    } else {
        assert(s.take(s.len() as int) =~= s);
    }
}

} // verus!
