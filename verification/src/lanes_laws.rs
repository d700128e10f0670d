//! What setting, scanning, claiming and releasing lanes and running batches on them promise.

use crate::lanes::{
    all_reconciled, all_reported, batch_outcome, claim_outcome, fresh_lane, lane_ids, lane_scanned,
    lane_updated, lanes_of, mutation_refusal, place_of, reconciled, release_outcome, reported,
    scan_all_outcome, scan_lane_outcome, scan_trace, set_outcome, ClaimModel, FolderListing,
    LaneModel, LaneRecord, LaneScanResult, LaneStore, LaneUpdate, LanesModel,
};
use crate::paths::PathStyle;
use crate::text::{texts, trimmed};
use vstd::prelude::*;

verus! {

/// A lane is the first one with its id.
pub proof fn lanes_are_found_by_their_id(lanes: Seq<LaneModel>, id: Seq<char>)
    ensures
        match place_of(lanes, id) {
            Some(i) => {
                &&& 0 <= i < lanes.len()
                &&& lanes[i].lane_id == id
                &&& forall|j: int| 0 <= j < i ==> (#[trigger] lanes[j]).lane_id != id
            },
            None => forall|j: int| 0 <= j < lanes.len() ==> (#[trigger] lanes[j]).lane_id != id,
        },
    decreases lanes.len(),
{
    if lanes.len() > 0 {
        let front = lanes.drop_last();
        lanes_are_found_by_their_id(front, id);
        assert(forall|j: int| 0 <= j < front.len() ==> #[trigger] front[j] == lanes[j]);
        match place_of(front, id) {
            Some(i) => {
                assert forall|j: int| 0 <= j < i implies (#[trigger] lanes[j]).lane_id != id by {
                    assert(front[j] == lanes[j]);
                }
            },
            None => {
                assert forall|j: int| 0 <= j < front.len() implies (#[trigger] lanes[j]).lane_id
                    != id by {
                    assert(front[j] == lanes[j]);
                }
            },
        }
    }
}

/// Who may change a lane: anyone while nobody has claimed it; once it is claimed, its owner and who
/// takes it over. Nobody may while its claim cannot be read or is that of another lane.
pub proof fn claims_decide_who_may_change_a_lane(
    claims: Map<Seq<char>, ClaimModel>,
    id: Seq<char>,
    actor: Option<Seq<char>>,
    steal: bool,
)
    ensures
        !claims.contains_key(id) ==> mutation_refusal(claims, id, actor, steal) is None,
        claims.contains_key(id) ==> match claims[id] {
            ClaimModel::Valid { lane_id, actor: owner, claimed_at } => {
                &&& lane_id == id && actor == Some(owner) ==> mutation_refusal(
                    claims,
                    id,
                    actor,
                    steal,
                ) is None
                &&& lane_id == id && steal ==> mutation_refusal(claims, id, actor, steal) is None
                &&& lane_id == id && !steal && actor != Some(owner) ==> mutation_refusal(
                    claims,
                    id,
                    actor,
                    steal,
                ) is Some
                &&& lane_id != id ==> mutation_refusal(claims, id, actor, steal) is Some
            },
            ClaimModel::Unreadable(e) => mutation_refusal(claims, id, actor, steal) is Some,
        },
{
}

/// A lane shows the owner of its claim, and since when, where its claim can be read and is its own;
/// otherwise it shows none. Nothing else of the lane changes, but that a bad claim is its last
/// error.
pub proof fn lanes_show_their_owner(lane: LaneModel, claims: Map<Seq<char>, ClaimModel>)
    ensures
        ({
            let r = reconciled(lane, claims);
            let own = claims.contains_key(lane.lane_id) && claims[lane.lane_id] is Valid
                && claims[lane.lane_id]->lane_id == lane.lane_id;
            &&& own ==> r.claim_owner == Some(claims[lane.lane_id]->actor) && r.claim_updated_at
                == Some(claims[lane.lane_id]->claimed_at) && r.last_error == lane.last_error
            &&& !own ==> r.claim_owner is None && r.claim_updated_at is None
            &&& !claims.contains_key(lane.lane_id) ==> r.last_error == lane.last_error
            &&& r == (LaneModel {
                claim_owner: r.claim_owner,
                claim_updated_at: r.claim_updated_at,
                last_error: r.last_error,
                ..lane
            })
        }),
{
}

/// A new lane compares, with subfolders, and has neither a folder nor files, errors, batches or an
/// owner.
pub proof fn new_lanes_are_empty(id: Seq<char>)
    ensures
        ({
            let l = fresh_lane(id);
            &&& l.lane_id == id
            &&& l.mode is Compare
            &&& l.recursive
            &&& l.name.len() == 0 && l.folder.len() == 0 && l.feature_keys.len() == 0
            &&& l.files.len() == 0 && l.item_count == 0
            &&& l.last_error.len() == 0 && l.last_batch_error.len() == 0 && l.batch_status.len()
                == 0
            &&& l.batch_action_id is None && l.batch_updated_at is None && l.last_run_id is None
            &&& l.claim_owner is None && l.claim_updated_at is None
        }),
{
}

/// An update sets the fields that it names to what it gives; a new folder starts without files and
/// without an error.
pub proof fn updates_set_what_they_name(lane: LaneModel, u: LaneUpdate)
    ensures
        ({
            let l = lane_updated(lane, u);
            &&& u.name is Some ==> l.name == u.name->0@
            &&& u.mode is Some ==> l.mode == u.mode->0
            &&& u.recursive is Some ==> l.recursive == u.recursive->0
            &&& u.feature_keys is Some ==> l.feature_keys == texts(u.feature_keys->0@)
            &&& u.folder is Some ==> l.folder == u.folder->0@ && l.files.len() == 0 && l.item_count
                == 0 && l.last_error.len() == 0
            &&& u.folder is None ==> l.last_error == lane.last_error
            &&& l.lane_id == lane.lane_id && l.batch_status == lane.batch_status
                && l.batch_action_id == lane.batch_action_id && l.batch_updated_at
                == lane.batch_updated_at && l.last_run_id == lane.last_run_id && l.last_batch_error
                == lane.last_batch_error && l.claim_owner == lane.claim_owner && l.claim_updated_at
                == lane.claim_updated_at
        }),
{
}

/// Setting a lane changes that lane alone, or adds it at the end; no claim changes. It is refused,
/// and nothing changes, where the id is blank or the claim of the lane forbids it.
pub proof fn setting_touches_one_lane(
    before: LanesModel,
    after: LanesModel,
    u: LaneUpdate,
    actor: Option<Seq<char>>,
    steal: bool,
    r: Result<LaneRecord, String>,
    i: int,
)
    requires
        set_outcome(before, after, u, actor, steal, r),
        0 <= i < before.lanes.len(),
    ensures
        after.claims == before.claims,
        r is Err ==> after == before,
        r is Err <==> trimmed(u.lane_id@).len() == 0 || mutation_refusal(
            before.claims,
            u.lane_id@,
            actor,
            steal,
        ) is Some,
        r is Ok ==> {
            let known = exists|j: int|
                0 <= j < before.lanes.len() && (#[trigger] before.lanes[j]).lane_id == u.lane_id@;
            &&& r->Ok_0@.lane_id == u.lane_id@
            &&& known ==> after.lanes.len() == before.lanes.len()
            &&& !known ==> after.lanes.len() == before.lanes.len() + 1 && after.lanes.last()
                == r->Ok_0@
            &&& before.lanes[i].lane_id != u.lane_id@ ==> after.lanes[i] == reconciled(
                before.lanes[i],
                before.claims,
            )
            &&& after.lanes.contains(r->Ok_0@)
        },
{
    lanes_are_found_by_their_id(before.lanes, u.lane_id@);
    if r is Ok {
        match place_of(before.lanes, u.lane_id@) {
            Some(at) => {
                assert(after.lanes[at] == r->Ok_0@);
            },
            None => {
                assert(after.lanes[after.lanes.len() - 1] == r->Ok_0@);
            },
        }
    }
}

/// A scan of a lane keeps exactly the images that were found in its folder, in text order and each
/// once, and counts them; where there are none, it keeps none and says why. No other lane and no
/// claim changes.
pub proof fn scans_keep_the_images(
    style: PathStyle,
    before: LanesModel,
    after: LanesModel,
    id: Seq<char>,
    actor: Option<Seq<char>>,
    steal: bool,
    listing: FolderListing,
    r: Result<LaneScanResult, String>,
    at: int,
    other: int,
    file: Seq<char>,
)
    requires
        scan_lane_outcome(style, before, after, id, actor, steal, listing, r),
        place_of(before.lanes, id) == Some(at),
        mutation_refusal(before.claims, id, actor, steal) is None,
        trimmed(before.lanes[at].folder).len() > 0,
        0 <= other < before.lanes.len(),
        other != at,
    ensures
        after.claims == before.claims,
        after.lanes.len() == before.lanes.len(),
        after.lanes[other] == reconciled(before.lanes[other], before.claims),
        ({
            let l = after.lanes[at];
            &&& l.item_count == l.files.len()
            &&& l.folder == before.lanes[at].folder && l.lane_id == before.lanes[at].lane_id
            &&& r is Ok ==> l.last_error.len() == 0 && l.files.len() > 0 && texts(r->Ok_0.files@)
                == l.files && r->Ok_0.item_count == l.files.len() && r->Ok_0.lane_id@ == id
            &&& r is Err ==> l.files.len() == 0 && l.last_error == r->Err_0@
            &&& listing is Missing || listing is Other ==> r is Err
            &&& listing matches FolderListing::Folder { files, dir_errors } ==> {
                &&& r is Ok ==> r->Ok_0.dir_errors == dir_errors
                &&& r is Ok ==> (l.files.contains(file) <==> texts(files@).contains(file)
                    && crate::dispatch::is_image_path(style, file))
                &&& r is Err ==> !(texts(files@).contains(file) && crate::dispatch::is_image_path(
                    style,
                    file,
                ))
                &&& r is Ok ==> crate::table::in_text_order(l.files)
            }
        }),
{
    lanes_are_found_by_their_id(before.lanes, id);
    let lanes = crate::lanes::all_reconciled(before.lanes, before.claims);
    lanes_show_their_owner(before.lanes[at], before.claims);
    let x = choose|x: Result<(Vec<String>, usize), String>|
        {
            &&& #[trigger] lane_scanned(style, lanes[at], listing, after.lanes[at], x)
            &&& match x {
                Ok((files, errors)) => {
                    &&& r is Ok
                    &&& r->Ok_0.lane_id@ == id
                    &&& r->Ok_0.item_count == files@.len()
                    &&& texts(r->Ok_0.files@) == texts(files@)
                    &&& r->Ok_0.dir_errors == errors
                    &&& r->Ok_0.last_error@.len() == 0
                },
                Err(e) => r is Err && r->Err_0@ == e@,
            }
        };
    assert(lane_scanned(style, lanes[at], listing, after.lanes[at], x));
    if let Ok((files, errors)) = x {
        assert(texts(files@).len() == files@.len());
    }
}

/// A claim names the lane, the actor and the time, and shows on the lane; no other lane and no other
/// claim changes. A claim without an actor, or of an unknown lane, is refused.
pub proof fn claims_are_recorded(
    before: LanesModel,
    after: LanesModel,
    id: Seq<char>,
    actor: Seq<char>,
    steal: bool,
    now: Seq<char>,
    r: Result<LaneRecord, String>,
    i: int,
    other: Seq<char>,
)
    requires
        claim_outcome(before, after, id, actor, steal, now, r),
        0 <= i < before.lanes.len(),
        other != id,
    ensures
        r is Err ==> after == before,
        r is Ok <==> trimmed(actor).len() > 0 && place_of(before.lanes, id) is Some && (steal
            || !before.claims.contains_key(id)),
        after.claims.contains_key(other) == before.claims.contains_key(other),
        after.claims[other] == before.claims[other],
        r is Ok ==> {
            &&& after.claims.contains_key(id)
            &&& after.claims[id] is Valid && after.claims[id]->lane_id == id
                && after.claims[id]->actor == actor && after.claims[id]->claimed_at == now
            &&& r->Ok_0@.lane_id == id && r->Ok_0@.claim_owner == Some(actor)
                && r->Ok_0@.claim_updated_at == Some(now)
            &&& after.lanes.len() == before.lanes.len()
            &&& before.lanes[i].lane_id != id ==> after.lanes[i] == before.lanes[i]
            &&& after.lanes.contains(r->Ok_0@)
        },
{
    lanes_are_found_by_their_id(before.lanes, id);
    if r is Ok {
        let at = place_of(before.lanes, id)->0;
        assert(after.lanes[at] == r->Ok_0@);
    }
}

/// A release takes the claim away, for its owner and for who takes it over; no other lane and no
/// other claim changes.
pub proof fn releases_are_recorded(
    before: LanesModel,
    after: LanesModel,
    id: Seq<char>,
    actor: Seq<char>,
    steal: bool,
    r: Result<LaneRecord, String>,
    i: int,
    other: Seq<char>,
)
    requires
        release_outcome(before, after, id, actor, steal, r),
        0 <= i < before.lanes.len(),
        other != id,
    ensures
        r is Err ==> after == before,
        r is Ok ==> !after.claims.contains_key(id) && r->Ok_0@.claim_owner is None
            && r->Ok_0@.claim_updated_at is None && r->Ok_0@.lane_id == id,
        after.claims.contains_key(other) == before.claims.contains_key(other),
        after.claims[other] == before.claims[other],
        before.claims.contains_key(id) && before.claims[id] is Valid && before.claims[id]->actor
            != actor && !steal ==> r is Err,
        place_of(before.lanes, id) is Some && (!before.claims.contains_key(id) || (
        before.claims[id] is Valid && (steal || before.claims[id]->actor == actor))) ==> r is Ok,
        r is Ok && before.lanes[i].lane_id != id ==> after.lanes[i] == before.lanes[i],
{
    lanes_are_found_by_their_id(before.lanes, id);
}

/// What a batch on a lane has come to shows on the lane: its state, its action, its run, its error
/// and the time. An error is the last error of the lane too; without one, the last error goes,
/// unless the batch failed. No other lane and no claim changes.
pub proof fn batches_show_on_their_lane(
    before: LanesModel,
    after: LanesModel,
    id: Seq<char>,
    status: Seq<char>,
    action_id: Seq<char>,
    run_id: Option<Seq<char>>,
    error: Option<Seq<char>>,
    now: Seq<char>,
    r: Result<LaneRecord, String>,
    i: int,
)
    requires
        batch_outcome(before, after, id, status, action_id, run_id, error, now, r),
        0 <= i < before.lanes.len(),
    ensures
        after.claims == before.claims,
        r is Ok <==> place_of(before.lanes, id) is Some,
        r is Err ==> after.lanes == before.lanes,
        r is Ok && before.lanes[i].lane_id != id ==> after.lanes[i] == before.lanes[i],
        r is Ok ==> {
            let l = r->Ok_0@;
            let b = before.lanes[place_of(before.lanes, id)->0];
            &&& l.lane_id == id && l.batch_status == status && l.batch_action_id == Some(action_id)
                && l.batch_updated_at == Some(now) && l.last_run_id == run_id
            &&& error is Some ==> l.last_batch_error == error->0 && l.last_error == error->0
            &&& error is None ==> l.last_batch_error.len() == 0
            &&& error is None && (status == "error"@ || status == "failed"@) ==> l.last_error
                == b.last_error
            &&& error is None && status != "error"@ && status != "failed"@ ==> l.last_error.len()
                == 0
            &&& l.folder == b.folder && l.files == b.files && l.item_count == b.item_count
                && l.name == b.name && l.mode == b.mode && l.recursive == b.recursive
                && l.feature_keys == b.feature_keys && l.claim_owner == b.claim_owner
        },
{
    lanes_are_found_by_their_id(before.lanes, id);
}

proof fn lemma_scans(
    style: PathStyle,
    states: Seq<LanesModel>,
    outcomes: Seq<Result<LaneScanResult, String>>,
    ids: Seq<Seq<char>>,
    actor: Option<Seq<char>>,
    steal: bool,
    listings: Seq<FolderListing>,
    n: nat,
)
    requires
        scan_trace(style, states, outcomes, ids, actor, steal, listings),
        n <= ids.len(),
    ensures
        states[n as int].claims == states[0].claims,
        states[n as int].lanes.len() == states[0].lanes.len(),
    decreases n,
{
    if n > 0 {
        let i = n - 1;
        lemma_scans(style, states, outcomes, ids, actor, steal, listings, i as nat);
        lanes_are_found_by_their_id(states[i].lanes, ids[i]);
        assert(all_reconciled(states[i].lanes, states[i].claims).len() == states[i].lanes.len());
        assert(scan_lane_outcome(
            style,
            states[i],
            states[i + 1],
            ids[i],
            actor,
            steal,
            listings[i],
            outcomes[i],
        ));
    }
}

/// Scanning all lanes tells of every lane, in order: what was found on it, or why nothing was. No
/// claim changes by it, and no lane comes or goes.
pub proof fn every_lane_is_scanned(
    style: PathStyle,
    before: LanesModel,
    after: LanesModel,
    actor: Option<Seq<char>>,
    steal: bool,
    listings: Seq<FolderListing>,
    items: Seq<LaneScanResult>,
    i: int,
)
    requires
        scan_all_outcome(style, before, after, actor, steal, listings, items),
        0 <= i < before.lanes.len(),
    ensures
        items.len() == before.lanes.len(),
        items[i].lane_id@ == before.lanes[i].lane_id,
        items[i].item_count == items[i].files@.len(),
        after.claims == before.claims,
        after.lanes.len() == before.lanes.len(),
        mutation_refusal(before.claims, before.lanes[i].lane_id, actor, steal) is Some
            ==> items[i].item_count == 0 && items[i].last_error@ == mutation_refusal(
            before.claims,
            before.lanes[i].lane_id,
            actor,
            steal,
        )->0,
{
    let ids = lane_ids(before.lanes);
    let (states, outcomes) = choose|
        states: Seq<LanesModel>,
        outcomes: Seq<Result<LaneScanResult, String>>,
    |
        {
            &&& #[trigger] scan_trace(style, states, outcomes, ids, actor, steal, listings)
            &&& states[0] == before
            &&& states.last() == after
            &&& all_reported(ids, outcomes, items)
        };
    lemma_scans(style, states, outcomes, ids, actor, steal, listings, ids.len());
    lemma_scans(style, states, outcomes, ids, actor, steal, listings, i as nat);
    assert(states[ids.len() as int] == states.last());
    assert(ids[i] == before.lanes[i].lane_id);
    assert(reported(ids[i], outcomes[i], items[i]));
    assert(scan_lane_outcome(
        style,
        states[i],
        states[i + 1],
        ids[i],
        actor,
        steal,
        listings[i],
        outcomes[i],
    ));
    assert(texts(items[i].files@).len() == items[i].files@.len());
}

/// Lanes are shown with their owners, all of them or the one that is asked for, and a lane that
/// another holds is not handed out.
pub proof fn lanes_are_shown_as_asked(
    store: &LaneStore,
    id: &str,
    all: Vec<LaneRecord>,
    one: Vec<LaneRecord>,
    actor: Option<&str>,
    steal: bool,
    r: Result<LaneRecord, String>,
)
    requires
        call_ensures(LaneStore::lane_status, (store, None), all),
        call_ensures(LaneStore::lane_status, (store, Some(id)), one),
        call_ensures(LaneStore::lane_for_actor, (store, id, actor, steal), r),
    ensures
        all@.len() == store.model().lanes.len(),
        forall|i: int| 0 <= i < one@.len() ==> (#[trigger] lanes_of(one@)[i]).lane_id == id@,
        r is Ok ==> r->Ok_0@.lane_id == id@,
        r is Ok ==> place_of(store.model().lanes, id@) is Some,
{
    let lanes = store.model().lanes;
    let claims = store.model().claims;
    assert(lanes_of(all@).len() == all@.len());
    assert(lanes_of(one@).len() == one@.len());
    assert(all_reconciled(lanes, claims).len() == lanes.len());
    let p = |l: LaneModel| l.lane_id == id@;
    let f = all_reconciled(lanes, claims).filter(p);
    broadcast use vstd::seq_lib::group_filter_ensures;
    assert(lanes_of(one@) == f);
    assert forall|i: int| 0 <= i < one@.len() implies (#[trigger] lanes_of(one@)[i]).lane_id
        == id@ by {
        assert(p(f[i]));
    }
    lanes_are_found_by_their_id(lanes, id@);
}

} // verus!
