//! Lanes: folders that are worked on side by side, each by at most one actor at a time.

use crate::dispatch::{collect_image_files, image_path, is_image_path};
use crate::media_commands::opt_view;
use crate::outside::now_rfc3339;
use crate::paths::{join_path, joined_path, PathStyle};
use crate::queue::with_json;
use crate::table::{in_text_order, Table};
use crate::text::{cat, cat3, opt_text, str_eq, texts, trim, trimmed};
use vstd::prelude::*;

verus! {

pub const LANES_SCHEMA_VERSION: u32 = 1;

#[derive(Clone, Copy, Debug, PartialEq, Eq, Structural)]
pub enum LaneMode {
    Compare,
    Review,
    Batch,
}

impl Default for LaneMode {
    fn default() -> (r: Self)
        ensures
            r == LaneMode::Compare,
    {
        LaneMode::Compare
    }
}

#[derive(Debug)]
pub struct LaneRecord {
    pub lane_id: String,
    pub name: String,
    pub mode: LaneMode,
    pub folder: String,
    pub recursive: bool,
    pub feature_keys: Vec<String>,
    pub files: Vec<String>,
    pub item_count: usize,
    pub last_error: String,
    pub batch_status: String,
    pub batch_action_id: Option<String>,
    pub batch_updated_at: Option<String>,
    pub last_run_id: Option<String>,
    pub last_batch_error: String,
    pub claim_owner: Option<String>,
    pub claim_updated_at: Option<String>,
}

#[verifier::ext_equal]
pub ghost struct LaneModel {
    pub lane_id: Seq<char>,
    pub name: Seq<char>,
    pub mode: LaneMode,
    pub folder: Seq<char>,
    pub recursive: bool,
    pub feature_keys: Seq<Seq<char>>,
    pub files: Seq<Seq<char>>,
    pub item_count: nat,
    pub last_error: Seq<char>,
    pub batch_status: Seq<char>,
    pub batch_action_id: Option<Seq<char>>,
    pub batch_updated_at: Option<Seq<char>>,
    pub last_run_id: Option<Seq<char>>,
    pub last_batch_error: Seq<char>,
    pub claim_owner: Option<Seq<char>>,
    pub claim_updated_at: Option<Seq<char>>,
}

impl View for LaneRecord {
    type V = LaneModel;

    open spec fn view(&self) -> LaneModel {
        LaneModel {
            lane_id: self.lane_id@,
            name: self.name@,
            mode: self.mode,
            folder: self.folder@,
            recursive: self.recursive,
            feature_keys: texts(self.feature_keys@),
            files: texts(self.files@),
            item_count: self.item_count as nat,
            last_error: self.last_error@,
            batch_status: self.batch_status@,
            batch_action_id: opt_text(self.batch_action_id),
            batch_updated_at: opt_text(self.batch_updated_at),
            last_run_id: opt_text(self.last_run_id),
            last_batch_error: self.last_batch_error@,
            claim_owner: opt_text(self.claim_owner),
            claim_updated_at: opt_text(self.claim_updated_at),
        }
    }
}

fn copy_texts(v: &Vec<String>) -> (r: Vec<String>)
    ensures
        texts(r@) == texts(v@),
{
    let mut out: Vec<String> = Vec::new();
    let n: usize = v.len();
    let mut i: usize = 0;
    while i < n
        invariant
            i <= n,
            n == v@.len(),
            out@.len() == i,
            forall|j: int| 0 <= j < i ==> (#[trigger] out@[j])@ == v@[j]@,
        decreases n - i,
    {
        out.push(v[i].clone());
        i += 1;
    }
    assert(texts(out@) =~= texts(v@));
    out
}

fn copy_opt(o: &Option<String>) -> (r: Option<String>)
    ensures
        opt_text(r) == opt_text(*o),
{
    crate::api::copy_text(o)
}

fn empty_text() -> (r: String)
    ensures
        r@ == Seq::<char>::empty(),
{
    let r = String::new();
    assert(r@ =~= Seq::<char>::empty());
    r
}

fn no_texts() -> (r: Vec<String>)
    ensures
        texts(r@) == Seq::<Seq<char>>::empty(),
{
    let r: Vec<String> = Vec::new();
    assert(texts(r@) =~= Seq::<Seq<char>>::empty());
    r
}

impl Clone for LaneRecord {
    fn clone(&self) -> (r: Self)
        ensures
            r@ == self@,
    {
        LaneRecord {
            lane_id: self.lane_id.clone(),
            name: self.name.clone(),
            mode: self.mode,
            folder: self.folder.clone(),
            recursive: self.recursive,
            feature_keys: copy_texts(&self.feature_keys),
            files: copy_texts(&self.files),
            item_count: self.item_count,
            last_error: self.last_error.clone(),
            batch_status: self.batch_status.clone(),
            batch_action_id: copy_opt(&self.batch_action_id),
            batch_updated_at: copy_opt(&self.batch_updated_at),
            last_run_id: copy_opt(&self.last_run_id),
            last_batch_error: self.last_batch_error.clone(),
            claim_owner: copy_opt(&self.claim_owner),
            claim_updated_at: copy_opt(&self.claim_updated_at),
        }
    }
}

pub open spec fn lanes_of(v: Seq<LaneRecord>) -> Seq<LaneModel> {
    v.map_values(|l: LaneRecord| l@)
}

/// What is to change in a lane; `None` leaves a field as it is.
#[derive(Debug)]
pub struct LaneUpdate {
    pub lane_id: String,
    pub name: Option<String>,
    pub mode: Option<LaneMode>,
    pub folder: Option<String>,
    pub recursive: Option<bool>,
    pub feature_keys: Option<Vec<String>>,
}

impl Default for LaneUpdate {
    fn default() -> (r: Self)
        ensures
            r.lane_id@.len() == 0,
            r.name is None,
            r.mode is None,
            r.folder is None,
            r.recursive is None,
            r.feature_keys is None,
    {
        LaneUpdate {
            lane_id: String::new(),
            name: None,
            mode: None,
            folder: None,
            recursive: None,
            feature_keys: None,
        }
    }
}

#[derive(Debug)]
pub struct LaneScanResult {
    pub lane_id: String,
    pub item_count: usize,
    pub files: Vec<String>,
    pub dir_errors: usize,
    pub last_error: String,
}

#[derive(Debug)]
pub struct LaneBatchResult {
    pub lane_id: String,
    pub action_id: String,
    pub status: String,
    pub item_count: usize,
    pub feature_keys: Vec<String>,
    pub run_id: Option<String>,
    pub output_path: Option<String>,
    pub error: Option<String>,
}

#[derive(Debug)]
pub struct LaneBatchAggregate {
    pub concurrency_limit: usize,
    pub total_lanes: usize,
    pub ok: usize,
    pub failed: usize,
    pub results: Vec<LaneBatchResult>,
}

#[derive(Debug)]
pub struct LaneClaim {
    pub lane_id: String,
    pub actor: String,
    pub claimed_at: String,
}

/// The claim file of a lane as it was found.
#[derive(Debug)]
pub enum ClaimFile {
    Valid(LaneClaim),
    /// The file cannot be read, for the given reason.
    Unreadable(String),
}

pub ghost enum ClaimModel {
    Valid { lane_id: Seq<char>, actor: Seq<char>, claimed_at: Seq<char> },
    Unreadable(Seq<char>),
}

impl View for ClaimFile {
    type V = ClaimModel;

    open spec fn view(&self) -> ClaimModel {
        match *self {
            ClaimFile::Valid(c) => ClaimModel::Valid {
                lane_id: c.lane_id@,
                actor: c.actor@,
                claimed_at: c.claimed_at@,
            },
            ClaimFile::Unreadable(e) => ClaimModel::Unreadable(e@),
        }
    }
}

pub open spec fn claims_of(m: Map<Seq<char>, ClaimFile>) -> Map<Seq<char>, ClaimModel> {
    m.map_values(|c: ClaimFile| c@)
}

/// The lanes and the claims on them.
#[verifier::ext_equal]
pub ghost struct LanesModel {
    pub lanes: Seq<LaneModel>,
    pub claims: Map<Seq<char>, ClaimModel>,
}

/// A lane as it begins.
pub open spec fn fresh_lane(lane_id: Seq<char>) -> LaneModel {
    LaneModel {
        lane_id,
        name: Seq::empty(),
        mode: LaneMode::Compare,
        folder: Seq::empty(),
        recursive: true,
        feature_keys: Seq::empty(),
        files: Seq::empty(),
        item_count: 0,
        last_error: Seq::empty(),
        batch_status: Seq::empty(),
        batch_action_id: None,
        batch_updated_at: None,
        last_run_id: None,
        last_batch_error: Seq::empty(),
        claim_owner: None,
        claim_updated_at: None,
    }
}

pub fn default_lane(lane_id: &str) -> (r: LaneRecord)
    ensures
        r@ == fresh_lane(lane_id@),
{
    LaneRecord {
        lane_id: lane_id.to_owned(),
        name: empty_text(),
        mode: LaneMode::Compare,
        folder: empty_text(),
        recursive: true,
        feature_keys: no_texts(),
        files: no_texts(),
        item_count: 0,
        last_error: empty_text(),
        batch_status: empty_text(),
        batch_action_id: None,
        batch_updated_at: None,
        last_run_id: None,
        last_batch_error: empty_text(),
        claim_owner: None,
        claim_updated_at: None,
    }
}

/// The place of the first lane with an id.
pub open spec fn place_of(lanes: Seq<LaneModel>, id: Seq<char>) -> Option<int>
    decreases lanes.len(),
{
    if lanes.len() == 0 {
        None
    } else {
        match place_of(lanes.drop_last(), id) {
            Some(i) => Some(i),
            None => if lanes.last().lane_id == id {
                Some(lanes.len() - 1)
            } else {
                None
            },
        }
    }
}

proof fn lemma_place(lanes: Seq<LaneModel>, id: Seq<char>)
    ensures
        match place_of(lanes, id) {
            Some(i) => 0 <= i < lanes.len() && lanes[i].lane_id == id,
            None => true,
        },
    decreases lanes.len(),
{
    if lanes.len() > 0 {
        lemma_place(lanes.drop_last(), id);
    }
}

fn find_lane(lanes: &Vec<LaneRecord>, id: &str) -> (r: Option<usize>)
    ensures
        match r {
            Some(i) => i < lanes@.len() && place_of(lanes_of(lanes@), id@) == Some(i as int)
                && lanes@[i as int]@.lane_id == id@,
            None => place_of(lanes_of(lanes@), id@) is None,
        },
{
    let n: usize = lanes.len();
    let ghost all = lanes_of(lanes@);
    let mut i: usize = 0;
    assert(all.take(0) =~= Seq::<LaneModel>::empty());
    while i < n
        invariant
            i <= n,
            n == lanes@.len(),
            all == lanes_of(lanes@),
            place_of(all.take(i as int), id@) is None,
        decreases n - i,
    {
        let ghost next = all.take(i + 1);
        assert(next.drop_last() =~= all.take(i as int));
        assert(next.last() == lanes@[i as int]@);
        if str_eq(lanes[i].lane_id.as_str(), id) {
            proof {
                assert(place_of(next, id@) == Some(i as int));
                lemma_place_stays(all, id@, i + 1);
            }
            return Some(i);
        }
        i += 1;
    }
    assert(all.take(n as int) =~= all);
    None
}

proof fn lemma_place_stays(lanes: Seq<LaneModel>, id: Seq<char>, n: int)
    requires
        0 <= n <= lanes.len(),
        place_of(lanes.take(n), id) is Some,
    ensures
        place_of(lanes, id) == place_of(lanes.take(n), id),
    decreases lanes.len() - n,
{
    if n < lanes.len() {
        assert(lanes.take(n + 1).drop_last() =~= lanes.take(n));
        lemma_place_stays(lanes, id, n + 1);
    } else {
        assert(lanes.take(n) =~= lanes);
    }
}

/// Why an actor may not change a lane; `None` where it may. Only the owner of a claim may, or one
/// who takes it over.
pub open spec fn mutation_refusal(
    claims: Map<Seq<char>, ClaimModel>,
    id: Seq<char>,
    actor: Option<Seq<char>>,
    steal: bool,
) -> Option<Seq<char>> {
    if !claims.contains_key(id) {
        None
    } else {
        match claims[id] {
            ClaimModel::Unreadable(e) => Some(e),
            ClaimModel::Valid { lane_id, actor: owner, claimed_at } => if lane_id != id {
                Some("claim file mismatch for "@ + id + ": contains "@ + lane_id)
            } else if steal || actor == Some(owner) {
                None
            } else {
                Some("lane "@ + id + " is claimed by "@ + owner)
            },
        }
    }
}

/// A lane with what its claim says.
pub open spec fn reconciled(lane: LaneModel, claims: Map<Seq<char>, ClaimModel>) -> LaneModel {
    if !claims.contains_key(lane.lane_id) {
        LaneModel { claim_owner: None, claim_updated_at: None, ..lane }
    } else {
        match claims[lane.lane_id] {
            ClaimModel::Valid { lane_id, actor, claimed_at } => if lane_id == lane.lane_id {
                LaneModel { claim_owner: Some(actor), claim_updated_at: Some(claimed_at), ..lane }
            } else {
                LaneModel {
                    claim_owner: None,
                    claim_updated_at: None,
                    last_error: "claim file mismatch: expected "@ + lane.lane_id + ", found "@
                        + lane_id,
                    ..lane
                }
            },
            ClaimModel::Unreadable(e) => LaneModel {
                claim_owner: None,
                claim_updated_at: None,
                last_error: "claim read error: "@ + e,
                ..lane
            },
        }
    }
}

pub open spec fn all_reconciled(lanes: Seq<LaneModel>, claims: Map<Seq<char>, ClaimModel>) -> Seq<
    LaneModel,
> {
    lanes.map_values(|l: LaneModel| reconciled(l, claims))
}

proof fn lemma_reconciled_place(
    lanes: Seq<LaneModel>,
    claims: Map<Seq<char>, ClaimModel>,
    id: Seq<char>,
)
    ensures
        place_of(all_reconciled(lanes, claims), id) == place_of(lanes, id),
    decreases lanes.len(),
{
    let r = all_reconciled(lanes, claims);
    if lanes.len() > 0 {
        lemma_reconciled_place(lanes.drop_last(), claims, id);
        assert(r.drop_last() =~= all_reconciled(lanes.drop_last(), claims));
        assert(r.last() == reconciled(lanes.last(), claims));
    }
}

/// A lane after an update. A new folder has not been scanned yet.
pub open spec fn lane_updated(lane: LaneModel, u: LaneUpdate) -> LaneModel {
    LaneModel {
        name: match u.name {
            Some(v) => v@,
            None => lane.name,
        },
        mode: match u.mode {
            Some(v) => v,
            None => lane.mode,
        },
        folder: match u.folder {
            Some(v) => v@,
            None => lane.folder,
        },
        files: if u.folder is Some {
            Seq::empty()
        } else {
            lane.files
        },
        item_count: if u.folder is Some {
            0
        } else {
            lane.item_count
        },
        last_error: if u.folder is Some {
            Seq::empty()
        } else {
            lane.last_error
        },
        recursive: match u.recursive {
            Some(v) => v,
            None => lane.recursive,
        },
        feature_keys: match u.feature_keys {
            Some(v) => texts(v@),
            None => lane.feature_keys,
        },
        ..lane
    }
}

/// What was found where the folder of a lane should be.
#[derive(Debug)]
pub enum FolderListing {
    Missing,
    /// A file stands there.
    File,
    /// Neither a file nor a folder stands there.
    Other,
    /// The files below the folder, and how many folders could not be read.
    Folder { files: Vec<String>, dir_errors: usize },
}

/// What a scan of a folder comes to: the images in order, or why there are none.
pub open spec fn scan_outcome(
    style: PathStyle,
    root: Seq<char>,
    listing: FolderListing,
    r: Result<(Vec<String>, usize), String>,
) -> bool {
    match listing {
        FolderListing::Missing => r is Err && r->Err_0@ == "folder not found: "@ + root,
        FolderListing::Other => r is Err && r->Err_0@ == "not a folder: "@ + root,
        FolderListing::File => if is_image_path(style, root) {
            r is Ok && texts((r->Ok_0).0@) == seq![root] && (r->Ok_0).1 == 0
        } else {
            r is Err && r->Err_0@ == "not a supported image: "@ + root
        },
        FolderListing::Folder { files, dir_errors } => match r {
            Ok((found, errors)) => {
                &&& found@.len() > 0
                &&& errors == dir_errors
                &&& in_text_order(texts(found@))
                &&& forall|k: Seq<char>| #[trigger]
                    texts(found@).contains(k) <==> texts(files@).contains(k) && is_image_path(
                        style,
                        k,
                    )
            },
            Err(e) => {
                &&& e@ == "no supported images under "@ + root
                &&& forall|k: Seq<char>| #[trigger]
                    texts(files@).contains(k) ==> !is_image_path(style, k)
            },
        },
    }
}

pub fn collect_image_paths(style: PathStyle, root: &str, listing: &FolderListing) -> (r: Result<
    (Vec<String>, usize),
    String,
>)
    ensures
        scan_outcome(style, root@, *listing, r),
{
    match listing {
        FolderListing::Missing => Err(cat("folder not found: ", root)),
        FolderListing::Other => Err(cat("not a folder: ", root)),
        FolderListing::File => if image_path(style, root) {
            let mut one: Vec<String> = Vec::new();
            one.push(root.to_owned());
            assert(texts(one@) =~= seq![root@]);
            Ok((one, 0))
        } else {
            Err(cat("not a supported image: ", root))
        },
        FolderListing::Folder { files, dir_errors } => {
            let found = collect_image_files(style, files);
            if found.len() == 0 {
                proof {
                    assert forall|k: Seq<char>| #[trigger]
                        texts(files@).contains(k) implies !is_image_path(style, k) by {
                        assert(!texts(found@).contains(k));
                    }
                }
                Err(cat("no supported images under ", root))
            } else {
                Ok((found, *dir_errors))
            }
        },
    }
}

/// A lane after a scan.
pub open spec fn lane_scanned(
    style: PathStyle,
    before: LaneModel,
    listing: FolderListing,
    after: LaneModel,
    r: Result<(Vec<String>, usize), String>,
) -> bool {
    &&& scan_outcome(style, before.folder, listing, r)
    &&& after == match r {
        Ok((files, errors)) => LaneModel {
            files: texts(files@),
            item_count: files@.len(),
            last_error: Seq::empty(),
            ..before
        },
        Err(e) => LaneModel { files: Seq::empty(), item_count: 0, last_error: e@, ..before },
    }
}

/// The lanes of a workspace and the claims on them.
#[derive(Debug)]
pub struct LaneStore {
    pub style: PathStyle,
    pub workspace_root: String,
    pub lanes: Vec<LaneRecord>,
    pub claims: Table<ClaimFile>,
}

/// What setting a lane comes to.
pub open spec fn set_outcome(
    before: LanesModel,
    after: LanesModel,
    u: LaneUpdate,
    actor: Option<Seq<char>>,
    steal: bool,
    r: Result<LaneRecord, String>,
) -> bool {
    let id = u.lane_id@;
    if trimmed(id).len() == 0 {
        r is Err && r->Err_0@ == "lane_id is required"@ && after == before
    } else {
        match mutation_refusal(before.claims, id, actor, steal) {
            Some(e) => r is Err && r->Err_0@ == e && after == before,
            None => {
                let lanes = all_reconciled(before.lanes, before.claims);
                &&& r is Ok
                &&& after.claims == before.claims
                &&& match place_of(before.lanes, id) {
                    Some(i) => {
                        &&& r->Ok_0@ == lane_updated(lanes[i], u)
                        &&& after.lanes == lanes.update(i, r->Ok_0@)
                    },
                    None => {
                        &&& r->Ok_0@ == lane_updated(fresh_lane(id), u)
                        &&& after.lanes == lanes.push(r->Ok_0@)
                    },
                }
            },
        }
    }
}

/// What scanning a lane comes to.
pub open spec fn scan_lane_outcome(
    style: PathStyle,
    before: LanesModel,
    after: LanesModel,
    id: Seq<char>,
    actor: Option<Seq<char>>,
    steal: bool,
    listing: FolderListing,
    r: Result<LaneScanResult, String>,
) -> bool {
    match mutation_refusal(before.claims, id, actor, steal) {
        Some(e) => r is Err && r->Err_0@ == e && after == before,
        None => match place_of(before.lanes, id) {
            None => r is Err && r->Err_0@ == "unknown lane: "@ + id && after == before,
            Some(i) => {
                let lanes = all_reconciled(before.lanes, before.claims);
                &&& after.claims == before.claims
                &&& after.lanes == lanes.update(i, after.lanes[i])
                &&& if trimmed(lanes[i].folder).len() == 0 {
                    &&& r is Err && r->Err_0@ == "lane folder is empty"@
                    &&& after.lanes[i] == LaneModel {
                        last_error: "lane folder is empty"@,
                        ..lanes[i]
                    }
                } else {
                    exists|x: Result<(Vec<String>, usize), String>|
                        {
                            &&& #[trigger] lane_scanned(style, lanes[i], listing, after.lanes[i], x)
                            &&& match x {
                                Ok((files, errors)) => {
                                    &&& r is Ok
                                    &&& r->Ok_0.lane_id@ == id
                                    &&& r->Ok_0.item_count == files@.len()
                                    &&& texts(r->Ok_0.files@) == texts(files@)
                                    &&& r->Ok_0.dir_errors == errors
                                    &&& r->Ok_0.last_error@.len() == 0
                                },
                                Err(e) => r is Err && r->Err_0@ == e@,
                            }
                        }
                }
            },
        },
    }
}

pub open spec fn lane_ids(lanes: Seq<LaneModel>) -> Seq<Seq<char>> {
    lanes.map_values(|l: LaneModel| l.lane_id)
}

/// Whether a lane was reported as its scan came out.
pub open spec fn reported(
    id: Seq<char>,
    x: Result<LaneScanResult, String>,
    item: LaneScanResult,
) -> bool {
    match x {
        Ok(result) => item == result,
        Err(e) => {
            &&& item.lane_id@ == id
            &&& item.item_count == 0
            &&& texts(item.files@) == Seq::<Seq<char>>::empty()
            &&& item.dir_errors == 0
            &&& item.last_error@ == e@
        },
    }
}

pub open spec fn all_reported(
    ids: Seq<Seq<char>>,
    outcomes: Seq<Result<LaneScanResult, String>>,
    items: Seq<LaneScanResult>,
) -> bool {
    &&& items.len() == ids.len()
    &&& forall|i: int| 0 <= i < ids.len() ==> reported(ids[i], #[trigger] outcomes[i], items[i])
}

/// Whether the states are those between the scans of the lanes, one after the other.
pub open spec fn scan_trace(
    style: PathStyle,
    states: Seq<LanesModel>,
    outcomes: Seq<Result<LaneScanResult, String>>,
    ids: Seq<Seq<char>>,
    actor: Option<Seq<char>>,
    steal: bool,
    listings: Seq<FolderListing>,
) -> bool {
    &&& states.len() == ids.len() + 1
    &&& outcomes.len() == ids.len()
    &&& forall|i: int|
        0 <= i < ids.len() ==> scan_lane_outcome(
            style,
            states[i],
            states[i + 1],
            ids[i],
            actor,
            steal,
            listings[i],
            #[trigger] outcomes[i],
        )
}

/// What scanning all lanes comes to.
pub open spec fn scan_all_outcome(
    style: PathStyle,
    before: LanesModel,
    after: LanesModel,
    actor: Option<Seq<char>>,
    steal: bool,
    listings: Seq<FolderListing>,
    items: Seq<LaneScanResult>,
) -> bool {
    let ids = lane_ids(before.lanes);
    exists|states: Seq<LanesModel>, outcomes: Seq<Result<LaneScanResult, String>>|
        {
            &&& #[trigger] scan_trace(style, states, outcomes, ids, actor, steal, listings)
            &&& states[0] == before
            &&& states.last() == after
            &&& all_reported(ids, outcomes, items)
        }
}

/// What claiming a lane comes to.
pub open spec fn claim_outcome(
    before: LanesModel,
    after: LanesModel,
    id: Seq<char>,
    actor: Seq<char>,
    steal: bool,
    now: Seq<char>,
    r: Result<LaneRecord, String>,
) -> bool {
    if trimmed(actor).len() == 0 {
        r is Err && r->Err_0@ == "actor is required to claim a lane"@ && after == before
    } else if place_of(before.lanes, id) is None {
        r is Err && r->Err_0@ == "unknown lane: "@ + id && after == before
    } else if before.claims.contains_key(id) && !steal {
        &&& r is Err
        &&& r->Err_0@ == "lane "@ + id + " already claimed by "@ + match before.claims[id] {
            ClaimModel::Valid { lane_id, actor: owner, claimed_at } => owner,
            ClaimModel::Unreadable(_) => "unknown"@,
        }
        &&& after == before
    } else {
        let i = place_of(before.lanes, id)->0;
        &&& r is Ok
        &&& r->Ok_0@ == LaneModel {
            claim_owner: Some(actor),
            claim_updated_at: Some(now),
            ..before.lanes[i]
        }
        &&& after.lanes == before.lanes.update(i, r->Ok_0@)
        &&& after.claims == before.claims.insert(
            id,
            ClaimModel::Valid { lane_id: id, actor, claimed_at: now },
        )
    }
}

/// What releasing a lane comes to.
pub open spec fn release_outcome(
    before: LanesModel,
    after: LanesModel,
    id: Seq<char>,
    actor: Seq<char>,
    steal: bool,
    r: Result<LaneRecord, String>,
) -> bool {
    if place_of(before.lanes, id) is None {
        r is Err && r->Err_0@ == "unknown lane: "@ + id && after == before
    } else if before.claims.contains_key(id) && before.claims[id] is Unreadable {
        r is Err && r->Err_0@ == before.claims[id]->Unreadable_0 && after == before
    } else if before.claims.contains_key(id) && before.claims[id]->actor != actor && !steal {
        &&& r is Err
        &&& r->Err_0@ == "lane "@ + id + " is claimed by "@ + before.claims[id]->actor
        &&& after == before
    } else {
        let i = place_of(before.lanes, id)->0;
        &&& r is Ok
        &&& r->Ok_0@ == LaneModel {
            claim_owner: None,
            claim_updated_at: None,
            ..before.lanes[i]
        }
        &&& after.lanes == before.lanes.update(i, r->Ok_0@)
        &&& after.claims == before.claims.remove(id)
    }
}

/// A lane after a change of its batch.
pub open spec fn lane_batched(
    lane: LaneModel,
    status: Seq<char>,
    action_id: Seq<char>,
    run_id: Option<Seq<char>>,
    error: Option<Seq<char>>,
    now: Seq<char>,
) -> LaneModel {
    LaneModel {
        batch_status: status,
        batch_action_id: Some(action_id),
        batch_updated_at: Some(now),
        last_run_id: run_id,
        last_batch_error: match error {
            Some(e) => e,
            None => Seq::empty(),
        },
        last_error: match error {
            Some(e) => e,
            None => if status == "error"@ || status == "failed"@ {
                lane.last_error
            } else {
                Seq::empty()
            },
        },
        ..lane
    }
}

/// What noting the state of a batch comes to.
pub open spec fn batch_outcome(
    before: LanesModel,
    after: LanesModel,
    id: Seq<char>,
    status: Seq<char>,
    action_id: Seq<char>,
    run_id: Option<Seq<char>>,
    error: Option<Seq<char>>,
    now: Seq<char>,
    r: Result<LaneRecord, String>,
) -> bool {
    &&& after.claims == before.claims
    &&& match place_of(before.lanes, id) {
        None => r is Err && r->Err_0@ == "unknown lane: "@ + id && after.lanes == before.lanes,
        Some(i) => {
            &&& r is Ok
            &&& r->Ok_0@ == lane_batched(
                before.lanes[i],
                status,
                action_id,
                run_id,
                error,
                now,
            )
            &&& after.lanes == before.lanes.update(i, r->Ok_0@)
        },
    }
}

impl LaneStore {
    pub open spec fn model(&self) -> LanesModel {
        LanesModel { lanes: lanes_of(self.lanes@), claims: claims_of(self.claims@) }
    }

    pub open spec fn same_place(&self, other: &LaneStore) -> bool {
        self.style == other.style && self.workspace_root == other.workspace_root
    }

    /// The lanes of a workspace that has none stored: two empty ones.
    pub fn new(style: PathStyle, workspace_root: String) -> (r: Self)
        ensures
            r.style == style,
            r.workspace_root == workspace_root,
            r.model().lanes == seq![fresh_lane("lane-001"@), fresh_lane("lane-002"@)],
            r.model().claims == Map::<Seq<char>, ClaimModel>::empty(),
    {
        let mut lanes: Vec<LaneRecord> = Vec::new();
        lanes.push(default_lane("lane-001"));
        lanes.push(default_lane("lane-002"));
        let claims: Table<ClaimFile> = Table::new();
        assert(lanes_of(lanes@) =~= seq![fresh_lane("lane-001"@), fresh_lane("lane-002"@)]);
        assert(claims_of(claims@) =~= Map::<Seq<char>, ClaimModel>::empty());
        LaneStore { style, workspace_root, lanes, claims }
    }

    /// The folder of the lanes.
    pub fn lanes_dir(&self) -> (r: String)
        ensures
            r@ == joined_path(
                self.style,
                joined_path(self.style, self.workspace_root@, ".facial"@),
                "lanes"@,
            ),
    {
        let state = join_path(self.style, self.workspace_root.as_str(), ".facial");
        join_path(self.style, state.as_str(), "lanes")
    }

    pub open spec fn lanes_folder(&self) -> Seq<char> {
        joined_path(
            self.style,
            joined_path(self.style, self.workspace_root@, ".facial"@),
            "lanes"@,
        )
    }

    /// The file of the lanes.
    pub fn registry_path(&self) -> (r: String)
        ensures
            r@ == joined_path(self.style, self.lanes_folder(), "lanes.json"@),
    {
        let dir = self.lanes_dir();
        join_path(self.style, dir.as_str(), "lanes.json")
    }

    /// The folder of the claims.
    pub fn claims_dir(&self) -> (r: String)
        ensures
            r@ == joined_path(self.style, self.lanes_folder(), "claims"@),
    {
        let dir = self.lanes_dir();
        join_path(self.style, dir.as_str(), "claims")
    }

    /// The file of the claim on a lane.
    pub fn claim_path(&self, lane_id: &str) -> (r: String)
        ensures
            r@ == joined_path(
                self.style,
                joined_path(self.style, self.lanes_folder(), "claims"@),
                with_json(lane_id@),
            ),
    {
        let dir = self.claims_dir();
        let name = cat(lane_id, ".json");
        join_path(self.style, dir.as_str(), name.as_str())
    }

    fn reconcile(&self, lane: &LaneRecord) -> (r: LaneRecord)
        ensures
            r@ == reconciled(lane@, self.model().claims),
    {
        let mut out = lane.clone();
        match self.claims.get(lane.lane_id.as_str()) {
            None => {
                out.claim_owner = None;
                out.claim_updated_at = None;
            },
            Some(ClaimFile::Valid(c)) => {
                if str_eq(c.lane_id.as_str(), lane.lane_id.as_str()) {
                    out.claim_owner = Some(c.actor.clone());
                    out.claim_updated_at = Some(c.claimed_at.clone());
                } else {
                    out.claim_owner = None;
                    out.claim_updated_at = None;
                    let mut e = cat3(
                        "claim file mismatch: expected ",
                        lane.lane_id.as_str(),
                        ", found ",
                    );
                    e.append(c.lane_id.as_str());
                    out.last_error = e;
                }
            },
            Some(ClaimFile::Unreadable(e)) => {
                out.claim_owner = None;
                out.claim_updated_at = None;
                out.last_error = cat("claim read error: ", e.as_str());
            },
        }
        out
    }

    /// All lanes, each with what its claim says.
    pub fn list_lanes(&self) -> (r: Vec<LaneRecord>)
        ensures
            lanes_of(r@) == all_reconciled(self.model().lanes, self.model().claims),
    {
        let mut out: Vec<LaneRecord> = Vec::new();
        let n: usize = self.lanes.len();
        let mut i: usize = 0;
        while i < n
            invariant
                i <= n,
                n == self.lanes@.len(),
                out@.len() == i,
                forall|j: int|
                    0 <= j < i ==> (#[trigger] out@[j])@ == reconciled(
                        self.lanes@[j]@,
                        self.model().claims,
                    ),
            decreases n - i,
        {
            out.push(self.reconcile(&self.lanes[i]));
            i += 1;
        }
        proof {
            let goal = all_reconciled(self.model().lanes, self.model().claims);
            assert forall|j: int| 0 <= j < n implies #[trigger] lanes_of(out@)[j] == goal[j] by {
                assert(out@[j]@ == reconciled(self.lanes@[j]@, self.model().claims));
            }
            assert(lanes_of(out@) =~= goal);
        }
        out
    }

    /// The lanes with an id, or all of them.
    pub fn lane_status(&self, lane_id: Option<&str>) -> (r: Vec<LaneRecord>)
        ensures
            ({
                let all = all_reconciled(self.model().lanes, self.model().claims);
                lanes_of(r@) == match lane_id {
                    Some(id) => all.filter(|l: LaneModel| l.lane_id == id@),
                    None => all,
                }
            }),
    {
        let all = self.list_lanes();
        let id = match lane_id {
            Some(id) => id,
            None => return all,
        };
        let ghost models = lanes_of(all@);
        let ghost f = |l: LaneModel| l.lane_id == id@;
        let mut out: Vec<LaneRecord> = Vec::new();
        let n: usize = all.len();
        let mut i: usize = 0;
        proof {
            reveal(Seq::filter);
            assert(models.take(0).filter(f) =~= Seq::<LaneModel>::empty());
            assert(lanes_of(out@) =~= Seq::<LaneModel>::empty());
        }
        while i < n
            invariant
                i <= n,
                n == all@.len(),
                models == lanes_of(all@),
                f == (|l: LaneModel| l.lane_id == id@),
                lanes_of(out@) == models.take(i as int).filter(f),
            decreases n - i,
        {
            let ghost before = lanes_of(out@);
            let keep = str_eq(all[i].lane_id.as_str(), id);
            if keep {
                let copy = all[i].clone();
                out.push(copy);
                assert(lanes_of(out@) =~= before.push(copy@));
            }
            proof {
                reveal(Seq::filter);
                assert(models.take(i + 1).drop_last() =~= models.take(i as int));
                assert(models.take(i + 1).last() == all@[i as int]@);
            }
            i += 1;
        }
        assert(models.take(n as int) =~= models);
        out
    }

    fn refuse_mutation(&self, lane_id: &str, actor: Option<&str>, steal: bool) -> (r: Option<String>)
        ensures
            opt_text(r) == mutation_refusal(self.model().claims, lane_id@, opt_view(actor), steal),
    {
        match self.claims.get(lane_id) {
            None => None,
            Some(ClaimFile::Unreadable(e)) => Some(e.clone()),
            Some(ClaimFile::Valid(c)) => {
                if !str_eq(c.lane_id.as_str(), lane_id) {
                    let mut e = cat3("claim file mismatch for ", lane_id, ": contains ");
                    e.append(c.lane_id.as_str());
                    return Some(e);
                }
                let owned = match actor {
                    Some(a) => str_eq(a, c.actor.as_str()),
                    None => false,
                };
                if steal || owned {
                    None
                } else {
                    let mut e = cat3("lane ", lane_id, " is claimed by ");
                    e.append(c.actor.as_str());
                    Some(e)
                }
            },
        }
    }

    /// Sets fields of a lane that nobody has claimed.
    pub fn set_lane(&mut self, update: LaneUpdate) -> (r: Result<LaneRecord, String>)
        ensures
            final(self).same_place(old(self)),
            set_outcome(old(self).model(), final(self).model(), update, None, false, r),
    {
        self.set_lane_for_actor(update, None, false)
    }

    /// Sets fields of a lane; one that does not exist yet is made.
    pub fn set_lane_for_actor(&mut self, update: LaneUpdate, actor: Option<&str>, steal: bool) -> (r:
        Result<LaneRecord, String>)
        ensures
            final(self).same_place(old(self)),
            set_outcome(
                old(self).model(),
                final(self).model(),
                update,
                opt_view(actor),
                steal,
                r,
            ),
    {
        let tidy = trim(update.lane_id.as_str());
        if tidy.as_str().is_empty() {
            return Err("lane_id is required".to_owned());
        }
        if let Some(e) = self.refuse_mutation(update.lane_id.as_str(), actor, steal) {
            return Err(e);
        }
        let ghost m0 = self.model();
        let mut lanes = self.list_lanes();
        let ghost all = lanes_of(lanes@);
        proof {
            lemma_reconciled_place(m0.lanes, m0.claims, update.lane_id@);
        }
        let found = find_lane(&lanes, update.lane_id.as_str());
        let lane = match found {
            Some(i) => lanes[i].clone(),
            None => default_lane(update.lane_id.as_str()),
        };
        let changed = change_lane(lane, update);
        let out = changed.clone();
        match found {
            Some(i) => {
                lanes.set(i, changed);
                assert(lanes_of(lanes@) =~= all.update(i as int, out@));
            },
            None => {
                lanes.push(changed);
                assert(lanes_of(lanes@) =~= all.push(out@));
            },
        }
        self.lanes = lanes;
        Ok(out)
    }

    /// Scans a lane that nobody has claimed. `listing` is what was found at its folder.
    pub fn scan_lane(&mut self, lane_id: &str, listing: &FolderListing) -> (r: Result<
        LaneScanResult,
        String,
    >)
        ensures
            final(self).same_place(old(self)),
            scan_lane_outcome(
                old(self).style,
                old(self).model(),
                final(self).model(),
                lane_id@,
                None,
                false,
                *listing,
                r,
            ),
    {
        self.scan_lane_for_actor(lane_id, None, false, listing)
    }

    /// Scans a lane: its images, or why there are none, are kept with it. `listing` is what was
    /// found at its folder.
    pub fn scan_lane_for_actor(
        &mut self,
        lane_id: &str,
        actor: Option<&str>,
        steal: bool,
        listing: &FolderListing,
    ) -> (r: Result<LaneScanResult, String>)
        ensures
            final(self).same_place(old(self)),
            scan_lane_outcome(
                old(self).style,
                old(self).model(),
                final(self).model(),
                lane_id@,
                opt_view(actor),
                steal,
                *listing,
                r,
            ),
    {
        if let Some(e) = self.refuse_mutation(lane_id, actor, steal) {
            return Err(e);
        }
        let ghost m0 = self.model();
        let mut lanes = self.list_lanes();
        let ghost all = lanes_of(lanes@);
        proof {
            lemma_reconciled_place(m0.lanes, m0.claims, lane_id@);
        }
        let i: usize = match find_lane(&lanes, lane_id) {
            Some(i) => i,
            None => return Err(cat("unknown lane: ", lane_id)),
        };
        let mut lane = lanes[i].clone();
        let ghost was = lane@;
        assert(was == all[i as int]);
        let tidy = trim(lane.folder.as_str());
        if tidy.as_str().is_empty() {
            lane.last_error = "lane folder is empty".to_owned();
            let ghost now = lane@;
            lanes.set(i, lane);
            assert(lanes_of(lanes@) =~= all.update(i as int, now));
            self.lanes = lanes;
            return Err("lane folder is empty".to_owned());
        }
        let x = collect_image_paths(self.style, lane.folder.as_str(), listing);
        let ghost outcome = x;
        match x {
            Ok((files, dir_errors)) => {
                lane.item_count = files.len();
                lane.files = copy_texts(&files);
                lane.last_error = empty_text();
                let ghost now = lane@;
                lanes.set(i, lane);
                assert(lanes_of(lanes@) =~= all.update(i as int, now));
                self.lanes = lanes;
                assert(lane_scanned(self.style, was, *listing, now, outcome));
                assert(self.model().lanes[i as int] == now);
                Ok(
                    LaneScanResult {
                        lane_id: lane_id.to_owned(),
                        item_count: files.len(),
                        files,
                        dir_errors,
                        last_error: empty_text(),
                    },
                )
            },
            Err(e) => {
                lane.files = no_texts();
                lane.item_count = 0;
                lane.last_error = e.clone();
                let ghost now = lane@;
                lanes.set(i, lane);
                assert(lanes_of(lanes@) =~= all.update(i as int, now));
                self.lanes = lanes;
                assert(lane_scanned(self.style, was, *listing, now, outcome));
                assert(self.model().lanes[i as int] == now);
                Err(e)
            },
        }
    }

    /// Scans all lanes that nobody has claimed. `listings` are what was found at the folder of
    /// each lane.
    pub fn scan_all_lanes(&mut self, listings: &Vec<FolderListing>) -> (r: Vec<LaneScanResult>)
        requires
            listings@.len() == old(self).lanes@.len(),
        ensures
            final(self).same_place(old(self)),
            scan_all_outcome(
                old(self).style,
                old(self).model(),
                final(self).model(),
                None,
                false,
                listings@,
                r@,
            ),
    {
        self.scan_all_lanes_for_actor(None, false, listings)
    }

    /// Scans all lanes, one after the other; a lane that cannot be scanned is reported with the
    /// reason. `listings` are what was found at the folder of each lane.
    pub fn scan_all_lanes_for_actor(
        &mut self,
        actor: Option<&str>,
        steal: bool,
        listings: &Vec<FolderListing>,
    ) -> (r: Vec<LaneScanResult>)
        requires
            listings@.len() == old(self).lanes@.len(),
        ensures
            final(self).same_place(old(self)),
            scan_all_outcome(
                old(self).style,
                old(self).model(),
                final(self).model(),
                opt_view(actor),
                steal,
                listings@,
                r@,
            ),
    {
        let ghost m0 = self.model();
        let ghost ids = lane_ids(m0.lanes);
        let names = self.lane_names();
        let n: usize = names.len();
        let mut out: Vec<LaneScanResult> = Vec::new();
        let ghost mut states = seq![m0];
        let ghost mut outcomes = Seq::<Result<LaneScanResult, String>>::empty();
        let mut i: usize = 0;
        assert(texts(names@).len() == n);
        while i < n
            invariant
                i <= n,
                n == names@.len(),
                n == listings@.len(),
                texts(names@) == ids,
                self.same_place(old(self)),
                states.len() == i + 1,
                outcomes.len() == i,
                out@.len() == i,
                states[0] == m0,
                states.last() == self.model(),
                forall|k: int|
                    0 <= k < i ==> scan_lane_outcome(
                        old(self).style,
                        states[k],
                        states[k + 1],
                        ids[k],
                        opt_view(actor),
                        steal,
                        listings@[k],
                        #[trigger] outcomes[k],
                    ),
                forall|k: int|
                    0 <= k < i ==> reported(ids[k], #[trigger] outcomes[k], out@[k]),
            decreases n - i,
        {
            let id = names[i].as_str();
            assert(ids[i as int] == id@);
            let ghost before = states;
            let x = self.scan_lane_for_actor(id, actor, steal, &listings[i]);
            proof {
                states = states.push(self.model());
                outcomes = outcomes.push(x);
                assert forall|k: int| 0 <= k < i + 1 implies scan_lane_outcome(
                    old(self).style,
                    states[k],
                    states[k + 1],
                    ids[k],
                    opt_view(actor),
                    steal,
                    listings@[k],
                    #[trigger] outcomes[k],
                ) by {
                    if k < i {
                        assert(states[k] == before[k] && states[k + 1] == before[k + 1]);
                    }
                }
            }
            let item = match x {
                Ok(result) => result,
                Err(e) => LaneScanResult {
                    lane_id: id.to_owned(),
                    item_count: 0,
                    files: no_texts(),
                    dir_errors: 0,
                    last_error: e,
                },
            };
            out.push(item);
            i += 1;
        }
        proof {
            assert(scan_trace(
                self.style,
                states,
                outcomes,
                ids,
                opt_view(actor),
                steal,
                listings@,
            ));
            assert(all_reported(ids, outcomes, out@));
        }
        out
    }

    fn lane_names(&self) -> (r: Vec<String>)
        ensures
            texts(r@) == lane_ids(self.model().lanes),
    {
        let mut out: Vec<String> = Vec::new();
        let n: usize = self.lanes.len();
        let mut i: usize = 0;
        while i < n
            invariant
                i <= n,
                n == self.lanes@.len(),
                out@.len() == i,
                forall|j: int| 0 <= j < i ==> (#[trigger] out@[j])@ == self.lanes@[j]@.lane_id,
            decreases n - i,
        {
            out.push(self.lanes[i].lane_id.clone());
            i += 1;
        }
        assert(texts(out@) =~= lane_ids(self.model().lanes));
        out
    }

    /// A lane that an actor may work on.
    pub fn lane_for_actor(&self, lane_id: &str, actor: Option<&str>, steal: bool) -> (r: Result<
        LaneRecord,
        String,
    >)
        ensures
            match mutation_refusal(self.model().claims, lane_id@, opt_view(actor), steal) {
                Some(e) => r is Err && r->Err_0@ == e,
                None => match place_of(self.model().lanes, lane_id@) {
                    Some(i) => r is Ok && r->Ok_0@ == reconciled(
                        self.model().lanes[i],
                        self.model().claims,
                    ),
                    None => r is Err && r->Err_0@ == "unknown lane: "@ + lane_id@,
                },
            },
    {
        if let Some(e) = self.refuse_mutation(lane_id, actor, steal) {
            return Err(e);
        }
        match find_lane(&self.lanes, lane_id) {
            Some(i) => {
                assert(self.model().lanes[i as int] == self.lanes@[i as int]@);
                Ok(self.reconcile(&self.lanes[i]))
            },
            None => Err(cat("unknown lane: ", lane_id)),
        }
    }

    fn put_lane(&mut self, i: usize, lane: LaneRecord)
        requires
            i < old(self).lanes@.len(),
        ensures
            final(self).same_place(old(self)),
            final(self).claims == old(self).claims,
            final(self).model().lanes == old(self).model().lanes.update(i as int, lane@),
    {
        let ghost all = lanes_of(self.lanes@);
        let ghost m = lane@;
        self.lanes.set(i, lane);
        assert(lanes_of(self.lanes@) =~= all.update(i as int, m));
    }

    /// Notes the state of a batch at the given time.
    fn update_batch_state(
        &mut self,
        lane_id: &str,
        status: &str,
        action_id: &str,
        run_id: Option<String>,
        error: Option<String>,
        now: &str,
    ) -> (r: Result<LaneRecord, String>)
        ensures
            final(self).same_place(old(self)),
            batch_outcome(
                old(self).model(),
                final(self).model(),
                lane_id@,
                status@,
                action_id@,
                opt_text(run_id),
                opt_text(error),
                now@,
                r,
            ),
    {
        let i: usize = match find_lane(&self.lanes, lane_id) {
            Some(i) => i,
            None => return Err(cat("unknown lane: ", lane_id)),
        };
        let mut lane = self.lanes[i].clone();
        assert(lane@ == self.model().lanes[i as int]);
        lane.batch_status = status.to_owned();
        lane.batch_action_id = Some(action_id.to_owned());
        lane.batch_updated_at = Some(now.to_owned());
        lane.last_run_id = run_id;
        match error {
            Some(e) => {
                lane.last_batch_error = e.clone();
                lane.last_error = e;
            },
            None => {
                lane.last_batch_error = empty_text();
                if !(str_eq(status, "error") || str_eq(status, "failed")) {
                    lane.last_error = empty_text();
                }
            },
        }
        let out = lane.clone();
        self.put_lane(i, lane);
        Ok(out)
    }

    /// Notes that a batch runs on a lane.
    pub fn record_batch_started(&mut self, lane_id: &str, action_id: &str) -> (r: Result<
        LaneRecord,
        String,
    >)
        ensures
            final(self).same_place(old(self)),
            exists|now: Seq<char>| #[trigger]
                batch_outcome(
                    old(self).model(),
                    final(self).model(),
                    lane_id@,
                    "running"@,
                    action_id@,
                    None,
                    None,
                    now,
                    r,
                ),
    {
        let now = now_rfc3339();
        self.update_batch_state(lane_id, "running", action_id, None, None, now.as_str())
    }

    /// Notes how a batch on a lane ended.
    pub fn record_batch_result(&mut self, result: &LaneBatchResult) -> (r: Result<LaneRecord, String>)
        ensures
            final(self).same_place(old(self)),
            exists|now: Seq<char>| #[trigger]
                batch_outcome(
                    old(self).model(),
                    final(self).model(),
                    result.lane_id@,
                    result.status@,
                    result.action_id@,
                    opt_text(result.run_id),
                    opt_text(result.error),
                    now,
                    r,
                ),
    {
        let now = now_rfc3339();
        let run_id = copy_opt(&result.run_id);
        let error = copy_opt(&result.error);
        self.update_batch_state(
            result.lane_id.as_str(),
            result.status.as_str(),
            result.action_id.as_str(),
            run_id,
            error,
            now.as_str(),
        )
    }

    /// Claims a lane at the given time.
    pub fn claim_lane_at(&mut self, lane_id: &str, actor: &str, steal: bool, now: &str) -> (r: Result<
        LaneRecord,
        String,
    >)
        ensures
            final(self).same_place(old(self)),
            claim_outcome(
                old(self).model(),
                final(self).model(),
                lane_id@,
                actor@,
                steal,
                now@,
                r,
            ),
    {
        let tidy = trim(actor);
        if tidy.as_str().is_empty() {
            return Err("actor is required to claim a lane".to_owned());
        }
        let i: usize = match find_lane(&self.lanes, lane_id) {
            Some(i) => i,
            None => return Err(cat("unknown lane: ", lane_id)),
        };
        if !steal {
            if let Some(claim) = self.claims.get(lane_id) {
                let owner = match claim {
                    ClaimFile::Valid(c) => c.actor.as_str(),
                    ClaimFile::Unreadable(_) => "unknown",
                };
                let mut e = cat3("lane ", lane_id, " already claimed by ");
                e.append(owner);
                return Err(e);
            }
        }
        let claim = ClaimFile::Valid(
            LaneClaim {
                lane_id: lane_id.to_owned(),
                actor: actor.to_owned(),
                claimed_at: now.to_owned(),
            },
        );
        let ghost m = self.claims@;
        let ghost cm = claim@;
        let mut lane = self.lanes[i].clone();
        assert(lane@ == self.model().lanes[i as int]);
        lane.claim_owner = Some(actor.to_owned());
        lane.claim_updated_at = Some(now.to_owned());
        let out = lane.clone();
        self.claims.insert(lane_id.to_owned(), claim);
        assert(claims_of(self.claims@) =~= claims_of(m).insert(lane_id@, cm));
        self.put_lane(i, lane);
        Ok(out)
    }

    /// Claims a lane for an actor: until it is released nobody else changes it, unless they take
    /// it over.
    pub fn claim_lane(&mut self, lane_id: &str, actor: &str, steal: bool) -> (r: Result<
        LaneRecord,
        String,
    >)
        ensures
            final(self).same_place(old(self)),
            exists|now: Seq<char>| #[trigger]
                claim_outcome(
                    old(self).model(),
                    final(self).model(),
                    lane_id@,
                    actor@,
                    steal,
                    now,
                    r,
                ),
    {
        let now = now_rfc3339();
        self.claim_lane_at(lane_id, actor, steal, now.as_str())
    }

    /// Releases the claim of an actor on a lane.
    pub fn release_lane(&mut self, lane_id: &str, actor: &str, steal: bool) -> (r: Result<
        LaneRecord,
        String,
    >)
        ensures
            final(self).same_place(old(self)),
            release_outcome(old(self).model(), final(self).model(), lane_id@, actor@, steal, r),
    {
        let i: usize = match find_lane(&self.lanes, lane_id) {
            Some(i) => i,
            None => return Err(cat("unknown lane: ", lane_id)),
        };
        if let Some(claim) = self.claims.get(lane_id) {
            match claim {
                ClaimFile::Unreadable(e) => return Err(e.clone()),
                ClaimFile::Valid(c) => {
                    if !str_eq(c.actor.as_str(), actor) && !steal {
                        let mut e = cat3("lane ", lane_id, " is claimed by ");
                        e.append(c.actor.as_str());
                        return Err(e);
                    }
                },
            }
        }
        let ghost m = self.claims@;
        let mut lane = self.lanes[i].clone();
        assert(lane@ == self.model().lanes[i as int]);
        lane.claim_owner = None;
        lane.claim_updated_at = None;
        let out = lane.clone();
        self.claims.remove(lane_id);
        assert(claims_of(self.claims@) =~= claims_of(m).remove(lane_id@));
        self.put_lane(i, lane);
        Ok(out)
    }
}

fn change_lane(lane: LaneRecord, update: LaneUpdate) -> (r: LaneRecord)
    ensures
        r@ == lane_updated(lane@, update),
{
    let mut out = lane;
    if let Some(name) = update.name {
        out.name = name;
    }
    if let Some(mode) = update.mode {
        out.mode = mode;
    }
    if let Some(folder) = update.folder {
        out.folder = folder;
        out.files = no_texts();
        out.item_count = 0;
        out.last_error = empty_text();
    }
    if let Some(recursive) = update.recursive {
        out.recursive = recursive;
    }
    if let Some(keys) = update.feature_keys {
        out.feature_keys = keys;
    }
    out
}

/// A claim is exclusive: after an actor has claimed a lane, that actor may change it and nobody
/// else may without taking it over.
pub proof fn claims_are_exclusive(
    before: LanesModel,
    after: LanesModel,
    id: Seq<char>,
    actor: Seq<char>,
    steal: bool,
    now: Seq<char>,
    r: Result<LaneRecord, String>,
    other: Option<Seq<char>>,
)
    requires
        claim_outcome(before, after, id, actor, steal, now, r),
        r is Ok,
    ensures
        mutation_refusal(after.claims, id, Some(actor), false) is None,
        mutation_refusal(after.claims, id, other, true) is None,
        other != Some(actor) ==> mutation_refusal(after.claims, id, other, false) == Some(
            "lane "@ + id + " is claimed by "@ + actor,
        ),
{
}

/// A lane that is claimed is not claimed again unless it is taken over.
pub proof fn claimed_lanes_refuse_claims(
    before: LanesModel,
    after: LanesModel,
    id: Seq<char>,
    actor: Seq<char>,
    now: Seq<char>,
    r: Result<LaneRecord, String>,
)
    requires
        before.claims.contains_key(id),
        claim_outcome(before, after, id, actor, false, now, r),
    ensures
        r is Err,
        after == before,
{
}

/// After a release nobody holds the lane.
pub proof fn released_lanes_are_free(
    before: LanesModel,
    after: LanesModel,
    id: Seq<char>,
    actor: Seq<char>,
    steal: bool,
    r: Result<LaneRecord, String>,
    other: Option<Seq<char>>,
)
    requires
        release_outcome(before, after, id, actor, steal, r),
        r is Ok,
    ensures
        mutation_refusal(after.claims, id, other, false) is None,
        r->Ok_0@.claim_owner is None,
{
}

/// An update leaves the fields that it does not name as they were.
pub proof fn updates_keep_other_fields(lane: LaneModel, u: LaneUpdate)
    ensures
        u.name is None ==> lane_updated(lane, u).name == lane.name,
        u.mode is None ==> lane_updated(lane, u).mode == lane.mode,
        u.recursive is None ==> lane_updated(lane, u).recursive == lane.recursive,
        u.feature_keys is None ==> lane_updated(lane, u).feature_keys == lane.feature_keys,
        u.folder is None ==> lane_updated(lane, u).folder == lane.folder && lane_updated(
            lane,
            u,
        ).files == lane.files && lane_updated(lane, u).item_count == lane.item_count,
        lane_updated(lane, u).lane_id == lane.lane_id,
        lane_updated(lane, u).claim_owner == lane.claim_owner,
{
}

} // verus!
