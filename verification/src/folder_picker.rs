//! The folder browser: which folder is shown, what is listed, what was picked and for what.

use crate::number::{decimal, decimal_text};
use crate::order::{is_stable_order, stable_order};
use crate::paths::{join_path, joined_path, parent, parent_of, PathStyle};
use crate::text::{
    cat, chars_of, opt_text, slice_of, string_of, texts, to_lowercase, trim, trimmed, unicode_lower,
};
use vstd::prelude::*;

verus! {

/// How many subfolders are listed at most.
pub const MAX_ENTRIES: usize = 1000;

/// What the folder is picked for.
#[derive(Clone, Copy, Debug, PartialEq, Eq, Structural)]
pub enum PickerPurpose {
    /// The folder that a lane shows.
    LaneFolder,
    /// Where files are moved to.
    MoveDestination,
    /// Where files are copied to.
    CopyDestination,
    /// Where a new folder is made for copies.
    CopyIntoNewFolderParent,
}

impl PickerPurpose {
    pub open spec fn heading(self, lane_id: nat) -> Seq<char> {
        match self {
            PickerPurpose::LaneFolder => "Select folder — lane "@ + decimal(lane_id + 1),
            PickerPurpose::MoveDestination => "Move to folder"@,
            PickerPurpose::CopyDestination => "Copy to folder"@,
            PickerPurpose::CopyIntoNewFolderParent => "Copy into new folder — choose parent"@,
        }
    }

    /// The title of the browser.
    pub fn title(&self, lane_id: usize) -> (r: String)
        requires
            lane_id < usize::MAX,
        ensures
            r@ == self.heading(lane_id as nat),
    {
        match self {
            PickerPurpose::LaneFolder => {
                let digits = decimal_text((lane_id + 1) as u64);
                cat("Select folder — lane ", digits.as_str())
            },
            PickerPurpose::MoveDestination => "Move to folder".to_owned(),
            PickerPurpose::CopyDestination => "Copy to folder".to_owned(),
            PickerPurpose::CopyIntoNewFolderParent => {
                "Copy into new folder — choose parent".to_owned()
            },
        }
    }

    /// The text of the button that picks.
    pub fn commit_label(&self) -> (r: &'static str)
        ensures
            r@ == match *self {
                PickerPurpose::LaneFolder => "Use this folder"@,
                PickerPurpose::MoveDestination => "Move here"@,
                PickerPurpose::CopyDestination => "Copy here"@,
                PickerPurpose::CopyIntoNewFolderParent => "Create here"@,
            },
    {
        match self {
            PickerPurpose::LaneFolder => "Use this folder",
            PickerPurpose::MoveDestination => "Move here",
            PickerPurpose::CopyDestination => "Copy here",
            PickerPurpose::CopyIntoNewFolderParent => "Create here",
        }
    }
}

#[derive(Debug)]
pub struct FolderPicker {
    /// The lane that the browser is open for.
    pub open_for: Option<usize>,
    pub purpose: Option<PickerPurpose>,
    pub current: String,
    pub path_input: String,
    pub entries: Vec<String>,
    pub truncated: bool,
    pub error: String,
    pub drives: Vec<String>,
}

#[verifier::ext_equal]
pub ghost struct PickerModel {
    pub open_for: Option<usize>,
    pub purpose: Option<PickerPurpose>,
    pub current: Seq<char>,
    pub path_input: Seq<char>,
    pub entries: Seq<Seq<char>>,
    pub truncated: bool,
    pub error: Seq<char>,
    pub drives: Seq<Seq<char>>,
}

impl View for FolderPicker {
    type V = PickerModel;

    open spec fn view(&self) -> PickerModel {
        PickerModel {
            open_for: self.open_for,
            purpose: self.purpose,
            current: self.current@,
            path_input: self.path_input@,
            entries: texts(self.entries@),
            truncated: self.truncated,
            error: self.error@,
            drives: texts(self.drives@),
        }
    }
}

/// What came of the browser in one frame.
#[derive(Debug)]
pub enum PickerEvent {
    /// A folder was picked.
    Picked { lane_id: usize, folder: String, purpose: PickerPurpose },
    Nothing,
}

/// What was done in one frame of the browser.
#[derive(Debug)]
pub struct PickerFrame {
    /// The folder to go to.
    pub nav_target: Option<String>,
    pub picked: bool,
    pub cancelled: bool,
    /// Whether the window was left open.
    pub window_open: bool,
}

/// The names of a folder that can be read as text.
pub open spec fn readable(names: Seq<Option<String>>) -> Seq<Seq<char>>
    decreases names.len(),
{
    if names.len() == 0 {
        Seq::empty()
    } else {
        match names.last() {
            Some(n) => readable(names.drop_last()).push(n@),
            None => readable(names.drop_last()),
        }
    }
}

/// The names that are listed, in the order in which they were found.
pub open spec fn found_names(names: Seq<Option<String>>) -> Seq<Seq<char>> {
    let all = readable(names);
    if all.len() <= MAX_ENTRIES {
        all
    } else {
        all.take(MAX_ENTRIES as int)
    }
}

/// Whether a subfolder is left out: one that comes after the list is full.
pub open spec fn is_cut(names: Seq<Option<String>>) -> bool {
    exists|j: int| 0 <= j < names.len() && readable(#[trigger] names.take(j)).len() >= MAX_ENTRIES
}

pub open spec fn lowered(names: Seq<Seq<char>>) -> Seq<Seq<char>> {
    names.map_values(|n: Seq<char>| unicode_lower(n))
}

/// Names in the order of the given places.
pub open spec fn arranged(names: Seq<Seq<char>>, order: Seq<usize>) -> Seq<Seq<char>> {
    order.map_values(|i: usize| names[i as int])
}

/// Whether a browser shows what was read of its folder: the subfolders without case in order, or
/// why it could not be read.
pub open spec fn shows(m: PickerModel, listing: Result<Vec<Option<String>>, String>) -> bool {
    match listing {
        Err(e) => {
            &&& m.entries == Seq::<Seq<char>>::empty()
            &&& !m.truncated
            &&& m.error == "Cannot read folder: "@ + e@
        },
        Ok(names) => {
            &&& m.error == Seq::<char>::empty()
            &&& m.truncated == is_cut(names@)
            &&& exists|order: Seq<usize>| #[trigger]
                is_stable_order(order, lowered(found_names(names@))) && m.entries == arranged(
                    found_names(names@),
                    order,
                )
        },
    }
}

/// Whether a browser has gone to a folder.
pub open spec fn went_to(
    before: PickerModel,
    after: PickerModel,
    target: Seq<char>,
    listing: Result<Vec<Option<String>>, String>,
) -> bool {
    &&& after.open_for == before.open_for
    &&& after.purpose == before.purpose
    &&& after.drives == before.drives
    &&& after.current == target
    &&& after.path_input == target
    &&& shows(after, listing)
}

/// A browser that was closed.
pub open spec fn closed_picker(m: PickerModel) -> PickerModel {
    PickerModel {
        open_for: None,
        purpose: None,
        entries: Seq::empty(),
        error: Seq::empty(),
        ..m
    }
}

/// Where a browser begins: at the given folder where it is one, or at the first drive.
pub open spec fn begin_at(start: Seq<char>, start_is_folder: bool, drives: Seq<Seq<char>>) -> Seq<
    char,
> {
    if trimmed(start).len() > 0 && start_is_folder {
        trimmed(start)
    } else if drives.len() > 0 {
        drives[0]
    } else {
        "."@
    }
}

/// Where a browser begins. `start_is_folder` tells whether the trimmed text names a folder.
pub fn initial_folder(start: &str, start_is_folder: bool, drives: &Vec<String>) -> (r: String)
    ensures
        r@ == begin_at(start@, start_is_folder, texts(drives@)),
{
    let tidy = trim(start);
    assert(texts(drives@).len() == drives@.len());
    if !tidy.as_str().is_empty() && start_is_folder {
        tidy
    } else if drives.len() > 0 {
        assert(texts(drives@)[0] == drives@[0]@);
        drives[0].clone()
    } else {
        ".".to_owned()
    }
}

impl Default for FolderPicker {
    fn default() -> (r: Self)
        ensures
            r@.open_for is None,
            r@.purpose is None,
            r@.entries == Seq::<Seq<char>>::empty(),
            r@.error == Seq::<char>::empty(),
            !r@.truncated,
            r@.current == Seq::<char>::empty(),
            r@.path_input == Seq::<char>::empty(),
            r@.drives == Seq::<Seq<char>>::empty(),
    {
        let r = FolderPicker {
            open_for: None,
            purpose: None,
            current: String::new(),
            path_input: String::new(),
            entries: Vec::new(),
            truncated: false,
            error: String::new(),
            drives: Vec::new(),
        };
        assert(r@.entries =~= Seq::<Seq<char>>::empty());
        assert(r@.drives =~= Seq::<Seq<char>>::empty());
        assert(r@.error =~= Seq::<char>::empty());
        assert(r@.current =~= Seq::<char>::empty());
        assert(r@.path_input =~= Seq::<char>::empty());
        r
    }
}

proof fn lemma_readable_grows(names: Seq<Option<String>>, i: int, j: int)
    requires
        0 <= i <= j <= names.len(),
    ensures
        readable(names.take(i)).len() <= readable(names.take(j)).len(),
        readable(names.take(j)).take(readable(names.take(i)).len() as int) == readable(
            names.take(i),
        ),
    decreases j - i,
{
    let a = readable(names.take(i));
    if i < j {
        lemma_readable_grows(names, i, j - 1);
        assert(names.take(j).drop_last() =~= names.take(j - 1));
        let b = readable(names.take(j - 1));
        let c = readable(names.take(j));
        assert(c.take(a.len() as int) =~= b.take(a.len() as int));
    } else {
        assert(a.take(a.len() as int) =~= a);
    }
}

fn gather(names: &Vec<Option<String>>) -> (r: (Vec<String>, bool))
    ensures
        texts(r.0@) == found_names(names@),
        r.1 == is_cut(names@),
{
    let n: usize = names.len();
    let mut out: Vec<String> = Vec::new();
    let mut i: usize = 0;
    assert(texts(out@) =~= readable(names@.take(0)));
    while i < n
        invariant
            i <= n,
            n == names@.len(),
            out@.len() <= MAX_ENTRIES,
            texts(out@) == readable(names@.take(i as int)),
            forall|j: int|
                0 <= j < i ==> readable(#[trigger] names@.take(j)).len() < MAX_ENTRIES,
        decreases n - i,
    {
        assert(texts(out@).len() == out@.len());
        if out.len() >= MAX_ENTRIES {
            proof {
                lemma_readable_grows(names@, i as int, n as int);
                assert(names@.take(n as int) =~= names@);
                assert(readable(names@.take(i as int)).len() >= MAX_ENTRIES);
                let all = readable(names@);
                assert(all.take(MAX_ENTRIES as int) == texts(out@));
                if all.len() == MAX_ENTRIES {
                    assert(all.take(MAX_ENTRIES as int) =~= all);
                }
            }
            return (out, true);
        }
        let ghost before = texts(out@);
        assert(names@.take(i + 1).drop_last() =~= names@.take(i as int));
        if let Some(name) = &names[i] {
            let copy = name.clone();
            out.push(copy);
            assert(texts(out@) =~= before.push(copy@));
        }
        i += 1;
    }
    assert(names@.take(n as int) =~= names@);
    assert(texts(out@).len() == out@.len());
    (out, false)
}

fn sort_without_case(names: &Vec<String>) -> (r: Vec<String>)
    ensures
        exists|order: Seq<usize>| #[trigger]
            is_stable_order(order, lowered(texts(names@))) && texts(r@) == arranged(
                texts(names@),
                order,
            ),
{
    let n: usize = names.len();
    let mut keys: Vec<String> = Vec::new();
    let mut i: usize = 0;
    while i < n
        invariant
            i <= n,
            n == names@.len(),
            keys@.len() == i,
            forall|j: int| 0 <= j < i ==> (#[trigger] keys@[j])@ == unicode_lower(names@[j]@),
        decreases n - i,
    {
        keys.push(to_lowercase(names[i].as_str()));
        i += 1;
    }
    assert(texts(keys@) =~= lowered(texts(names@)));
    let order = stable_order(&keys);
    let mut out: Vec<String> = Vec::new();
    let mut k: usize = 0;
    while k < n
        invariant
            k <= n,
            n == names@.len(),
            n == order@.len(),
            texts(keys@) == lowered(texts(names@)),
            is_stable_order(order@, texts(keys@)),
            keys@.len() == n,
            out@.len() == k,
            forall|j: int| 0 <= j < k ==> (#[trigger] out@[j])@ == names@[order@[j] as int]@,
        decreases n - k,
    {
        let at: usize = order[k];
        assert(texts(keys@).len() == n);
        out.push(names[at].clone());
        k += 1;
    }
    assert(texts(out@) =~= arranged(texts(names@), order@));
    out
}

impl FolderPicker {
    pub fn is_open(&self) -> (r: bool)
        ensures
            r == self@.open_for is Some,
    {
        self.open_for.is_some()
    }

    fn navigate(&mut self, target: &str, listing: &Result<Vec<Option<String>>, String>)
        ensures
            went_to(old(self)@, final(self)@, target@, *listing),
    {
        self.current = target.to_owned();
        self.path_input = target.to_owned();
        match listing {
            Err(e) => {
                self.entries = Vec::new();
                self.truncated = false;
                self.error = cat("Cannot read folder: ", e.as_str());
                assert(texts(self.entries@) =~= Seq::<Seq<char>>::empty());
            },
            Ok(names) => {
                let (found, cut) = gather(names);
                self.entries = sort_without_case(&found);
                self.truncated = cut;
                self.error = String::new();
                assert(self.error@ =~= Seq::<char>::empty());
            },
        }
    }

    /// Opens the browser for the folder of a lane. See `open_for_purpose`.
    pub fn open(
        &mut self,
        lane_id: usize,
        start: &str,
        start_is_folder: bool,
        drives: Vec<String>,
        listing: &Result<Vec<Option<String>>, String>,
    )
        ensures
            final(self)@.open_for == Some(lane_id),
            final(self)@.purpose == Some(PickerPurpose::LaneFolder),
            final(self)@.drives == texts(drives@),
            final(self)@.current == begin_at(start@, start_is_folder, texts(drives@)),
            final(self)@.path_input == final(self)@.current,
            shows(final(self)@, *listing),
    {
        self.open_for_purpose(
            lane_id,
            start,
            PickerPurpose::LaneFolder,
            start_is_folder,
            drives,
            listing,
        );
    }

    /// Opens the browser. `start_is_folder` tells whether the trimmed start is a folder, and
    /// `listing` is what was read of the folder that `initial_folder` gives.
    pub fn open_for_purpose(
        &mut self,
        lane_id: usize,
        start: &str,
        purpose: PickerPurpose,
        start_is_folder: bool,
        drives: Vec<String>,
        listing: &Result<Vec<Option<String>>, String>,
    )
        ensures
            final(self)@.open_for == Some(lane_id),
            final(self)@.purpose == Some(purpose),
            final(self)@.drives == texts(drives@),
            final(self)@.current == begin_at(start@, start_is_folder, texts(drives@)),
            final(self)@.path_input == final(self)@.current,
            shows(final(self)@, *listing),
    {
        let initial = initial_folder(start, start_is_folder, &drives);
        self.purpose = Some(purpose);
        self.drives = drives;
        self.open_for = Some(lane_id);
        self.navigate(initial.as_str(), listing);
    }

    pub fn close(&mut self)
        ensures
            final(self)@ == closed_picker(old(self)@),
    {
        self.open_for = None;
        self.purpose = None;
        self.entries = Vec::new();
        self.error = String::new();
        assert(texts(self.entries@) =~= Seq::<Seq<char>>::empty());
        assert(self.error@ =~= Seq::<char>::empty());
    }

    /// The folder above the one that is shown.
    pub fn up_target(&self, style: PathStyle) -> (r: Option<String>)
        ensures
            opt_text(r) == parent_of(style, self@.current),
    {
        parent(style, self.current.as_str())
    }

    /// The folder that was typed.
    pub fn typed_target(&self) -> (r: String)
        ensures
            r@ == trimmed(self@.path_input),
    {
        trim(self.path_input.as_str())
    }

    /// A subfolder of the folder that is shown.
    pub fn entry_target(&self, style: PathStyle, name: &str) -> (r: String)
        ensures
            r@ == joined_path(style, self@.current, name@),
    {
        join_path(style, self.current.as_str(), name)
    }

    /// Notes that what was typed is no folder.
    pub fn refuse_typed(&mut self)
        ensures
            final(self)@ == (PickerModel { error: "Not a folder."@, ..old(self)@ }),
    {
        self.error = "Not a folder.".to_owned();
    }

    /// Ends a frame of the browser. `listing` is what was read of the folder to go to, where there
    /// is one. The folder that is picked is the one that was shown when the button was pressed.
    pub fn show(&mut self, frame: &PickerFrame, listing: &Result<Vec<Option<String>>, String>) -> (r:
        PickerEvent)
        ensures
            frame_outcome(old(self)@, final(self)@, *frame, *listing, r),
    {
        let lane_id: usize = match self.open_for {
            Some(id) => id,
            None => return PickerEvent::Nothing,
        };
        let purpose = match self.purpose {
            Some(p) => p,
            None => PickerPurpose::LaneFolder,
        };
        let shown = self.current.clone();
        if let Some(target) = &frame.nav_target {
            self.navigate(target.as_str(), listing);
        }
        let ghost moved = self@;
        if frame.picked {
            self.close();
            assert(closed_after(old(self)@, moved, self@, *frame, *listing));
            return PickerEvent::Picked { lane_id, folder: shown, purpose };
        }
        if frame.cancelled || !frame.window_open {
            self.close();
            assert(closed_after(old(self)@, moved, self@, *frame, *listing));
        }
        PickerEvent::Nothing
    }
}

/// Whether a browser has gone where a frame asks for, if it asks for anything.
pub open spec fn followed(
    before: PickerModel,
    after: PickerModel,
    frame: PickerFrame,
    listing: Result<Vec<Option<String>>, String>,
) -> bool {
    match frame.nav_target {
        Some(target) => went_to(before, after, target@, listing),
        None => after == before,
    }
}

/// Whether a browser was closed after it went where a frame asks for.
pub open spec fn closed_after(
    before: PickerModel,
    moved: PickerModel,
    after: PickerModel,
    frame: PickerFrame,
    listing: Result<Vec<Option<String>>, String>,
) -> bool {
    followed(before, moved, frame, listing) && after == closed_picker(moved)
}

/// What a frame of the browser comes to.
pub open spec fn frame_outcome(
    before: PickerModel,
    after: PickerModel,
    frame: PickerFrame,
    listing: Result<Vec<Option<String>>, String>,
    r: PickerEvent,
) -> bool {
    if before.open_for is None {
        r is Nothing && after == before
    } else if frame.picked {
        &&& r is Picked
        &&& Some(r->lane_id) == before.open_for
        &&& r->folder@ == before.current
        &&& r->purpose == match before.purpose {
            Some(p) => p,
            None => PickerPurpose::LaneFolder,
        }
        &&& exists|moved: PickerModel| #[trigger]
            closed_after(before, moved, after, frame, listing)
    } else if frame.cancelled || !frame.window_open {
        &&& r is Nothing
        &&& exists|moved: PickerModel| #[trigger]
            closed_after(before, moved, after, frame, listing)
    } else {
        r is Nothing && followed(before, after, frame, listing)
    }
}

/// A pick answers to what the browser was opened for: going from folder to folder keeps the
/// purpose and the lane, and a pick carries them.
pub proof fn picks_answer_to_their_purpose(
    before: PickerModel,
    after: PickerModel,
    frame: PickerFrame,
    listing: Result<Vec<Option<String>>, String>,
    r: PickerEvent,
)
    requires
        before.open_for is Some,
        before.purpose is Some,
        frame_outcome(before, after, frame, listing, r),
    ensures
        r is Picked ==> Some(r->purpose) == before.purpose && Some(r->lane_id) == before.open_for
            && after.open_for is None,
        after.open_for is Some ==> after.open_for == before.open_for && after.purpose
            == before.purpose,
{
}

/// The text of a drive without the backslashes at its end.
pub open spec fn without_backslashes(s: Seq<char>) -> Seq<char>
    decreases s.len(),
{
    if s.len() > 0 && s.last() == '\\' {
        without_backslashes(s.drop_last())
    } else {
        s
    }
}

/// The text of the button of a drive.
pub fn drive_label(drive: &str) -> (r: String)
    ensures
        r@ == without_backslashes(drive@),
{
    let cs = chars_of(drive);
    let mut n: usize = cs.len();
    assert(cs@.take(n as int) =~= cs@);
    while n > 0 && cs[n - 1] == '\\'
        invariant
            n <= cs@.len(),
            cs@ == drive@,
            without_backslashes(drive@) == without_backslashes(cs@.take(n as int)),
        decreases n,
    {
        assert(cs@.take(n as int).drop_last() =~= cs@.take(n - 1));
        n -= 1;
    }
    assert(cs@.subrange(0, n as int) =~= cs@.take(n as int));
    string_of(slice_of(&cs, 0, n))
}

} // verus!
