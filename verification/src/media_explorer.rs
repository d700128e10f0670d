//! The media explorer: view settings, folder rows, cursor movement, display order, breadcrumbs.

use crate::cancel::{
    lemma_nothing_asked, lemma_obeyed_further, lemma_one_more, obeyed, CancelSignal,
};
use crate::paths::{
    file_name, file_name_of, join_path, joined_path, parent, parent_of, PathStyle,
};
use crate::text::{
    ascii_lower, cat, cat3, chars_of, ends, ends_with, eq_ignore_ascii_case, rank_chars, replace_char,
    replaced, slice_of, split, split_char, starts_with, str_eq, string_of, text_order_is_total,
    text_order_is_transitive, text_rank, texts, to_ascii_lowercase, trim, trimmed, begins, Rank,
};
use vstd::prelude::*;

verus! {

/// Drive letters of a mask of assigned drives: bit 0 is `A:\`, bit 25 is `Z:\`.
pub open spec fn drives_of(mask: u32, n: nat) -> Seq<Seq<char>>
    decreases n,
{
    if n == 0 {
        Seq::empty()
    } else {
        let before = drives_of(mask, (n - 1) as nat);
        if (mask >> ((n - 1) as u32)) & 1 == 1 {
            before.push(seq![(64 + n) as char, ':', '\\'])
        } else {
            before
        }
    }
}

/// The roots of the assigned drives, in the order of their letters.
pub fn drive_roots(mask: u32) -> (r: Vec<String>)
    ensures
        texts(r@) == drives_of(mask, 26),
{
    let mut out: Vec<String> = Vec::new();
    let mut bit: u32 = 0;
    assert(texts(out@) =~= drives_of(mask, 0));
    while bit < 26
        invariant
            bit <= 26,
            texts(out@) == drives_of(mask, bit as nat),
        decreases 26 - bit,
    {
        if (mask >> bit) & 1 == 1 {
            let mut root = String::new();
            root.push((65 + bit as u8) as char);
            root.push(':');
            root.push('\\');
            let ghost before = texts(out@);
            assert(root@ =~= seq![(64 + (bit + 1)) as char, ':', '\\']);
            out.push(root);
            assert(texts(out@) =~= before.push(root@));
        }
        bit += 1;
    }
    out
}

/// Whether a path begins with a root, separators and ASCII case aside.
pub open spec fn lies_on_root(path: Seq<char>, root: Seq<char>) -> bool {
    let p = replaced(path, '/', '\\');
    let r = replaced(root, '/', '\\');
    r.len() <= p.len() && ascii_lower(p.take(r.len() as int)) == ascii_lower(r)
}

pub fn path_is_on_root(path: &str, root: &str) -> (r: bool)
    ensures
        r == lies_on_root(path@, root@),
{
    let p = replace_char(path, '/', '\\');
    let q = replace_char(root, '/', '\\');
    let pc = chars_of(p.as_str());
    let qc = chars_of(q.as_str());
    if qc.len() > pc.len() {
        return false;
    }
    assert(pc@.subrange(0, qc@.len() as int) =~= pc@.take(qc@.len() as int));
    let prefix = string_of(slice_of(&pc, 0, qc.len()));
    eq_ignore_ascii_case(prefix.as_str(), q.as_str())
}

/// View mode of the media surface.
#[derive(Clone, Copy, Debug, PartialEq, Eq, Structural)]
pub enum MediaViewMode {
    /// Library panel left, viewer panel right.
    TwoPanel,
    /// Full-window thumbnail wall.
    FullGrid,
}

impl MediaViewMode {
    pub open spec fn word(self) -> Seq<char> {
        match self {
            MediaViewMode::TwoPanel => "two_panel"@,
            MediaViewMode::FullGrid => "full_grid"@,
        }
    }

    pub fn to_setting(self) -> (r: &'static str)
        ensures
            r@ == self.word(),
    {
        match self {
            MediaViewMode::TwoPanel => "two_panel",
            MediaViewMode::FullGrid => "full_grid",
        }
    }

    pub fn from_setting(raw: &str) -> (r: Self)
        ensures
            r == if raw@ == "full_grid"@ {
                MediaViewMode::FullGrid
            } else {
                MediaViewMode::TwoPanel
            },
    {
        if str_eq(raw, "full_grid") {
            MediaViewMode::FullGrid
        } else {
            MediaViewMode::TwoPanel
        }
    }
}

/// Sort key of the grid.
#[derive(Clone, Copy, Debug, PartialEq, Eq, Structural)]
pub enum MediaSort {
    Name,
    Modified,
    Size,
    /// Creation time, which some volumes do not record.
    Created,
}

/// The sort that a setting names; an unknown word means by name.
pub open spec fn sort_named(raw: Seq<char>) -> MediaSort {
    if raw == "modified"@ {
        MediaSort::Modified
    } else if raw == "size"@ {
        MediaSort::Size
    } else if raw == "created"@ {
        MediaSort::Created
    } else {
        MediaSort::Name
    }
}

impl MediaSort {
    pub open spec fn word(self) -> Seq<char> {
        match self {
            MediaSort::Name => "name"@,
            MediaSort::Modified => "modified"@,
            MediaSort::Size => "size"@,
            MediaSort::Created => "created"@,
        }
    }

    pub fn label(self) -> (r: &'static str)
        ensures
            r@ == match self {
                MediaSort::Name => "Name"@,
                MediaSort::Modified => "Modified"@,
                MediaSort::Size => "Size"@,
                MediaSort::Created => "Created"@,
            },
    {
        match self {
            MediaSort::Name => "Name",
            MediaSort::Modified => "Modified",
            MediaSort::Size => "Size",
            MediaSort::Created => "Created",
        }
    }

    pub fn to_setting(self) -> (r: &'static str)
        ensures
            r@ == self.word(),
    {
        match self {
            MediaSort::Name => "name",
            MediaSort::Modified => "modified",
            MediaSort::Size => "size",
            MediaSort::Created => "created",
        }
    }

    pub fn from_setting(raw: &str) -> (r: Self)
        ensures
            r == sort_named(raw@),
    {
        if str_eq(raw, "modified") {
            MediaSort::Modified
        } else if str_eq(raw, "size") {
            MediaSort::Size
        } else if str_eq(raw, "created") {
            MediaSort::Created
        } else {
            MediaSort::Name
        }
    }

    /// Whether this key needs the file's metadata rather than just its path.
    pub fn needs_stat(self) -> (r: bool)
        ensures
            r == (self != MediaSort::Name),
    {
        !matches!(self, MediaSort::Name)
    }
}

/// Writing a sort or a view mode to a setting and reading it back gives it again.
pub proof fn settings_round_trip(sort: MediaSort, mode: MediaViewMode)
    ensures
        sort_named(sort.word()) == sort,
        (mode.word() == "full_grid"@) == (mode == MediaViewMode::FullGrid),
{
    reveal_strlit("name");
    reveal_strlit("modified");
    reveal_strlit("size");
    reveal_strlit("created");
    reveal_strlit("two_panel");
    reveal_strlit("full_grid");
    assert("name"@.len() == 4 && "size"@.len() == 4 && "modified"@.len() == 8 && "created"@.len()
        == 7);
    assert("name"@[0] == 'n' && "size"@[0] == 's');
    assert("two_panel"@[0] == 't' && "full_grid"@[0] == 'f');
}

#[derive(Clone, Copy, Debug, PartialEq, Eq, Structural)]
pub enum StatFailure {
    NotFound,
    PermissionDenied,
    Unavailable,
    Other,
}

/// A file's metadata. Unknown and failed values stay distinct from a real zero.
#[derive(Clone, Copy, Debug, PartialEq, Eq, Structural)]
pub enum FileStat {
    Unknown,
    Known { mtime: Option<u64>, size: u64, created: Option<u64> },
    Error(StatFailure),
}

impl Default for FileStat {
    fn default() -> (r: Self)
        ensures
            r == FileStat::Unknown,
    {
        FileStat::Unknown
    }
}

impl FileStat {
    pub open spec fn mtime_of(self) -> Option<u64> {
        match self {
            FileStat::Known { mtime, .. } => mtime,
            _ => None,
        }
    }

    pub open spec fn size_of(self) -> Option<u64> {
        match self {
            FileStat::Known { size, .. } => Some(size),
            _ => None,
        }
    }

    pub open spec fn created_of(self) -> Option<u64> {
        match self {
            FileStat::Known { created, .. } => created,
            _ => None,
        }
    }

    pub fn mtime(self) -> (r: Option<u64>)
        ensures
            r == self.mtime_of(),
    {
        match self {
            FileStat::Known { mtime, .. } => mtime,
            _ => None,
        }
    }

    pub fn size(self) -> (r: Option<u64>)
        ensures
            r == self.size_of(),
    {
        match self {
            FileStat::Known { size, .. } => Some(size),
            _ => None,
        }
    }

    pub fn created(self) -> (r: Option<u64>)
        ensures
            r == self.created_of(),
    {
        match self {
            FileStat::Known { created, .. } => created,
            _ => None,
        }
    }
}

/// One row of the folder navigator.
#[derive(Debug)]
pub struct MediaFolderEntry {
    pub path: String,
    pub label: String,
    pub is_parent: bool,
    pub is_drive: bool,
}

/// What a row of the folder navigator shows.
pub ghost struct FolderRow {
    pub path: Seq<char>,
    pub label: Seq<char>,
    pub is_parent: bool,
    pub is_drive: bool,
}

impl View for MediaFolderEntry {
    type V = FolderRow;

    open spec fn view(&self) -> FolderRow {
        FolderRow {
            path: self.path@,
            label: self.label@,
            is_parent: self.is_parent,
            is_drive: self.is_drive,
        }
    }
}

pub open spec fn rows_of(entries: Seq<MediaFolderEntry>) -> Seq<FolderRow> {
    entries.map_values(|e: MediaFolderEntry| e@)
}

/// Prepared folder-navigation rows: drives first, then the parent, then the children.
#[derive(Debug)]
pub struct PreparedFolderEntries {
    entries: Vec<MediaFolderEntry>,
    drive_count: usize,
}

impl PreparedFolderEntries {
    pub closed spec fn rows(&self) -> Seq<FolderRow> {
        rows_of(self.entries@)
    }

    pub closed spec fn drives(&self) -> usize {
        self.drive_count
    }

    pub fn all(&self) -> (r: &Vec<MediaFolderEntry>)
        ensures
            rows_of(r@) == self.rows(),
    {
        &self.entries
    }

    pub fn get(&self, index: usize) -> (r: Option<&MediaFolderEntry>)
        ensures
            match r {
                Some(e) => index < self.rows().len() && e@ == self.rows()[index as int],
                None => index >= self.rows().len(),
            },
    {
        if index < self.entries.len() {
            Some(&self.entries[index])
        } else {
            None
        }
    }

    pub fn len(&self) -> (r: usize)
        ensures
            r == self.rows().len(),
    {
        self.entries.len()
    }

    pub fn is_empty(&self) -> (r: bool)
        ensures
            r == (self.rows().len() == 0),
    {
        self.entries.len() == 0
    }

    pub fn drive_count(&self) -> (r: usize)
        ensures
            r == self.drives(),
    {
        self.drive_count
    }
}

/// `s` without the slashes and backslashes at its end.
pub open spec fn without_end_slashes(s: Seq<char>) -> Seq<char>
    decreases s.len(),
{
    if s.len() > 0 && (s.last() == '/' || s.last() == '\\') {
        without_end_slashes(s.drop_last())
    } else {
        s
    }
}

fn trim_end_slashes(s: &str) -> (r: String)
    ensures
        r@ == without_end_slashes(s@),
{
    let cs = chars_of(s);
    let mut n: usize = cs.len();
    assert(cs@.subrange(0, n as int) =~= cs@);
    while n > 0 && (cs[n - 1] == '/' || cs[n - 1] == '\\')
        invariant
            n <= cs@.len(),
            without_end_slashes(s@) == without_end_slashes(cs@.subrange(0, n as int)),
        decreases n,
    {
        assert(cs@.subrange(0, n as int).drop_last() =~= cs@.subrange(0, n - 1));
        n -= 1;
    }
    string_of(slice_of(&cs, 0, n))
}

pub open spec fn drive_row(root: Seq<char>) -> FolderRow {
    FolderRow {
        path: root,
        label: without_end_slashes(root) + " drive"@,
        is_parent: false,
        is_drive: true,
    }
}

pub open spec fn child_row(style: PathStyle, folder: Seq<char>, name: Seq<char>) -> FolderRow {
    FolderRow {
        path: joined_path(style, folder, name),
        label: name,
        is_parent: false,
        is_drive: false,
    }
}

/// The row that leads out of `folder`, where it has a parent.
pub open spec fn parent_rows(style: PathStyle, folder: Seq<char>) -> Seq<FolderRow> {
    match parent_of(style, folder) {
        Some(p) => seq![
            FolderRow { path: p, label: "Parent folder"@, is_parent: true, is_drive: false },
        ],
        None => Seq::empty(),
    }
}

/// The rows for a folder: every root, and unless the folder is empty its parent and its children.
pub open spec fn folder_rows(
    style: PathStyle,
    roots: Seq<Seq<char>>,
    folder: Seq<char>,
    children: Seq<Seq<char>>,
) -> Seq<FolderRow> {
    roots.map_values(|r: Seq<char>| drive_row(r)) + if folder.len() == 0 {
        Seq::empty()
    } else {
        parent_rows(style, folder) + children.map_values(
            |n: Seq<char>| child_row(style, folder, n),
        )
    }
}

pub fn prepare_folder_entries(
    style: PathStyle,
    roots: &Vec<String>,
    folder: &str,
    child_names: &Vec<String>,
) -> (r: PreparedFolderEntries)
    ensures
        r.rows() == folder_rows(style, texts(roots@), folder@, texts(child_names@)),
        r.drives() == roots@.len(),
{
    let mut entries: Vec<MediaFolderEntry> = Vec::new();
    let n: usize = roots.len();
    let mut i: usize = 0;
    let ghost drive_rows = texts(roots@).map_values(|r: Seq<char>| drive_row(r));
    while i < n
        invariant
            i <= n,
            n == roots@.len(),
            drive_rows == texts(roots@).map_values(|r: Seq<char>| drive_row(r)),
            rows_of(entries@) == drive_rows.take(i as int),
            entries@.len() == i,
        decreases n - i,
    {
        let root = &roots[i];
        let stem = trim_end_slashes(root.as_str());
        let ghost before = rows_of(entries@);
        let entry = MediaFolderEntry {
            label: cat(stem.as_str(), " drive"),
            path: root.clone(),
            is_parent: false,
            is_drive: true,
        };
        assert(entry@ == drive_rows[i as int]);
        entries.push(entry);
        assert(rows_of(entries@) =~= before.push(entry@));
        assert(drive_rows.take(i + 1) =~= drive_rows.take(i as int).push(drive_rows[i as int]));
        i += 1;
    }
    let drive_count: usize = entries.len();
    assert(drive_rows.take(n as int) =~= drive_rows);
    if !folder.is_empty() {
        if let Some(p) = parent(style, folder) {
            let ghost before = rows_of(entries@);
            let entry = MediaFolderEntry {
                path: p,
                label: "Parent folder".to_owned(),
                is_parent: true,
                is_drive: false,
            };
            entries.push(entry);
            assert(rows_of(entries@) =~= before + parent_rows(style, folder@));
        } else {
            assert(rows_of(entries@) =~= rows_of(entries@) + parent_rows(style, folder@));
        }
        let ghost head = rows_of(entries@);
        let ghost child_rows = texts(child_names@).map_values(
            |n: Seq<char>| child_row(style, folder@, n),
        );
        let m: usize = child_names.len();
        let mut j: usize = 0;
        assert(head =~= head + child_rows.take(0));
        while j < m
            invariant
                j <= m,
                m == child_names@.len(),
                child_rows == texts(child_names@).map_values(
                    |n: Seq<char>| child_row(style, folder@, n),
                ),
                rows_of(entries@) == head + child_rows.take(j as int),
            decreases m - j,
        {
            let name = &child_names[j];
            let ghost before = rows_of(entries@);
            let entry = MediaFolderEntry {
                path: join_path(style, folder, name.as_str()),
                label: name.clone(),
                is_parent: false,
                is_drive: false,
            };
            assert(entry@ == child_rows[j as int]);
            entries.push(entry);
            assert(rows_of(entries@) =~= before.push(entry@));
            assert(child_rows.take(j + 1) =~= child_rows.take(j as int).push(child_rows[j as int]));
            j += 1;
        }
        assert(child_rows.take(m as int) =~= child_rows);
        assert(rows_of(entries@) =~= drive_rows + (parent_rows(style, folder@) + child_rows));
    } else {
        assert(rows_of(entries@) =~= drive_rows + Seq::<FolderRow>::empty());
    }
    PreparedFolderEntries { entries, drive_count }
}

/// The value nearest to `v` in `lo..=hi`.
pub open spec fn clamp_int(v: int, lo: int, hi: int) -> int {
    if v < lo {
        lo
    } else if v > hi {
        hi
    } else {
        v
    }
}

/// Moves a linear cursor with clamped ends. Empty lists have no cursor; a cursor that is unset or
/// out of range starts at the first item for forward movement and at the last for backward
/// movement.
pub fn move_list_cursor(current: Option<usize>, delta: isize, len: usize) -> (r: Option<usize>)
    requires
        len <= isize::MAX,
    ensures
        r == if len == 0 {
            None::<usize>
        } else if current is Some && current->0 < len {
            Some(clamp_int(current->0 + delta, 0, len - 1) as usize)
        } else if delta < 0 {
            Some((len - 1) as usize)
        } else {
            Some(0usize)
        },
{
    if len == 0 {
        return None;
    }
    let start: usize = match current {
        Some(index) if index < len => index,
        _ => return Some(if delta < 0 {
            len - 1
        } else {
            0
        }),
    };
    let next: i128 = start as i128 + delta as i128;
    if next < 0 {
        Some(0)
    } else if next > (len - 1) as i128 {
        Some(len - 1)
    } else {
        Some(next as usize)
    }
}

/// Moves a grid cursor by `dx` columns and `dy` rows; without a cursor any movement lands on the
/// first tile.
pub fn move_cursor(
    cursor: Option<usize>,
    dx: isize,
    dy: isize,
    columns: usize,
    item_count: usize,
) -> (r: Option<usize>)
    requires
        columns <= isize::MAX,
        item_count <= isize::MAX,
    ensures
        r == if item_count == 0 {
            None::<usize>
        } else if cursor is None {
            Some(0usize)
        } else {
            let width = if columns == 0 {
                1int
            } else {
                columns as int
            };
            Some(clamp_int(cursor->0 + dx + dy * width, 0, item_count - 1) as usize)
        },
{
    if item_count == 0 {
        return None;
    }
    let current: usize = match cursor {
        Some(c) => c,
        None => return Some(0),
    };
    let width: i128 = if columns < 1 {
        1
    } else {
        columns as i128
    };
    assert(-0x4000_0000_0000_0000_0000_0000_0000_0000 <= dy * width
        <= 0x4000_0000_0000_0000_0000_0000_0000_0000) by (nonlinear_arith)
        requires
            1 <= width <= 0x8000_0000_0000_0000,
            -0x8000_0000_0000_0000 <= dy <= 0x8000_0000_0000_0000,
    ;
    let rows: i128 = dy as i128 * width;
    let next: i128 = current as i128 + dx as i128 + rows;
    if next < 0 {
        Some(0)
    } else if next > (item_count - 1) as i128 {
        Some(item_count - 1)
    } else {
        Some(next as usize)
    }
}

/// What the display order of a file goes by.
pub ghost struct RowKey {
    pub name: Seq<char>,
    pub path: Seq<char>,
    pub stat: Option<u64>,
}

/// The value of a file's metadata that a sort goes by.
pub open spec fn sort_value(sort: MediaSort, stat: FileStat) -> Option<u64> {
    match sort {
        MediaSort::Name => None,
        MediaSort::Modified => stat.mtime_of(),
        MediaSort::Size => stat.size_of(),
        MediaSort::Created => stat.created_of(),
    }
}

/// The file name of a path without ASCII case, or the whole path where it has none.
pub open spec fn name_key(style: PathStyle, path: Seq<char>) -> Seq<char> {
    ascii_lower(
        match file_name_of(style, path) {
            Some(name) => name,
            None => path,
        },
    )
}

pub open spec fn row_keys(
    style: PathStyle,
    files: Seq<String>,
    stats: Seq<FileStat>,
    sort: MediaSort,
) -> Seq<RowKey> {
    Seq::new(
        files.len(),
        |i: int|
            RowKey {
                name: name_key(style, files[i]@),
                path: files[i]@,
                stat: sort_value(sort, stats[i]),
            },
    )
}

pub open spec fn flip(r: Rank) -> Rank {
    match r {
        Rank::Less => Rank::Greater,
        Rank::Equal => Rank::Equal,
        Rank::Greater => Rank::Less,
    }
}

/// By file name without case, then by full path.
pub open spec fn name_rank(x: RowKey, y: RowKey) -> Rank {
    match text_rank(x.name, y.name) {
        Rank::Equal => text_rank(x.path, y.path),
        other => other,
    }
}

/// By value, with unknown values last in both directions.
pub open spec fn stat_rank(x: Option<u64>, y: Option<u64>, descending: bool) -> Rank {
    match (x, y) {
        (Some(a), Some(b)) => if a == b {
            Rank::Equal
        } else if (a < b) != descending {
            Rank::Less
        } else {
            Rank::Greater
        },
        (Some(_), None) => Rank::Less,
        (None, Some(_)) => Rank::Greater,
        (None, None) => Rank::Equal,
    }
}

/// How two files stand in the display order.
pub open spec fn display_rank(sort: MediaSort, descending: bool, x: RowKey, y: RowKey) -> Rank {
    if sort == MediaSort::Name {
        if descending {
            flip(name_rank(x, y))
        } else {
            name_rank(x, y)
        }
    } else {
        match stat_rank(x.stat, y.stat, descending) {
            Rank::Equal => name_rank(x, y),
            other => other,
        }
    }
}

/// Whether file `a` is shown before file `b`: by the display order, equals in the given order.
pub open spec fn shown_before(
    keys: Seq<RowKey>,
    sort: MediaSort,
    descending: bool,
    a: int,
    b: int,
) -> bool {
    let r = display_rank(sort, descending, keys[a], keys[b]);
    r == Rank::Less || (r == Rank::Equal && a < b)
}

/// Whether `order` lists the files `lo..hi` in display order.
pub open spec fn lists_in_order(
    order: Seq<usize>,
    keys: Seq<RowKey>,
    sort: MediaSort,
    descending: bool,
    lo: int,
    hi: int,
) -> bool {
    &&& order.len() == hi - lo
    &&& forall|i: int| 0 <= i < order.len() ==> lo <= #[trigger] order[i] < hi
    &&& forall|i: int, j: int|
        0 <= i < j < order.len() ==> shown_before(
            keys,
            sort,
            descending,
            #[trigger] order[i] as int,
            #[trigger] order[j] as int,
        )
}

/// Whether `order` is the display order of all files.
pub open spec fn is_display_order(
    order: Seq<usize>,
    keys: Seq<RowKey>,
    sort: MediaSort,
    descending: bool,
) -> bool {
    lists_in_order(order, keys, sort, descending, 0, keys.len() as int)
}

/// Two files always stand one way or the other, never both.
pub proof fn display_order_is_total(
    keys: Seq<RowKey>,
    sort: MediaSort,
    descending: bool,
    a: int,
    b: int,
)
    ensures
        a != b ==> (shown_before(keys, sort, descending, a, b) <==> !shown_before(
            keys,
            sort,
            descending,
            b,
            a,
        )),
        !shown_before(keys, sort, descending, a, a),
{
    let x = keys[a];
    let y = keys[b];
    text_order_is_total(x.name, y.name);
    text_order_is_total(y.name, x.name);
    text_order_is_total(x.path, y.path);
    text_order_is_total(y.path, x.path);
    text_order_is_total(x.name, x.name);
    text_order_is_total(x.path, x.path);
}

/// The display order is transitive.
pub proof fn display_order_is_transitive(
    keys: Seq<RowKey>,
    sort: MediaSort,
    descending: bool,
    a: int,
    b: int,
    c: int,
)
    requires
        shown_before(keys, sort, descending, a, b),
        shown_before(keys, sort, descending, b, c),
    ensures
        shown_before(keys, sort, descending, a, c),
{
    let x = keys[a];
    let y = keys[b];
    let z = keys[c];
    text_order_is_total(x.name, y.name);
    text_order_is_total(y.name, x.name);
    text_order_is_total(y.name, z.name);
    text_order_is_total(z.name, y.name);
    text_order_is_total(x.name, z.name);
    text_order_is_total(z.name, x.name);
    text_order_is_total(x.path, y.path);
    text_order_is_total(y.path, x.path);
    text_order_is_total(y.path, z.path);
    text_order_is_total(z.path, y.path);
    text_order_is_total(x.path, z.path);
    text_order_is_total(z.path, x.path);
    if text_rank(x.name, y.name) == Rank::Less && text_rank(y.name, z.name) == Rank::Less {
        text_order_is_transitive(x.name, y.name, z.name);
    }
    if text_rank(z.name, y.name) == Rank::Less && text_rank(y.name, x.name) == Rank::Less {
        text_order_is_transitive(z.name, y.name, x.name);
    }
    if text_rank(x.path, y.path) == Rank::Less && text_rank(y.path, z.path) == Rank::Less {
        text_order_is_transitive(x.path, y.path, z.path);
    }
    if text_rank(z.path, y.path) == Rank::Less && text_rank(y.path, x.path) == Rank::Less {
        text_order_is_transitive(z.path, y.path, x.path);
    }
}

/// The keys of one file, ready for comparison.
struct Row {
    name: Vec<char>,
    path: Vec<char>,
    stat: Option<u64>,
}

spec fn keys_of(rows: Seq<Row>) -> Seq<RowKey> {
    rows.map_values(|r: Row| RowKey { name: r.name@, path: r.path@, stat: r.stat })
}

/// Compares two values, unknown ones last in both directions.
pub fn compare_optional_stat(left: Option<u64>, right: Option<u64>, descending: bool) -> (r: Rank)
    ensures
        r == stat_rank(left, right, descending),
{
    match (left, right) {
        (Some(a), Some(b)) => if a == b {
            Rank::Equal
        } else if (a < b) != descending {
            Rank::Less
        } else {
            Rank::Greater
        },
        (Some(_), None) => Rank::Less,
        (None, Some(_)) => Rank::Greater,
        (None, None) => Rank::Equal,
    }
}

fn rank_rows(x: &Row, y: &Row, sort: MediaSort, descending: bool) -> (r: Rank)
    ensures
        r == display_rank(
            sort,
            descending,
            RowKey { name: x.name@, path: x.path@, stat: x.stat },
            RowKey { name: y.name@, path: y.path@, stat: y.stat },
        ),
{
    let by_name = matches!(sort, MediaSort::Name);
    if !by_name {
        match compare_optional_stat(x.stat, y.stat, descending) {
            Rank::Equal => {},
            other => return other,
        }
    }
    let names = match rank_chars(&x.name, &y.name) {
        Rank::Equal => rank_chars(&x.path, &y.path),
        other => other,
    };
    if by_name && descending {
        match names {
            Rank::Less => Rank::Greater,
            Rank::Equal => Rank::Equal,
            Rank::Greater => Rank::Less,
        }
    } else {
        names
    }
}

/// Merges two neighbouring runs; `None` when told to stop.
fn merge_runs<F: FnMut() -> bool>(
    rows: &Vec<Row>,
    sort: MediaSort,
    descending: bool,
    left: &Vec<usize>,
    right: &Vec<usize>,
    cancel: &mut CancelSignal<F>,
    Ghost(lo): Ghost<int>,
    Ghost(mid): Ghost<int>,
    Ghost(hi): Ghost<int>,
) -> (r: Option<Vec<usize>>)
    requires
        old(cancel).wf(),
        0 <= lo <= mid <= hi <= rows@.len(),
        lists_in_order(left@, keys_of(rows@), sort, descending, lo, mid),
        lists_in_order(right@, keys_of(rows@), sort, descending, mid, hi),
    ensures
        final(cancel).wf(),
        final(cancel).source() == old(cancel).source(),
        obeyed(old(cancel).answers(), final(cancel).answers(), r is None),
        r is Some ==> lists_in_order(r->0@, keys_of(rows@), sort, descending, lo, hi),
{
    let ghost before_run = cancel.answers();
    proof {
        lemma_nothing_asked(before_run);
    }
    let ghost keys = keys_of(rows@);
    let m: usize = left.len();
    let n: usize = right.len();
    let mut out: Vec<usize> = Vec::new();
    let mut li: usize = 0;
    let mut ri: usize = 0;
    while li < m || ri < n
        invariant
            cancel.wf(),
            cancel.source() == old(cancel).source(),
            before_run == old(cancel).answers(),
            obeyed(before_run, cancel.answers(), false),
            keys == keys_of(rows@),
            m == left@.len(),
            n == right@.len(),
            li <= m,
            ri <= n,
            0 <= lo <= mid <= hi <= rows@.len(),
            lists_in_order(left@, keys, sort, descending, lo, mid),
            lists_in_order(right@, keys, sort, descending, mid, hi),
            out@.len() == li + ri,
            forall|i: int| 0 <= i < out@.len() ==> lo <= #[trigger] out@[i] < hi,
            forall|i: int, j: int|
                0 <= i < j < out@.len() ==> shown_before(
                    keys,
                    sort,
                    descending,
                    #[trigger] out@[i] as int,
                    #[trigger] out@[j] as int,
                ),
            forall|i: int, j: int|
                0 <= i < out@.len() && li <= j < m ==> shown_before(
                    keys,
                    sort,
                    descending,
                    #[trigger] out@[i] as int,
                    #[trigger] left@[j] as int,
                ),
            forall|i: int, j: int|
                0 <= i < out@.len() && ri <= j < n ==> shown_before(
                    keys,
                    sort,
                    descending,
                    #[trigger] out@[i] as int,
                    #[trigger] right@[j] as int,
                ),
        decreases m - li + (n - ri),
    {
        let take_left = if li < m && ri < n {
            if out.len() % 1024 == 0 {
                let ghost asked = cancel.answers();
                let told = cancel.ask();
                proof {
                    lemma_one_more(before_run, asked, told);
                }
                if told {
                    return None;
                }
            }
            let a: usize = left[li];
            let b: usize = right[ri];
            let rank = rank_rows(&rows[a], &rows[b], sort, descending);
            assert(rank == display_rank(sort, descending, keys[a as int], keys[b as int]));
            proof {
                display_order_is_total(keys, sort, descending, a as int, b as int);
            }
            match rank {
                Rank::Greater => false,
                _ => true,
            }
        } else {
            li < m
        };
        let ghost before = out@;
        if take_left {
            let a: usize = left[li];
            proof {
                if ri < n {
                    let b = right@[ri as int];
                    assert(shown_before(keys, sort, descending, a as int, b as int));
                    assert forall|j: int| ri <= j < n implies shown_before(
                        keys,
                        sort,
                        descending,
                        a as int,
                        #[trigger] right@[j] as int,
                    ) by {
                        if j > ri {
                            display_order_is_transitive(
                                keys,
                                sort,
                                descending,
                                a as int,
                                b as int,
                                right@[j] as int,
                            );
                        }
                    }
                }
            }
            out.push(a);
            li += 1;
        } else {
            let b: usize = right[ri];
            proof {
                if li < m {
                    let a = left@[li as int];
                    assert(shown_before(keys, sort, descending, b as int, a as int));
                    assert forall|j: int| li <= j < m implies shown_before(
                        keys,
                        sort,
                        descending,
                        b as int,
                        #[trigger] left@[j] as int,
                    ) by {
                        if j > li {
                            display_order_is_transitive(
                                keys,
                                sort,
                                descending,
                                b as int,
                                a as int,
                                left@[j] as int,
                            );
                        }
                    }
                }
            }
            out.push(b);
            ri += 1;
        }
    }
    Some(out)
}

/// The files `lo..hi` in display order.
fn sort_run(rows: &Vec<Row>, sort: MediaSort, descending: bool, lo: usize, hi: usize) -> (r: Vec<
    usize,
>)
    requires
        lo <= hi <= rows@.len(),
    ensures
        lists_in_order(r@, keys_of(rows@), sort, descending, lo as int, hi as int),
    decreases hi - lo,
{
    let mut out: Vec<usize> = Vec::new();
    if lo == hi {
        return out;
    }
    if hi - lo == 1 {
        out.push(lo);
        return out;
    }
    let mid: usize = lo + (hi - lo) / 2;
    let left = sort_run(rows, sort, descending, lo, mid);
    let right = sort_run(rows, sort, descending, mid, hi);
    let never = || -> (b: bool)
        ensures
            !b,
        { false };
    let mut signal = CancelSignal::new(never);
    match merge_runs(
        rows,
        sort,
        descending,
        &left,
        &right,
        &mut signal,
        Ghost(lo as int),
        Ghost(mid as int),
        Ghost(hi as int),
    ) {
        Some(merged) => merged,
        None => {
            assert(signal.answers()[signal.answers().len() - 1]);
            out
        },
    }
}

/// Whether run `k` lists the files from `marks[k]` up to `marks[k + 1]`, for every run.
spec fn runs_cover(
    runs: Seq<Vec<usize>>,
    marks: Seq<int>,
    keys: Seq<RowKey>,
    sort: MediaSort,
    descending: bool,
    end: int,
) -> bool {
    &&& marks.len() == runs.len() + 1
    &&& marks[0] == 0
    &&& marks[runs.len() as int] == end
    &&& forall|k: int| 0 <= k < runs.len() ==> 0 <= #[trigger] marks[k] <= end
    &&& forall|k: int|
        0 <= k < runs.len() ==> lists_in_order(
            (#[trigger] runs[k])@,
            keys,
            sort,
            descending,
            marks[k],
            marks[k + 1],
        )
}

/// How often a sort of `n` files that nothing stops asks at least whether to stop: before each
/// file and before each run.
pub open spec fn sort_asks(n: nat) -> nat {
    n + (n + 2047) / 2048
}

/// The display order of all files, or `None` when told to stop. The name key of each file is made
/// once, runs of bounded length are sorted, and the signal to stop is read before each file, each
/// run and each merge, and while merging after every so many files.
pub fn sorted_indices_cancellable<F: FnMut() -> bool>(
    style: PathStyle,
    files: &Vec<String>,
    sort: MediaSort,
    descending: bool,
    stats: &Vec<FileStat>,
    is_cancelled: &mut CancelSignal<F>,
) -> (r: Option<Vec<usize>>)
    requires
        old(is_cancelled).wf(),
        stats@.len() == files@.len(),
    ensures
        final(is_cancelled).wf(),
        final(is_cancelled).source() == old(is_cancelled).source(),
        obeyed(old(is_cancelled).answers(), final(is_cancelled).answers(), r is None),
        r is Some ==> {
            &&& is_display_order(r->0@, row_keys(style, files@, stats@, sort), sort, descending)
            &&& final(is_cancelled).answers().len() >= old(is_cancelled).answers().len()
                + sort_asks(files@.len())
        },
        files@.len() == 0 ==> r is Some && r->0@.len() == 0 && final(is_cancelled).answers() == old(
            is_cancelled,
        ).answers(),
{
    let ghost told_before = is_cancelled.answers();
    proof {
        lemma_nothing_asked(told_before);
    }
    let n: usize = files.len();
    let ghost all = row_keys(style, files@, stats@, sort);
    if n == 0 {
        return Some(Vec::new());
    }
    let mut rows: Vec<Row> = Vec::new();
    let mut i: usize = 0;
    while i < n
        invariant
            i <= n,
            n == files@.len(),
            n == stats@.len(),
            n > 0,
            is_cancelled.wf(),
            is_cancelled.source() == old(is_cancelled).source(),
            told_before == old(is_cancelled).answers(),
            obeyed(told_before, is_cancelled.answers(), false),
            is_cancelled.answers().len() == told_before.len() + i,
            all == row_keys(style, files@, stats@, sort),
            keys_of(rows@) == all.take(i as int),
            rows@.len() == i,
        decreases n - i,
    {
        let ghost asked = is_cancelled.answers();
        let told = is_cancelled.ask();
        proof {
            lemma_one_more(told_before, asked, told);
        }
        if told {
            return None;
        }
        let path = &files[i];
        let name = match file_name(style, path.as_str()) {
            Some(name) => to_ascii_lowercase(name.as_str()),
            None => to_ascii_lowercase(path.as_str()),
        };
        let stat = match sort {
            MediaSort::Name => None,
            MediaSort::Modified => stats[i].mtime(),
            MediaSort::Size => stats[i].size(),
            MediaSort::Created => stats[i].created(),
        };
        let ghost before = keys_of(rows@);
        let row = Row { name: chars_of(name.as_str()), path: chars_of(path.as_str()), stat };
        rows.push(row);
        proof {
            let k = RowKey { name: row.name@, path: row.path@, stat: row.stat };
            assert(k == all[i as int]);
            assert(keys_of(rows@) =~= before.push(k));
            assert(all.take(i + 1) =~= all.take(i as int).push(all[i as int]));
        }
        i += 1;
    }
    assert(all.take(n as int) =~= all);
    let mut runs: Vec<Vec<usize>> = Vec::new();
    let ghost mut marks: Seq<int> = seq![0int];
    let mut start: usize = 0;
    while start < n
        invariant
            start <= n,
            n == rows@.len(),
            n == files@.len(),
            n > 0,
            is_cancelled.wf(),
            is_cancelled.source() == old(is_cancelled).source(),
            told_before == old(is_cancelled).answers(),
            obeyed(told_before, is_cancelled.answers(), false),
            is_cancelled.answers().len() == told_before.len() + n + (start + 2047) / 2048,
            start % 2048 == 0 || start == n,
            keys_of(rows@) == all,
            runs_cover(runs@, marks, all, sort, descending, start as int),
        decreases n - start,
    {
        let ghost asked = is_cancelled.answers();
        let told = is_cancelled.ask();
        proof {
            lemma_one_more(told_before, asked, told);
        }
        if told {
            return None;
        }
        let end: usize = if n - start > 2048 {
            start + 2048
        } else {
            n
        };
        let run = sort_run(&rows, sort, descending, start, end);
        let ghost old_runs = runs@;
        let ghost old_marks = marks;
        runs.push(run);
        proof {
            marks = marks.push(end as int);
            assert forall|k: int| 0 <= k < runs@.len() implies lists_in_order(
                (#[trigger] runs@[k])@,
                all,
                sort,
                descending,
                marks[k],
                marks[k + 1],
            ) by {
                if k < old_runs.len() {
                    assert(runs@[k] == old_runs[k]);
                }
            }
        }
        start = end;
    }
    while runs.len() > 1
        invariant
            n == rows@.len(),
            n == files@.len(),
            n > 0,
            is_cancelled.wf(),
            is_cancelled.source() == old(is_cancelled).source(),
            told_before == old(is_cancelled).answers(),
            obeyed(told_before, is_cancelled.answers(), false),
            is_cancelled.answers().len() >= told_before.len() + sort_asks(n as nat),
            keys_of(rows@) == all,
            runs_cover(runs@, marks, all, sort, descending, n as int),
        decreases runs@.len(),
    {
        let count: usize = runs.len();
        let mut merged: Vec<Vec<usize>> = Vec::new();
        let ghost mut new_marks: Seq<int> = seq![0int];
        let mut k: usize = 0;
        while k < count
            invariant
                k <= count,
                count == runs@.len(),
                k % 2 == 0 || k == count,
                2 * merged@.len() == k || (k == count && 2 * merged@.len() == k + 1),
                n == rows@.len(),
                n == files@.len(),
                n > 0,
                is_cancelled.wf(),
                is_cancelled.source() == old(is_cancelled).source(),
                told_before == old(is_cancelled).answers(),
                obeyed(told_before, is_cancelled.answers(), false),
                is_cancelled.answers().len() >= told_before.len() + sort_asks(n as nat),
                keys_of(rows@) == all,
                runs_cover(runs@, marks, all, sort, descending, n as int),
                runs_cover(merged@, new_marks, all, sort, descending, marks[k as int]),
            decreases count - k,
        {
            let ghost asked = is_cancelled.answers();
            let told = is_cancelled.ask();
            proof {
                lemma_one_more(told_before, asked, told);
            }
            if told {
                return None;
            }
            let ghost old_merged = merged@;
            let ghost old_marks = new_marks;
            assert(lists_in_order(
                runs@[k as int]@,
                all,
                sort,
                descending,
                marks[k as int],
                marks[k + 1],
            ));
            assert(marks[k as int] <= marks[k + 1]);
            if k + 1 == count {
                let last = copy_run(&runs[k]);
                merged.push(last);
                proof {
                    new_marks = new_marks.push(marks[k + 1]);
                }
                k = count;
            } else {
                assert(lists_in_order(
                    runs@[k + 1]@,
                    all,
                    sort,
                    descending,
                    marks[k + 1],
                    marks[k + 2],
                ));
                assert(0 <= marks[k as int]);
                assert(marks[k + 2] <= n) by {
                    if k + 2 < count {
                        assert(0 <= marks[k + 2] <= n);
                    }
                }
                let ghost asked_here = is_cancelled.answers();
                let joined = merge_runs(
                    &rows,
                    sort,
                    descending,
                    &runs[k],
                    &runs[k + 1],
                    is_cancelled,
                    Ghost(marks[k as int]),
                    Ghost(marks[k + 1]),
                    Ghost(marks[k + 2]),
                );
                proof {
                    lemma_obeyed_further(
                        told_before,
                        asked_here,
                        is_cancelled.answers(),
                        joined is None,
                    );
                }
                match joined {
                    Some(run) => merged.push(run),
                    None => return None,
                }
                proof {
                    new_marks = new_marks.push(marks[k + 2]);
                }
                k += 2;
            }
            proof {
                assert forall|j: int| 0 <= j < merged@.len() implies lists_in_order(
                    (#[trigger] merged@[j])@,
                    all,
                    sort,
                    descending,
                    new_marks[j],
                    new_marks[j + 1],
                ) by {
                    if j < old_merged.len() {
                        assert(merged@[j] == old_merged[j]);
                    }
                }
                assert forall|j: int| 0 <= j < merged@.len() implies 0 <= #[trigger] new_marks[j]
                    <= marks[k as int] by {
                    if j < old_merged.len() {
                        assert(new_marks[j] == old_marks[j]);
                    }
                }
            }
        }
        runs = merged;
        proof {
            marks = new_marks;
        }
    }
    match runs.pop() {
        Some(order) => Some(order),
        None => Some(Vec::new()),
    }
}

fn copy_run(run: &Vec<usize>) -> (r: Vec<usize>)
    ensures
        r@ == run@,
{
    let mut out: Vec<usize> = Vec::new();
    let n: usize = run.len();
    let mut i: usize = 0;
    while i < n
        invariant
            i <= n,
            n == run@.len(),
            out@ == run@.take(i as int),
        decreases n - i,
    {
        out.push(run[i]);
        assert(run@.take(i + 1) =~= run@.take(i as int).push(run@[i as int]));
        i += 1;
    }
    assert(run@.take(n as int) =~= run@);
    out
}

/// The display order of all files: by name without case and then by path, or by the metadata
/// value with the name order among equals.
pub fn sorted_indices(
    style: PathStyle,
    files: &Vec<String>,
    sort: MediaSort,
    descending: bool,
    stats: &Vec<FileStat>,
) -> (r: Vec<usize>)
    requires
        stats@.len() == files@.len(),
    ensures
        is_display_order(r@, row_keys(style, files@, stats@, sort), sort, descending),
{
    let never = || -> (b: bool)
        ensures
            !b,
        { false };
    let mut signal = CancelSignal::new(never);
    match sorted_indices_cancellable(style, files, sort, descending, stats, &mut signal) {
        Some(order) => order,
        None => {
            assert(signal.answers()[signal.answers().len() - 1]);
            Vec::new()
        },
    }
}

/// A display order lists every file.
proof fn lemma_lists_every_file(
    order: Seq<usize>,
    keys: Seq<RowKey>,
    sort: MediaSort,
    descending: bool,
    f: int,
)
    requires
        is_display_order(order, keys, sort, descending),
        0 <= f < keys.len(),
    ensures
        exists|i: int| 0 <= i < order.len() && #[trigger] order[i] == f,
{
    let ints = order.map_values(|x: usize| x as int);
    assert(ints.no_duplicates()) by {
        assert forall|i: int, j: int| 0 <= i < j < ints.len() implies ints[i] != ints[j] by {
            assert(shown_before(keys, sort, descending, order[i] as int, order[j] as int));
            display_order_is_total(keys, sort, descending, order[i] as int, order[i] as int);
        }
    }
    ints.unique_seq_to_set();
    let range = vstd::set_lib::set_int_range(0, keys.len() as int);
    vstd::set_lib::lemma_int_range(0, keys.len() as int);
    assert(ints.to_set().subset_of(range)) by {
        assert forall|x: int| ints.to_set().contains(x) implies range.contains(x) by {
            let i = choose|i: int| 0 <= i < ints.len() && ints[i] == x;
            assert(order[i] == x);
        }
    }
    vstd::set_lib::lemma_subset_equality(ints.to_set(), range);
    assert(ints.to_set().contains(f));
    let i = choose|i: int| 0 <= i < ints.len() && ints[i] == f;
    assert(order[i] == f);
}

/// The display order is one and the same on every run: two orders of the same files are equal.
pub proof fn display_order_is_deterministic(
    first: Seq<usize>,
    second: Seq<usize>,
    keys: Seq<RowKey>,
    sort: MediaSort,
    descending: bool,
)
    requires
        is_display_order(first, keys, sort, descending),
        is_display_order(second, keys, sort, descending),
    ensures
        first == second,
{
    assert forall|i: int| 0 <= i < first.len() implies first[i] == second[i] by {
        lemma_same_prefix(first, second, keys, sort, descending, i);
    }
    assert(first =~= second);
}

proof fn lemma_same_prefix(
    first: Seq<usize>,
    second: Seq<usize>,
    keys: Seq<RowKey>,
    sort: MediaSort,
    descending: bool,
    i: int,
)
    requires
        is_display_order(first, keys, sort, descending),
        is_display_order(second, keys, sort, descending),
        0 <= i < first.len(),
    ensures
        forall|k: int| 0 <= k <= i ==> #[trigger] first[k] == second[k],
    decreases i,
{
    if i > 0 {
        lemma_same_prefix(first, second, keys, sort, descending, i - 1);
    }
    let a = first[i];
    let b = second[i];
    if a != b {
        lemma_lists_every_file(second, keys, sort, descending, a as int);
        lemma_lists_every_file(first, keys, sort, descending, b as int);
        let j = choose|j: int| 0 <= j < second.len() && #[trigger] second[j] == a;
        let k = choose|k: int| 0 <= k < first.len() && #[trigger] first[k] == b;
        if j < i {
            assert(first[j] == a);
            assert(shown_before(keys, sort, descending, first[j] as int, first[i] as int));
            display_order_is_total(keys, sort, descending, a as int, a as int);
        }
        if k < i {
            assert(second[k] == b);
            assert(shown_before(keys, sort, descending, second[k] as int, second[i] as int));
            display_order_is_total(keys, sort, descending, b as int, b as int);
        }
        assert(shown_before(keys, sort, descending, second[i] as int, second[j] as int));
        assert(shown_before(keys, sort, descending, first[i] as int, first[k] as int));
        display_order_is_total(keys, sort, descending, a as int, b as int);
    }
}

/// Unknown metadata is shown last in both directions.
pub proof fn unknown_values_come_last(
    keys: Seq<RowKey>,
    sort: MediaSort,
    descending: bool,
    known: int,
    unknown: int,
)
    requires
        sort != MediaSort::Name,
        keys[known].stat is Some,
        keys[unknown].stat is None,
    ensures
        shown_before(keys, sort, descending, known, unknown),
        !shown_before(keys, sort, descending, unknown, known),
{
}

/// The labels and paths of breadcrumbs.
pub open spec fn pairs(v: Seq<(String, String)>) -> Seq<(Seq<char>, Seq<char>)> {
    v.map_values(|p: (String, String)| (p.0@, p.1@))
}

/// The path of `segment` inside `acc`.
pub open spec fn deeper(acc: Seq<char>, segment: Seq<char>) -> Seq<char> {
    if ends(acc, "/"@) {
        acc + segment
    } else {
        acc + "/"@ + segment
    }
}

/// One crumb for each segment that is not empty, each inside the one before.
pub open spec fn crumbs_below(acc: Seq<char>, segments: Seq<Seq<char>>) -> Seq<
    (Seq<char>, Seq<char>),
>
    decreases segments.len(),
{
    if segments.len() == 0 {
        Seq::empty()
    } else if segments[0].len() == 0 {
        crumbs_below(acc, segments.drop_first())
    } else {
        let next = deeper(acc, segments[0]);
        seq![(segments[0], next)] + crumbs_below(next, segments.drop_first())
    }
}

/// `s` without the slashes at its end.
pub open spec fn without_end_slash(s: Seq<char>) -> Seq<char>
    decreases s.len(),
{
    if s.len() > 0 && s.last() == '/' {
        without_end_slash(s.drop_last())
    } else {
        s
    }
}

/// The crumbs of a folder, root first. A share is one crumb, since a bare server cannot be
/// entered.
pub open spec fn crumbs_of(folder: Seq<char>) -> Seq<(Seq<char>, Seq<char>)> {
    let t = without_end_slash(replaced(trimmed(folder), '\\', '/'));
    if t.len() == 0 {
        Seq::empty()
    } else if begins(t, "//"@) {
        let unc = t.skip(2);
        let parts = split(unc, '/');
        if parts.len() < 2 {
            seq![("\\\\"@ + unc, t)]
        } else {
            let anchor = "//"@ + parts[0] + "/"@ + parts[1];
            seq![("\\\\"@ + parts[0] + "\\"@ + parts[1], anchor)] + crumbs_below(
                anchor,
                parts.skip(2),
            )
        }
    } else {
        let parts = split(t, '/');
        if parts[0].len() == 0 {
            seq![("/"@, "/"@)] + crumbs_below(Seq::empty(), parts.skip(1))
        } else {
            seq![(parts[0], parts[0] + "/"@)] + crumbs_below(parts[0], parts.skip(1))
        }
    }
}

fn trim_end_slash(s: &str) -> (r: String)
    ensures
        r@ == without_end_slash(s@),
{
    let cs = chars_of(s);
    let mut n: usize = cs.len();
    assert(cs@.subrange(0, n as int) =~= cs@);
    while n > 0 && cs[n - 1] == '/'
        invariant
            n <= cs@.len(),
            without_end_slash(s@) == without_end_slash(cs@.subrange(0, n as int)),
        decreases n,
    {
        assert(cs@.subrange(0, n as int).drop_last() =~= cs@.subrange(0, n - 1));
        n -= 1;
    }
    string_of(slice_of(&cs, 0, n))
}

/// Adds the crumbs of the segments from `from` on.
fn push_crumbs(
    out: &mut Vec<(String, String)>,
    anchor: String,
    segments: &Vec<String>,
    from: usize,
)
    requires
        from <= segments@.len(),
    ensures
        pairs(final(out)@) == pairs(old(out)@) + crumbs_below(
            anchor@,
            texts(segments@).skip(from as int),
        ),
{
    let mut acc = anchor;
    let n: usize = segments.len();
    let mut i: usize = from;
    let ghost goal = pairs(old(out)@) + crumbs_below(anchor@, texts(segments@).skip(from as int));
    while i < n
        invariant
            from <= i <= n,
            n == segments@.len(),
            goal == pairs(out@) + crumbs_below(acc@, texts(segments@).skip(i as int)),
        decreases n - i,
    {
        let segment = &segments[i];
        let ghost rest = texts(segments@).skip(i as int);
        let ghost before = pairs(out@);
        let ghost acc0 = acc@;
        assert(rest[0] == segment@);
        assert(rest.drop_first() =~= texts(segments@).skip(i + 1));
        if !segment.as_str().is_empty() {
            if !ends_with(acc.as_str(), "/") {
                acc.append("/");
            }
            acc.append(segment.as_str());
            out.push((segment.clone(), acc.clone()));
            proof {
                assert(acc@ == deeper(acc0, segment@));
                assert(pairs(out@) =~= before.push((segment@, acc@)));
                assert(pairs(out@) + crumbs_below(acc@, rest.drop_first()) =~= before
                    + crumbs_below(acc0, rest));
            }
        }
        i += 1;
    }
    assert(texts(segments@).skip(n as int) =~= Seq::<Seq<char>>::empty());
    assert(pairs(out@) =~= goal);
}

/// Splits a folder path into clickable segments, each with the path up to it.
pub fn breadcrumbs(folder: &str) -> (r: Vec<(String, String)>)
    ensures
        pairs(r@) == crumbs_of(folder@),
{
    let tidy = trim(folder);
    let slashed = replace_char(tidy.as_str(), '\\', '/');
    let t = trim_end_slash(slashed.as_str());
    let mut out: Vec<(String, String)> = Vec::new();
    if t.as_str().is_empty() {
        assert(pairs(out@) =~= crumbs_of(folder@));
        return out;
    }
    if starts_with(t.as_str(), "//") {
        let cs = chars_of(t.as_str());
        proof {
            reveal_strlit("//");
            assert(cs@.subrange(2, cs@.len() as int) =~= t@.skip(2));
        }
        let unc = string_of(slice_of(&cs, 2, cs.len()));
        let parts = split_char(unc.as_str(), '/');
        assert(texts(parts@).len() == parts@.len());
        if parts.len() < 2 {
            out.push((cat("\\\\", unc.as_str()), t));
            assert(pairs(out@) =~= crumbs_of(folder@));
            return out;
        }
        assert(texts(parts@)[0] == parts@[0]@ && texts(parts@)[1] == parts@[1]@);
        let mut acc = cat3("//", parts[0].as_str(), "/");
        acc.append(parts[1].as_str());
        let mut label = cat3("\\\\", parts[0].as_str(), "\\");
        label.append(parts[1].as_str());
        out.push((label, acc.clone()));
        assert(pairs(out@) =~= seq![(label@, acc@)]);
        push_crumbs(&mut out, acc, &parts, 2);
    } else {
        let parts = split_char(t.as_str(), '/');
        proof {
            crate::text::lemma_split_first(t@, '/');
        }
        assert(texts(parts@).len() == parts@.len());
        assert(texts(parts@)[0] == parts@[0]@);
        if parts[0].as_str().is_empty() {
            out.push(("/".to_owned(), "/".to_owned()));
            assert(pairs(out@) =~= seq![("/"@, "/"@)]);
            push_crumbs(&mut out, String::new(), &parts, 1);
        } else {
            let first = parts[0].clone();
            let path = cat(first.as_str(), "/");
            out.push((first.clone(), path));
            assert(pairs(out@) =~= seq![(first@, first@ + "/"@)]);
            push_crumbs(&mut out, first, &parts, 1);
        }
    }
    out
}

/// Whether `s`, in lower case, ends in one of the video extensions.
pub open spec fn has_video_extension(s: Seq<char>) -> bool {
    let l = ascii_lower(s);
    ends(l, ".mp4"@) || ends(l, ".mov"@) || ends(l, ".mkv"@) || ends(l, ".avi"@) || ends(
        l,
        ".webm"@,
    ) || ends(l, ".m4v"@) || ends(l, ".wmv"@) || ends(l, ".flv"@) || ends(l, ".mpg"@) || ends(
        l,
        ".mpeg"@,
    ) || ends(l, ".ts"@)
}

/// Whether the path has a video extension.
pub fn is_video_path(path: &str) -> (r: bool)
    ensures
        r == has_video_extension(path@),
{
    let lower = to_ascii_lowercase(path);
    let l = lower.as_str();
    ends_with(l, ".mp4") || ends_with(l, ".mov") || ends_with(l, ".mkv") || ends_with(l, ".avi")
        || ends_with(l, ".webm") || ends_with(l, ".m4v") || ends_with(l, ".wmv") || ends_with(
        l,
        ".flv",
    ) || ends_with(l, ".mpg") || ends_with(l, ".mpeg") || ends_with(l, ".ts")
}

/// How many rows a grid of `columns` columns needs.
pub open spec fn rows_needed(item_count: nat, columns: nat) -> nat {
    (item_count + columns - 1) as nat / columns
}

pub fn grid_rows(item_count: usize, columns: usize) -> (r: usize)
    requires
        columns > 0,
    ensures
        r == rows_needed(item_count as nat, columns as nat),
{
    let whole: usize = item_count / columns;
    let rest: usize = item_count % columns;
    proof {
        let (n, c, q, m) = (item_count as int, columns as int, whole as int, rest as int);
        vstd::arithmetic::div_mod::lemma_fundamental_div_mod(n, c);
        if m == 0 {
            vstd::arithmetic::div_mod::lemma_fundamental_div_mod_converse(n + c - 1, c, q, c - 1);
        } else {
            assert(c * (q + 1) == c * q + c) by (nonlinear_arith);
            vstd::arithmetic::div_mod::lemma_fundamental_div_mod_converse(
                n + c - 1,
                c,
                q + 1,
                m - 1,
            );
            assert(q + 1 <= n) by (nonlinear_arith)
                requires
                    n == c * q + m,
                    c >= 1,
                    m >= 1,
                    q >= 0,
            ;
        }
    }
    if rest == 0 {
        whole
    } else {
        whole + 1
    }
}

/// The tiles from row `first_row` through row `last_row`, of `item_count` in all.
pub fn row_span(first_row: usize, last_row: usize, columns: usize, item_count: usize) -> (r: (
    usize,
    usize,
))
    requires
        last_row < usize::MAX,
    ensures
        r.0 == clamp_int(first_row * columns, 0, item_count as int),
        r.1 == clamp_int((last_row + 1) * columns, 0, item_count as int),
{
    (capped_product(first_row, columns, item_count), capped_product(last_row + 1, columns, item_count))
}

fn capped_product(a: usize, b: usize, cap: usize) -> (r: usize)
    ensures
        r == clamp_int(a * b, 0, cap as int),
{
    assert(0 <= a * b) by (nonlinear_arith)
        requires
            a >= 0,
            b >= 0,
    ;
    match a.checked_mul(b) {
        Some(v) => if v <= cap {
            v
        } else {
            cap
        },
        None => cap,
    }
}

/// The part of the explorer's state that holds no measures: modes, sort, cursors and switches.
#[derive(Debug)]
pub struct MediaExplorerState {
    pub view_mode: MediaViewMode,
    /// Whether file names are painted below the tiles.
    pub show_names: bool,
    pub sort: MediaSort,
    pub sort_desc: bool,
    /// Grid cursor in display order.
    pub cursor: Option<usize>,
    /// Chrome hidden for immersive browsing.
    pub chrome_hidden: bool,
    pub show_favorites: bool,
    pub show_settings: bool,
    pub settings_category: u8,
    /// Distance-reading mode of the settings, never persisted.
    pub settings_couch_fullscreen: bool,
    /// Fullscreen state to restore when that mode exits.
    pub settings_couch_prior_fullscreen: bool,
    pub video_loop: bool,
    pub folder_location_input: String,
    pub folder_navigator_location: String,
    pub show_folder_navigator: bool,
    pub folder_cursor: Option<usize>,
    pub folder_scroll_to_cursor: bool,
    pub stats_loading: bool,
    pub settings_dirty: bool,
    pub sel_anchor_display: Option<usize>,
    /// Column count that the grid was last drawn with.
    pub last_grid_columns: usize,
}

/// The settings that the state is loaded from, as stored.
#[derive(Debug)]
pub struct LayoutSettings {
    pub version: Option<String>,
    pub view_mode: Option<String>,
    pub show_names: Option<String>,
    pub video_loop: Option<String>,
    pub sort: Option<String>,
    pub sort_desc: Option<String>,
}

/// However often the distance-reading mode is entered, leaving it restores the fullscreen state from
/// before it was first entered, once: a second exit restores nothing. Nothing else changes.
pub proof fn couch_mode_restores_fullscreen(state: MediaExplorerState)
    requires
        !state.settings_couch_fullscreen,
    ensures
        ({
            let inside = state.couch_entered();
            &&& inside.couch_entered() == inside
            &&& inside.couch_restores() == Some(state.chrome_hidden)
            &&& inside.couch_left().couch_restores() is None
            &&& inside.couch_left() == (MediaExplorerState {
                settings_couch_prior_fullscreen: state.chrome_hidden,
                ..state
            })
        }),
{
}

pub const MEDIA_LAYOUT_SETTINGS_VERSION: u32 = 3;

/// The stored layout version; settings without a readable one are of the first.
pub open spec fn stored_version(raw: Option<Seq<char>>) -> nat {
    match raw {
        Some(text) => match crate::number::unsigned_value(text, u32::MAX as nat) {
            Some(v) => v,
            None => 1,
        },
        None => 1,
    }
}

impl MediaExplorerState {
    /// The switches that settings decide are as given, and everything else is at its default.
    pub open spec fn starts_with(
        &self,
        view_mode: MediaViewMode,
        show_names: bool,
        video_loop: bool,
        sort: MediaSort,
        sort_desc: bool,
    ) -> bool {
        &&& self.view_mode == view_mode
        &&& self.show_names == show_names
        &&& self.video_loop == video_loop
        &&& self.sort == sort
        &&& self.sort_desc == sort_desc
        &&& self.cursor is None
        &&& !self.chrome_hidden
        &&& !self.show_favorites
        &&& !self.show_settings
        &&& self.settings_category == 0
        &&& !self.settings_couch_fullscreen
        &&& !self.settings_couch_prior_fullscreen
        &&& self.folder_location_input@.len() == 0
        &&& self.folder_navigator_location@.len() == 0
        &&& !self.show_folder_navigator
        &&& self.folder_cursor is None
        &&& !self.folder_scroll_to_cursor
        &&& !self.stats_loading
        &&& !self.settings_dirty
        &&& self.sel_anchor_display is None
        &&& self.last_grid_columns == 1
    }

    /// The state after the distance-reading mode was entered.
    pub open spec fn couch_entered(&self) -> MediaExplorerState {
        if self.settings_couch_fullscreen {
            *self
        } else {
            MediaExplorerState {
                settings_couch_prior_fullscreen: self.chrome_hidden,
                settings_couch_fullscreen: true,
                ..*self
            }
        }
    }

    /// The state after the distance-reading mode was left.
    pub open spec fn couch_left(&self) -> MediaExplorerState {
        MediaExplorerState { settings_couch_fullscreen: false, ..*self }
    }

    /// The fullscreen state that leaving the distance-reading mode restores.
    pub open spec fn couch_restores(&self) -> Option<bool> {
        if self.settings_couch_fullscreen {
            Some(self.settings_couch_prior_fullscreen)
        } else {
            None
        }
    }

    /// Enters the distance-reading mode and remembers the fullscreen state.
    pub fn enter_settings_couch(&mut self)
        ensures
            *final(self) == old(self).couch_entered(),
    {
        if !self.settings_couch_fullscreen {
            self.settings_couch_prior_fullscreen = self.chrome_hidden;
            self.settings_couch_fullscreen = true;
        }
    }

    /// Leaves the distance-reading mode and returns the fullscreen state to restore. Repeated
    /// exits change nothing.
    pub fn exit_settings_couch(&mut self) -> (r: Option<bool>)
        ensures
            r == old(self).couch_restores(),
            *final(self) == old(self).couch_left(),
    {
        if !self.settings_couch_fullscreen {
            return None;
        }
        self.settings_couch_fullscreen = false;
        Some(self.settings_couch_prior_fullscreen)
    }

    /// Loads the persisted switches; missing or unknown values keep the defaults.
    pub fn load(settings: &LayoutSettings) -> (r: Self)
        ensures
            r.starts_with(
                match settings.view_mode {
                    Some(raw) => if raw@ == "full_grid"@ {
                        MediaViewMode::FullGrid
                    } else {
                        MediaViewMode::TwoPanel
                    },
                    None => MediaViewMode::TwoPanel,
                },
                settings.show_names is Some && settings.show_names->0@ == "1"@,
                settings.video_loop is None || settings.video_loop->0@ != "0"@,
                match settings.sort {
                    Some(raw) => sort_named(raw@),
                    None => MediaSort::Name,
                },
                settings.sort_desc is Some && settings.sort_desc->0@ == "1"@,
            ),
    {
        let mut state = MediaExplorerState::default();
        if let Some(raw) = &settings.view_mode {
            state.view_mode = MediaViewMode::from_setting(raw.as_str());
        }
        state.show_names = match &settings.show_names {
            Some(raw) => str_eq(raw.as_str(), "1"),
            None => false,
        };
        state.video_loop = match &settings.video_loop {
            Some(raw) => !str_eq(raw.as_str(), "0"),
            None => true,
        };
        if let Some(raw) = &settings.sort {
            state.sort = MediaSort::from_setting(raw.as_str());
        }
        state.sort_desc = match &settings.sort_desc {
            Some(raw) => str_eq(raw.as_str(), "1"),
            None => false,
        };
        state
    }

    /// The persisted switches as settings, for `load` to read.
    pub fn save(&self) -> (r: LayoutSettings)
        ensures
            r.version is Some && r.version->0@ == "3"@,
            r.view_mode is Some && r.view_mode->0@ == self.view_mode.word(),
            r.show_names is Some && r.show_names->0@ == flag_text(self.show_names),
            r.video_loop is Some && r.video_loop->0@ == flag_text(self.video_loop),
            r.sort is Some && r.sort->0@ == self.sort.word(),
            r.sort_desc is Some && r.sort_desc->0@ == flag_text(self.sort_desc),
    {
        LayoutSettings {
            version: Some("3".to_owned()),
            view_mode: Some(self.view_mode.to_setting().to_owned()),
            show_names: Some(flag(self.show_names)),
            video_loop: Some(flag(self.video_loop)),
            sort: Some(self.sort.to_setting().to_owned()),
            sort_desc: Some(flag(self.sort_desc)),
        }
    }
}

impl Default for MediaExplorerState {
    fn default() -> (r: Self)
        ensures
            r.starts_with(MediaViewMode::TwoPanel, false, true, MediaSort::Name, false),
    {
        MediaExplorerState {
            view_mode: MediaViewMode::TwoPanel,
            show_names: false,
            sort: MediaSort::Name,
            sort_desc: false,
            cursor: None,
            chrome_hidden: false,
            show_favorites: false,
            show_settings: false,
            settings_category: 0,
            settings_couch_fullscreen: false,
            settings_couch_prior_fullscreen: false,
            video_loop: true,
            folder_location_input: String::new(),
            folder_navigator_location: String::new(),
            show_folder_navigator: false,
            folder_cursor: None,
            folder_scroll_to_cursor: false,
            stats_loading: false,
            settings_dirty: false,
            sel_anchor_display: None,
            last_grid_columns: 1,
        }
    }
}

/// How a switch is written in a setting.
pub open spec fn flag_text(b: bool) -> Seq<char> {
    if b {
        "1"@
    } else {
        "0"@
    }
}

fn flag(b: bool) -> (r: String)
    ensures
        r@ == flag_text(b),
{
    if b {
        "1".to_owned()
    } else {
        "0".to_owned()
    }
}

/// Whether stored settings are of an older layout, and are to be written in the current one.
pub fn needs_layout_migration(version: &Option<String>) -> (r: bool)
    ensures
        r == (stored_version(crate::text::opt_text(*version)) < MEDIA_LAYOUT_SETTINGS_VERSION),
{
    stored_layout_version(version) < MEDIA_LAYOUT_SETTINGS_VERSION
}

pub fn stored_layout_version(version: &Option<String>) -> (r: u32)
    ensures
        r == stored_version(crate::text::opt_text(*version)),
{
    match version {
        Some(raw) => match crate::number::parse_unsigned(raw.as_str(), 0xffff_ffff) {
            Some(v) => v as u32,
            None => 1,
        },
        None => 1,
    }
}

/// What `save` writes, `load` reads back: view mode, captions, looping and sort survive.
pub proof fn saved_switches_load_again(b: bool, sort: MediaSort, mode: MediaViewMode)
    ensures
        (flag_text(b) == "1"@) == b,
        (flag_text(b) != "0"@) == b,
        sort_named(sort.word()) == sort,
        (mode.word() == "full_grid"@) == (mode == MediaViewMode::FullGrid),
{
    settings_round_trip(sort, mode);
    reveal_strlit("0");
    reveal_strlit("1");
    assert("0"@[0] == '0' && "1"@[0] == '1');
}

} // verus!
