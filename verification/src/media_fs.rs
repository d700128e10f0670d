//! The rules of renaming, creating and moving files.

use crate::number::{decimal, decimal_text};
use crate::paths::{
    components, components_of, extension, extension_of, file_name, file_name_of,
    join_path, joined_path, name_stem, parent, parent_of, stem_of_name, PathStyle,
};
use crate::text::{
    ascii_lower, cat, cat3, chars_of, eq_ignore_ascii_case, split, split_char, str_eq,
    texts, trim, trimmed,
};
use vstd::prelude::*;

verus! {

/// How many bytes a character takes in a stored name.
pub open spec fn char_bytes(c: char) -> nat {
    let n = c as int;
    if n < 0x80 {
        1
    } else if n < 0x800 {
        2
    } else if n < 0x1_0000 {
        3
    } else {
        4
    }
}

/// How many bytes a text takes in a stored name.
pub open spec fn text_bytes(s: Seq<char>) -> nat
    decreases s.len(),
{
    if s.len() == 0 {
        0
    } else {
        text_bytes(s.drop_last()) + char_bytes(s.last())
    }
}

/// The longest name, in bytes.
pub const NAME_LIMIT: usize = 240;

fn width(c: char) -> (r: usize)
    ensures
        r == char_bytes(c),
{
    let code: u32 = c as u32;
    if code < 0x80 {
        1
    } else if code < 0x800 {
        2
    } else if code < 0x1_0000 {
        3
    } else {
        4
    }
}

fn exceeds_limit(cs: &Vec<char>) -> (r: bool)
    ensures
        r == (text_bytes(cs@) > NAME_LIMIT),
{
    let n: usize = cs.len();
    let mut total: usize = 0;
    let mut i: usize = 0;
    assert(cs@.take(0) =~= Seq::<char>::empty());
    while i < n
        invariant
            i <= n,
            n == cs@.len(),
            total == text_bytes(cs@.take(i as int)),
            total <= NAME_LIMIT,
        decreases n - i,
    {
        let c: char = cs[i];
        let bytes: usize = width(c);
        proof {
            assert(cs@.take(i + 1).drop_last() =~= cs@.take(i as int));
            assert(cs@.take(i + 1).last() == c);
        }
        total += bytes;
        if total > NAME_LIMIT {
            proof {
                lemma_bytes_grow(cs@, i + 1);
            }
            return true;
        }
        i += 1;
    }
    assert(cs@.take(n as int) =~= cs@);
    false
}

proof fn lemma_bytes_grow(s: Seq<char>, n: int)
    requires
        0 <= n <= s.len(),
    ensures
        text_bytes(s.take(n)) <= text_bytes(s),
    decreases s.len() - n,
{
    if n < s.len() {
        assert(s.take(n + 1).drop_last() =~= s.take(n));
        lemma_bytes_grow(s, n + 1);
    } else {
        assert(s.take(n) =~= s);
    }
}

/// Whether a character may not stand in a name.
pub open spec fn is_forbidden(c: char) -> bool {
    c == '<' || c == '>' || c == ':' || c == '"' || c == '/' || c == '\\' || c == '|' || c == '?'
        || c == '*' || (c as int) < 32
}

fn forbidden(c: char) -> (r: bool)
    ensures
        r == is_forbidden(c),
{
    let code: u32 = c as u32;
    c == '<' || c == '>' || c == ':' || c == '"' || c == '/' || c == '\\' || c == '|' || c == '?'
        || c == '*' || code < 32
}

/// Whether a word names a device.
pub open spec fn is_reserved(stem: Seq<char>) -> bool {
    let l = ascii_lower(stem);
    l == ascii_lower("CON"@) || l == ascii_lower("PRN"@) || l == ascii_lower("AUX"@) || l
        == ascii_lower("NUL"@) || l == ascii_lower("COM1"@) || l == ascii_lower("COM2"@) || l
        == ascii_lower("COM3"@) || l == ascii_lower("COM4"@) || l == ascii_lower("COM5"@) || l
        == ascii_lower("COM6"@) || l == ascii_lower("COM7"@) || l == ascii_lower("COM8"@) || l
        == ascii_lower("COM9"@) || l == ascii_lower("LPT1"@) || l == ascii_lower("LPT2"@) || l
        == ascii_lower("LPT3"@) || l == ascii_lower("LPT4"@) || l == ascii_lower("LPT5"@) || l
        == ascii_lower("LPT6"@) || l == ascii_lower("LPT7"@) || l == ascii_lower("LPT8"@) || l
        == ascii_lower("LPT9"@)
}

fn reserved(stem: &str) -> (r: bool)
    ensures
        r == is_reserved(stem@),
{
    eq_ignore_ascii_case(stem, "CON") || eq_ignore_ascii_case(stem, "PRN")
        || eq_ignore_ascii_case(stem, "AUX") || eq_ignore_ascii_case(stem, "NUL")
        || eq_ignore_ascii_case(stem, "COM1") || eq_ignore_ascii_case(stem, "COM2")
        || eq_ignore_ascii_case(stem, "COM3") || eq_ignore_ascii_case(stem, "COM4")
        || eq_ignore_ascii_case(stem, "COM5") || eq_ignore_ascii_case(stem, "COM6")
        || eq_ignore_ascii_case(stem, "COM7") || eq_ignore_ascii_case(stem, "COM8")
        || eq_ignore_ascii_case(stem, "COM9") || eq_ignore_ascii_case(stem, "LPT1")
        || eq_ignore_ascii_case(stem, "LPT2") || eq_ignore_ascii_case(stem, "LPT3")
        || eq_ignore_ascii_case(stem, "LPT4") || eq_ignore_ascii_case(stem, "LPT5")
        || eq_ignore_ascii_case(stem, "LPT6") || eq_ignore_ascii_case(stem, "LPT7")
        || eq_ignore_ascii_case(stem, "LPT8") || eq_ignore_ascii_case(stem, "LPT9")
}

pub open spec fn low_hex(d: int) -> char {
    if d < 10 {
        (48 + d) as char
    } else {
        (87 + d) as char
    }
}

/// A forbidden character as it is shown in a message: in quotes, and escaped where it would not
/// be seen.
pub open spec fn shown_char(c: char) -> Seq<char> {
    let n = c as int;
    let inner = if c == '\\' {
        seq!['\\', '\\']
    } else if n == 0 {
        seq!['\\', '0']
    } else if n == 9 {
        seq!['\\', 't']
    } else if n == 10 {
        seq!['\\', 'n']
    } else if n == 13 {
        seq!['\\', 'r']
    } else if n < 16 {
        seq!['\\', 'u', '{', low_hex(n), '}']
    } else if n < 32 {
        seq!['\\', 'u', '{', low_hex(n / 16), low_hex(n % 16), '}']
    } else {
        seq![c]
    };
    seq!['\''] + inner + seq!['\'']
}

fn show_char(c: char) -> (r: String)
    requires
        is_forbidden(c),
    ensures
        r@ == shown_char(c),
{
    let n: u32 = c as u32;
    let mut s = String::new();
    assert(s@ =~= Seq::<char>::empty());
    s.push('\'');
    if c == '\\' {
        s.push('\\');
        s.push('\\');
    } else if n == 0 {
        s.push('\\');
        s.push('0');
    } else if n == 9 {
        s.push('\\');
        s.push('t');
    } else if n == 10 {
        s.push('\\');
        s.push('n');
    } else if n == 13 {
        s.push('\\');
        s.push('r');
    } else if n < 32 {
        s.push('\\');
        s.push('u');
        s.push('{');
        if n >= 16 {
            s.push(hex_of((n / 16) as u8));
        }
        s.push(hex_of((n % 16) as u8));
        s.push('}');
    } else {
        s.push(c);
    }
    s.push('\'');
    assert(s@ =~= shown_char(c));
    s
}

fn hex_of(d: u8) -> (r: char)
    requires
        d < 16,
    ensures
        r == low_hex(d as int),
{
    if d < 10 {
        (48 + d) as char
    } else {
        (87 + d) as char
    }
}

/// The first forbidden character of a name.
pub open spec fn first_forbidden(s: Seq<char>) -> Option<char>
    decreases s.len(),
{
    if s.len() == 0 {
        None
    } else if is_forbidden(s[0]) {
        Some(s[0])
    } else {
        first_forbidden(s.drop_first())
    }
}

/// Why a name is refused; `None` for a good one. White space around it does not count.
pub open spec fn name_refusal(name: Seq<char>) -> Option<Seq<char>> {
    let t = trimmed(name);
    if t.len() == 0 {
        Some("name is empty"@)
    } else if text_bytes(t) > NAME_LIMIT {
        Some("name is too long"@)
    } else if first_forbidden(t) is Some {
        Some("name contains a forbidden character: "@ + shown_char(first_forbidden(t)->0))
    } else if t.last() == '.' || t.last() == ' ' {
        Some("name may not end with a dot or space"@)
    } else if is_reserved(split(t, '.')[0]) {
        Some("'"@ + split(t, '.')[0] + "' is a reserved Windows name"@)
    } else {
        None
    }
}

/// Checks the name of a file or a folder.
pub fn validate_name(name: &str) -> (r: Result<(), String>)
    ensures
        match r {
            Ok(()) => name_refusal(name@) is None,
            Err(e) => name_refusal(name@) == Some(e@),
        },
{
    let t = trim(name);
    let cs = chars_of(t.as_str());
    let n: usize = cs.len();
    if n == 0 {
        return Err("name is empty".to_owned());
    }
    if exceeds_limit(&cs) {
        return Err("name is too long".to_owned());
    }
    let mut i: usize = 0;
    assert(cs@.skip(0) =~= cs@);
    while i < n
        invariant
            i <= n,
            n == cs@.len(),
            cs@ == trimmed(name@),
            0 < n,
            text_bytes(cs@) <= NAME_LIMIT,
            first_forbidden(cs@) == first_forbidden(cs@.skip(i as int)),
        decreases n - i,
    {
        let c: char = cs[i];
        assert(cs@.skip(i as int)[0] == c);
        assert(cs@.skip(i as int).drop_first() =~= cs@.skip(i + 1));
        if forbidden(c) {
            let shown = show_char(c);
            return Err(cat("name contains a forbidden character: ", shown.as_str()));
        }
        i += 1;
    }
    let last: char = cs[n - 1];
    if last == '.' || last == ' ' {
        return Err("name may not end with a dot or space".to_owned());
    }
    let pieces = split_char(t.as_str(), '.');
    assert(split(t@, '.').len() > 0);
    assert(texts(pieces@).len() == pieces@.len());
    assert(texts(pieces@)[0] == pieces@[0]@);
    if reserved(pieces[0].as_str()) {
        return Err(cat3("'", pieces[0].as_str(), "' is a reserved Windows name"));
    }
    Ok(())
}

/// A new name with the extension of the old one, unless it has its own or is taken as it is.
pub open spec fn kept_extension(
    style: PathStyle,
    source: Seq<char>,
    new_name: Seq<char>,
    keep: bool,
) -> Seq<char> {
    if !keep || extension_of(style, new_name) is Some {
        new_name
    } else {
        match extension_of(style, source) {
            Some(e) => if e.len() > 0 {
                new_name + "."@ + e
            } else {
                new_name
            },
            None => new_name,
        }
    }
}

pub fn apply_extension_policy(
    style: PathStyle,
    source: &str,
    new_name: &str,
    keep_extension: bool,
) -> (r: String)
    ensures
        r@ == kept_extension(style, source@, new_name@, keep_extension),
{
    if !keep_extension {
        return new_name.to_owned();
    }
    if extension(style, new_name).is_some() {
        return new_name.to_owned();
    }
    match extension(style, source) {
        Some(e) => if e.as_str().is_empty() {
            new_name.to_owned()
        } else {
            cat3(new_name, ".", e.as_str())
        },
        None => new_name.to_owned(),
    }
}

/// Whether a question about a path was answered in the given way.
pub open spec fn said<F: Fn(&str) -> bool>(ask: F, path: Seq<char>, answer: bool) -> bool {
    exists|s: &str| s@ == path && #[trigger] call_ensures(ask, (s,), answer)
}

/// Whether any path may be asked for.
pub open spec fn askable<F: Fn(&str) -> bool>(ask: F) -> bool {
    forall|s: &str| #[trigger] call_requires(ask, (s,))
}

/// The stem of a name, as far as names are counted up.
pub open spec fn count_stem(style: PathStyle, name: Seq<char>) -> Seq<char> {
    match file_name_of(style, name) {
        Some(n) => stem_of_name(n),
        None => name,
    }
}

/// The extension of a name with its dot.
pub open spec fn count_extension(style: PathStyle, name: Seq<char>) -> Seq<char> {
    match extension_of(style, name) {
        Some(e) => "."@ + e,
        None => Seq::empty(),
    }
}

/// The name with a number, from 2 on; 1 is the name itself.
pub open spec fn counted_name(style: PathStyle, name: Seq<char>, n: nat) -> Seq<char> {
    if n <= 1 {
        name
    } else {
        count_stem(style, name) + " ("@ + decimal(n) + ")"@ + count_extension(style, name)
    }
}

/// Whether a path is the first free one of the series: the name, the name with 2, with 3, and so
/// on. Nothing stands there.
pub open spec fn is_free_target<F: Fn(&str) -> bool>(
    style: PathStyle,
    exists_at: F,
    dir: Seq<char>,
    name: Seq<char>,
    r: Seq<char>,
) -> bool {
    &&& said(exists_at, r, false)
    &&& exists|n: nat|
        {
            &&& 1 <= n
            &&& r == joined_path(style, dir, #[trigger] counted_name(style, name, n))
            &&& taken_below(style, exists_at, dir, name, n)
        }
}

/// Whether every name of the series is taken, as far as its number can be counted.
pub open spec fn all_taken<F: Fn(&str) -> bool>(
    style: PathStyle,
    exists_at: F,
    dir: Seq<char>,
    name: Seq<char>,
) -> bool {
    taken_below(style, exists_at, dir, name, u64::MAX as nat)
}

/// Whether all names below a number are taken.
pub open spec fn taken_below<F: Fn(&str) -> bool>(
    style: PathStyle,
    exists_at: F,
    dir: Seq<char>,
    name: Seq<char>,
    n: nat,
) -> bool {
    forall|k: nat|
        1 <= k < n ==> said(
            exists_at,
            joined_path(style, dir, #[trigger] counted_name(style, name, k)),
            true,
        )
}

/// The first free place for a name in a folder: the name itself, or with a number. `exists_at`
/// tells whether something stands at a path. There is none only where as many names are taken as
/// can be counted.
pub fn unique_target<F: Fn(&str) -> bool>(
    style: PathStyle,
    dir: &str,
    file_name_text: &str,
    exists_at: F,
) -> (r: Option<String>)
    requires
        askable(exists_at),
    ensures
        match r {
            Some(target) => is_free_target(style, exists_at, dir@, file_name_text@, target@),
            None => all_taken(style, exists_at, dir@, file_name_text@),
        },
{
    let first = join_path(style, dir, file_name_text);
    assert(counted_name(style, file_name_text@, 1) == file_name_text@);
    if !exists_at(first.as_str()) {
        assert(said(exists_at, first@, false));
        return Some(first);
    }
    assert(said(exists_at, first@, true));
    let stem = match file_name(style, file_name_text) {
        Some(n) => name_stem(n.as_str()),
        None => file_name_text.to_owned(),
    };
    let ext = match extension(style, file_name_text) {
        Some(e) => cat(".", e.as_str()),
        None => {
            let e = String::new();
            assert(e@ =~= Seq::<char>::empty());
            e
        },
    };
    let mut n: u64 = 2;
    while n < u64::MAX
        invariant
            2 <= n <= u64::MAX,
            askable(exists_at),
            stem@ == count_stem(style, file_name_text@),
            ext@ == count_extension(style, file_name_text@),
            taken_below(style, exists_at, dir@, file_name_text@, n as nat),
        decreases u64::MAX - n,
    {
        let digits = decimal_text(n);
        let mut name = cat3(stem.as_str(), " (", digits.as_str());
        name.append(")");
        name.append(ext.as_str());
        assert(name@ == counted_name(style, file_name_text@, n as nat));
        let candidate = join_path(style, dir, name.as_str());
        if !exists_at(candidate.as_str()) {
            assert(said(exists_at, candidate@, false));
            return Some(candidate);
        }
        assert(said(exists_at, candidate@, true));
        n += 1;
    }
    None
}

/// What is done to rename a file.
#[derive(Debug)]
pub enum RenameStep {
    /// The file has the name already.
    Keep { target: String },
    /// The file is moved to this place.
    Rename { target: String },
}

/// The name that a file gets.
pub open spec fn final_name(
    style: PathStyle,
    source: Seq<char>,
    new_name: Seq<char>,
    keep: bool,
) -> Seq<char> {
    kept_extension(style, source, trimmed(new_name), keep)
}

/// What renaming a file comes to.
pub open spec fn rename_outcome<F: Fn(&str) -> bool>(
    style: PathStyle,
    exists_at: F,
    source: Seq<char>,
    new_name: Seq<char>,
    keep: bool,
    r: Result<RenameStep, String>,
) -> bool {
    let name = final_name(style, source, new_name, keep);
    match name_refusal(name) {
        Some(e) => r is Err && r->Err_0@ == e,
        None => match parent_of(style, source) {
            None => r is Err && r->Err_0@ == "source has no parent folder"@,
            Some(dir) => {
                let target = joined_path(style, dir, trimmed(name));
                if components_of(style, target) == components_of(style, source) {
                    r is Ok && r->Ok_0 is Keep && r->Ok_0->Keep_target@ == target
                } else {
                    ||| {
                        &&& said(exists_at, target, true)
                        &&& ascii_lower(target) != ascii_lower(source)
                        &&& r is Err
                        &&& r->Err_0@ == "'"@ + trimmed(name) + "' already exists"@
                    }
                    ||| {
                        &&& said(exists_at, target, false) || ascii_lower(target) == ascii_lower(
                            source,
                        )
                        &&& r is Ok
                        &&& r->Ok_0 is Rename
                        &&& r->Ok_0->Rename_target@ == target
                    }
                }
            },
        },
    }
}

fn same_path(style: PathStyle, a: &str, b: &str) -> (r: bool)
    ensures
        r == (components_of(style, a@) == components_of(style, b@)),
{
    let x = components(style, a);
    let y = components(style, b);
    assert(texts(x@).len() == x@.len() && texts(y@).len() == y@.len());
    if x.len() != y.len() {
        return false;
    }
    let n: usize = x.len();
    let mut i: usize = 0;
    while i < n
        invariant
            i <= n,
            n == x@.len(),
            n == y@.len(),
            texts(x@) == components_of(style, a@),
            texts(y@) == components_of(style, b@),
            forall|j: int| 0 <= j < i ==> (#[trigger] x@[j])@ == y@[j]@,
        decreases n - i,
    {
        if !str_eq(x[i].as_str(), y[i].as_str()) {
            assert(texts(x@)[i as int] != texts(y@)[i as int]);
            return false;
        }
        i += 1;
    }
    assert forall|j: int| 0 <= j < n implies texts(x@)[j] == texts(y@)[j] by {
        assert(x@[j]@ == y@[j]@);
    }
    assert(texts(x@) =~= texts(y@));
    true
}

/// Decides how a file is renamed inside its folder. Nothing is overwritten: where another file has
/// the name, the rename is refused, but a change of case alone is allowed.
pub fn rename_file<F: Fn(&str) -> bool>(
    style: PathStyle,
    source: &str,
    new_name: &str,
    keep_extension: bool,
    exists_at: F,
) -> (r: Result<RenameStep, String>)
    requires
        askable(exists_at),
    ensures
        rename_outcome(style, exists_at, source@, new_name@, keep_extension, r),
{
    let tidy = trim(new_name);
    let name = apply_extension_policy(style, source, tidy.as_str(), keep_extension);
    if let Err(e) = validate_name(name.as_str()) {
        return Err(e);
    }
    let name = trim(name.as_str());
    let dir = match parent(style, source) {
        Some(d) => d,
        None => return Err("source has no parent folder".to_owned()),
    };
    let target = join_path(style, dir.as_str(), name.as_str());
    if same_path(style, target.as_str(), source) {
        return Ok(RenameStep::Keep { target });
    }
    let case_only = eq_ignore_ascii_case(target.as_str(), source);
    let taken = exists_at(target.as_str());
    assert(said(exists_at, target@, taken));
    if taken && !case_only {
        return Err(cat3("'", name.as_str(), "' already exists"));
    }
    Ok(RenameStep::Rename { target })
}

/// Decides where a new folder is made. Nothing is overwritten.
pub fn create_folder<F: Fn(&str) -> bool>(style: PathStyle, dir: &str, name: &str, exists_at: F) -> (r:
    Result<String, String>)
    requires
        askable(exists_at),
    ensures
        match name_refusal(name@) {
            Some(e) => r is Err && r->Err_0@ == e,
            None => {
                let target = joined_path(style, dir@, trimmed(name@));
                ||| said(exists_at, target, false) && r is Ok && r->Ok_0@ == target
                ||| said(exists_at, target, true) && r is Err && r->Err_0@ == "'"@ + trimmed(name@)
                    + "' already exists"@
            },
        },
{
    if let Err(e) = validate_name(name) {
        return Err(e);
    }
    let tidy = trim(name);
    let target = join_path(style, dir, tidy.as_str());
    let taken = exists_at(target.as_str());
    assert(said(exists_at, target@, taken));
    if taken {
        return Err(cat3("'", tidy.as_str(), "' already exists"));
    }
    Ok(target)
}

/// What is done next to move a file.
#[derive(Debug)]
pub enum MoveStep {
    /// The file stands in the folder already.
    Stay,
    /// The file is renamed to the target.
    Rename,
    /// The length of the source is asked for.
    StatSource,
    /// The source is copied to the target.
    Copy { source_len: u64 },
    /// The length of the copy is asked for.
    StatCopy { source_len: u64 },
    /// The copy, which is not whole, is removed; the source stays.
    DropCopy { source_len: u64, copy_len: u64 },
    /// The source is removed, since the copy is whole.
    DropSource { source_len: u64, copy_len: u64 },
}

/// What a step came to: a length where one was asked for, or a reason for failure.
#[derive(Debug)]
pub enum MoveEvent {
    Done,
    Length(u64),
    Failed(String),
}

/// What follows a step.
#[derive(Debug)]
pub enum MoveNext {
    Step(MoveStep),
    /// The file stands at its target.
    Moved,
    Failed(String),
}

/// Where a file is moved to, and how that begins.
#[derive(Debug)]
pub struct MovePlan {
    pub target: String,
    pub step: MoveStep,
}

/// How a move begins: a file in its own folder stays, any other goes to a free name.
pub open spec fn move_begins<F: Fn(&str) -> bool>(
    style: PathStyle,
    exists_at: F,
    source: Seq<char>,
    dest_dir: Seq<char>,
    dest_is_folder: bool,
    r: Result<MovePlan, String>,
) -> bool {
    match file_name_of(style, source) {
        None => r is Err && r->Err_0@ == "source has no file name"@,
        Some(name) => if !dest_is_folder {
            r is Err && r->Err_0@ == "destination is not a folder: "@ + dest_dir
        } else if parent_of(style, source) is Some && components_of(
            style,
            parent_of(style, source)->0,
        ) == components_of(style, dest_dir) {
            r is Ok && r->Ok_0.step is Stay && r->Ok_0.target@ == source
        } else {
            match r {
                Ok(plan) => plan.step is Rename && is_free_target(
                    style,
                    exists_at,
                    dest_dir,
                    name,
                    plan.target@,
                ),
                Err(e) => all_taken(style, exists_at, dest_dir, name) && e@
                    == "no free name in folder: "@ + dest_dir,
            }
        },
    }
}

/// A move overwrites nothing: where the file does not stay, nothing stands at its target.
pub proof fn moves_overwrite_nothing<F: Fn(&str) -> bool>(
    style: PathStyle,
    exists_at: F,
    source: Seq<char>,
    dest_dir: Seq<char>,
    dest_is_folder: bool,
    r: Result<MovePlan, String>,
)
    requires
        move_begins(style, exists_at, source, dest_dir, dest_is_folder, r),
        r is Ok,
    ensures
        r->Ok_0.step is Stay && r->Ok_0.target@ == source || r->Ok_0.step is Rename && said(
            exists_at,
            r->Ok_0.target@,
            false,
        ),
{
}

/// Decides how a move begins. `dest_is_folder` tells whether the destination is a folder.
pub fn move_file<F: Fn(&str) -> bool>(
    style: PathStyle,
    source: &str,
    dest_dir: &str,
    dest_is_folder: bool,
    exists_at: F,
) -> (r: Result<MovePlan, String>)
    requires
        askable(exists_at),
    ensures
        move_begins(style, exists_at, source@, dest_dir@, dest_is_folder, r),
{
    let name = match file_name(style, source) {
        Some(n) => n,
        None => return Err("source has no file name".to_owned()),
    };
    if !dest_is_folder {
        return Err(cat("destination is not a folder: ", dest_dir));
    }
    if let Some(p) = parent(style, source) {
        if same_path(style, p.as_str(), dest_dir) {
            return Ok(MovePlan { target: source.to_owned(), step: MoveStep::Stay });
        }
    }
    match unique_target(style, dest_dir, name.as_str(), exists_at) {
        Some(target) => Ok(MovePlan { target, step: MoveStep::Rename }),
        None => Err(cat("no free name in folder: ", dest_dir)),
    }
}

/// What follows a step and what it came to. A rename that fails is tried as a copy, whose length
/// is checked before the source goes.
pub open spec fn move_follows(step: MoveStep, event: MoveEvent, next: MoveNext) -> bool {
    match step {
        MoveStep::Stay => next is Moved,
        MoveStep::Rename => if event is Failed {
            next is Step && next->Step_0 is StatSource
        } else {
            next is Moved
        },
        MoveStep::StatSource => match event {
            MoveEvent::Length(n) => next is Step && next->Step_0 == (MoveStep::Copy {
                source_len: n,
            }),
            MoveEvent::Failed(e) => next is Failed && next->Failed_0@ == "stat source: "@ + e@,
            MoveEvent::Done => next is Failed && next->Failed_0@ == "stat source: no length"@,
        },
        MoveStep::Copy { source_len } => match event {
            MoveEvent::Failed(e) => next is Failed && next->Failed_0@ == "copy failed: "@ + e@,
            _ => next is Step && next->Step_0 == (MoveStep::StatCopy { source_len }),
        },
        MoveStep::StatCopy { source_len } => match event {
            MoveEvent::Length(n) => next is Step && next->Step_0 == if n == source_len {
                MoveStep::DropSource { source_len, copy_len: n }
            } else {
                MoveStep::DropCopy { source_len, copy_len: n }
            },
            MoveEvent::Failed(e) => next is Failed && next->Failed_0@ == "stat copy: "@ + e@,
            MoveEvent::Done => next is Failed && next->Failed_0@ == "stat copy: no length"@,
        },
        MoveStep::DropCopy { source_len, copy_len } => next is Failed && next->Failed_0@
            == "copy verification failed ("@ + decimal(copy_len as nat) + " of "@ + decimal(
            source_len as nat,
        ) + " bytes) — source kept"@,
        MoveStep::DropSource { source_len, copy_len } => match event {
            MoveEvent::Failed(e) => next is Failed && next->Failed_0@
                == "copied, but could not remove source: "@ + e@,
            _ => next is Moved,
        },
    }
}

/// What follows a step and what it came to.
pub fn next_move(step: MoveStep, event: MoveEvent) -> (r: MoveNext)
    ensures
        move_follows(step, event, r),
{
    match step {
        MoveStep::Stay => MoveNext::Moved,
        MoveStep::Rename => match event {
            MoveEvent::Failed(_) => MoveNext::Step(MoveStep::StatSource),
            _ => MoveNext::Moved,
        },
        MoveStep::StatSource => match event {
            MoveEvent::Length(n) => MoveNext::Step(MoveStep::Copy { source_len: n }),
            MoveEvent::Failed(e) => MoveNext::Failed(cat("stat source: ", e.as_str())),
            MoveEvent::Done => MoveNext::Failed("stat source: no length".to_owned()),
        },
        MoveStep::Copy { source_len } => match event {
            MoveEvent::Failed(e) => MoveNext::Failed(cat("copy failed: ", e.as_str())),
            _ => MoveNext::Step(MoveStep::StatCopy { source_len }),
        },
        MoveStep::StatCopy { source_len } => match event {
            MoveEvent::Length(n) => if n == source_len {
                MoveNext::Step(MoveStep::DropSource { source_len, copy_len: n })
            } else {
                MoveNext::Step(MoveStep::DropCopy { source_len, copy_len: n })
            },
            MoveEvent::Failed(e) => MoveNext::Failed(cat("stat copy: ", e.as_str())),
            MoveEvent::Done => MoveNext::Failed("stat copy: no length".to_owned()),
        },
        MoveStep::DropCopy { source_len, copy_len } => {
            let a = decimal_text(copy_len);
            let b = decimal_text(source_len);
            let mut e = cat3("copy verification failed (", a.as_str(), " of ");
            e.append(b.as_str());
            e.append(" bytes) — source kept");
            MoveNext::Failed(e)
        },
        MoveStep::DropSource { source_len: _, copy_len: _ } => match event {
            MoveEvent::Failed(e) => MoveNext::Failed(
                cat("copied, but could not remove source: ", e.as_str()),
            ),
            _ => MoveNext::Moved,
        },
    }
}

/// The source is removed only once a copy of the same length stands.
pub proof fn source_goes_only_after_a_whole_copy(step: MoveStep, event: MoveEvent, next: MoveNext)
    requires
        move_follows(step, event, next),
        next is Step,
        next->Step_0 is DropSource,
    ensures
        step is StatCopy,
        event is Length,
        event->Length_0 == step->StatCopy_source_len,
        next->Step_0->DropSource_copy_len == next->Step_0->DropSource_source_len,
{
}

/// Whether a move of a file came out in the given way.
pub open spec fn came_out<F: Fn(&str) -> Result<String, String>>(
    mover: F,
    source: Seq<char>,
    outcome: Result<String, String>,
) -> bool {
    exists|s: &str| s@ == source && #[trigger] call_ensures(mover, (s,), outcome)
}

/// The targets of the files that were moved, in order.
pub open spec fn moved_targets(outcomes: Seq<Result<String, String>>) -> Seq<String>
    decreases outcomes.len(),
{
    if outcomes.len() == 0 {
        Seq::empty()
    } else {
        match outcomes.last() {
            Ok(target) => moved_targets(outcomes.drop_last()).push(target),
            Err(_) => moved_targets(outcomes.drop_last()),
        }
    }
}

/// The files that were not moved with the reasons, in order.
pub open spec fn move_failures(
    sources: Seq<Seq<char>>,
    outcomes: Seq<Result<String, String>>,
) -> Seq<(Seq<char>, Seq<char>)>
    decreases outcomes.len(),
{
    if outcomes.len() == 0 {
        Seq::empty()
    } else {
        let before = move_failures(sources, outcomes.drop_last());
        match outcomes.last() {
            Ok(_) => before,
            Err(e) => before.push((sources[outcomes.len() - 1], e@)),
        }
    }
}

pub open spec fn text_pairs(v: Seq<(String, String)>) -> Seq<(Seq<char>, Seq<char>)> {
    v.map_values(|p: (String, String)| (p.0@, p.1@))
}

/// Whether each file came out as told.
pub open spec fn all_came_out<F: Fn(&str) -> Result<String, String>>(
    mover: F,
    sources: Seq<Seq<char>>,
    outcomes: Seq<Result<String, String>>,
) -> bool {
    &&& outcomes.len() == sources.len()
    &&& forall|i: int|
        0 <= i < sources.len() ==> came_out(mover, #[trigger] sources[i], outcomes[i])
}

/// Moves several files, one after the other: what was moved, and what was not with the reason. One
/// failure does not keep the others from being moved.
pub fn move_files<F: Fn(&str) -> Result<String, String>>(sources: &Vec<String>, mover: F) -> (r: (
    Vec<String>,
    Vec<(String, String)>,
))
    requires
        forall|s: &str| #[trigger] call_requires(mover, (s,)),
    ensures
        exists|outcomes: Seq<Result<String, String>>|
            {
                &&& #[trigger] all_came_out(mover, texts(sources@), outcomes)
                &&& r.0@ == moved_targets(outcomes)
                &&& text_pairs(r.1@) == move_failures(texts(sources@), outcomes)
            },
        r.0@.len() + r.1@.len() == sources@.len(),
{
    let n: usize = sources.len();
    let ghost all = texts(sources@);
    let ghost mut outcomes = Seq::<Result<String, String>>::empty();
    let mut moved: Vec<String> = Vec::new();
    let mut failures: Vec<(String, String)> = Vec::new();
    let mut i: usize = 0;
    assert(moved@ =~= moved_targets(outcomes));
    assert(text_pairs(failures@) =~= move_failures(all, outcomes));
    while i < n
        invariant
            i <= n,
            n == sources@.len(),
            all == texts(sources@),
            forall|s: &str| #[trigger] call_requires(mover, (s,)),
            outcomes.len() == i,
            forall|k: int| 0 <= k < i ==> came_out(mover, #[trigger] all[k], outcomes[k]),
            moved@ == moved_targets(outcomes),
            text_pairs(failures@) == move_failures(all, outcomes),
            moved@.len() + failures@.len() == i,
        decreases n - i,
    {
        let source = sources[i].as_str();
        let outcome = mover(source);
        let ghost before = outcomes;
        proof {
            assert(all[i as int] == source@);
            assert(came_out(mover, source@, outcome));
            outcomes = outcomes.push(outcome);
            assert(outcomes.drop_last() =~= before);
        }
        match outcome {
            Ok(target) => {
                moved.push(target);
            },
            Err(e) => {
                let ghost f0 = text_pairs(failures@);
                let ghost pair = (source@, e@);
                failures.push((source.to_owned(), e));
                assert(text_pairs(failures@) =~= f0.push(pair));
            },
        }
        i += 1;
    }
    assert(all_came_out(mover, all, outcomes));
    (moved, failures)
}

} // verus!
