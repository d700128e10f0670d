//! The catalog of color labels and the label lists of single files.

use crate::outside::{
    json_of_string, json_of_strings, string_to_json, strings_from_json, strings_of_json,
    strings_to_json,
};
use crate::text::{
    ascii_lower, ascii_upper, begins, cat, cat3, chars_of, eq_ignore_ascii_case, is_white_space, join,
    joined, slice_of, starts_with, str_eq, string_of, texts, to_ascii_lowercase, to_ascii_uppercase,
    to_lowercase, trim, trim_end, trim_start, trimmed, unicode_lower,
};
use vstd::prelude::*;

verus! {

/// A label: a stable id, and a name and a color that can change without disconnecting the files
/// that carry the id.
#[derive(Debug)]
pub struct ColorLabelDefinition {
    pub id: String,
    pub name: String,
    pub hex: String,
}

#[verifier::ext_equal]
pub ghost struct LabelModel {
    pub id: Seq<char>,
    pub name: Seq<char>,
    pub hex: Seq<char>,
}

impl View for ColorLabelDefinition {
    type V = LabelModel;

    open spec fn view(&self) -> LabelModel {
        LabelModel { id: self.id@, name: self.name@, hex: self.hex@ }
    }
}

impl Clone for ColorLabelDefinition {
    fn clone(&self) -> (r: Self)
        ensures
            r@ == self@,
    {
        ColorLabelDefinition {
            id: self.id.clone(),
            name: self.name.clone(),
            hex: self.hex.clone(),
        }
    }
}

pub open spec fn labels_of(v: Seq<ColorLabelDefinition>) -> Seq<LabelModel> {
    v.map_values(|d: ColorLabelDefinition| d@)
}

pub open spec fn label(id: Seq<char>, name: Seq<char>, hex: Seq<char>) -> LabelModel {
    LabelModel { id, name, hex }
}

/// The built-in catalog.
pub open spec fn built_in_labels() -> Seq<LabelModel> {
    seq![
        label("red"@, "Red"@, "#C63E35"@),
        label("orange"@, "Orange"@, "#E28A2C"@),
        label("yellow"@, "Yellow"@, "#DEC33E"@),
        label("green"@, "Green"@, "#54A65C"@),
        label("blue"@, "Blue"@, "#4682C4"@),
        label("purple"@, "Purple"@, "#945CC4"@),
        label("gray"@, "Gray"@, "#808080"@),
    ]
}

fn definition(id: &str, name: &str, hex: &str) -> (r: ColorLabelDefinition)
    ensures
        r@ == label(id@, name@, hex@),
{
    ColorLabelDefinition { id: id.to_owned(), name: name.to_owned(), hex: hex.to_owned() }
}

pub fn default_color_label_definitions() -> (r: Vec<ColorLabelDefinition>)
    ensures
        labels_of(r@) == built_in_labels(),
{
    let mut v: Vec<ColorLabelDefinition> = Vec::new();
    v.push(definition("red", "Red", "#C63E35"));
    v.push(definition("orange", "Orange", "#E28A2C"));
    v.push(definition("yellow", "Yellow", "#DEC33E"));
    v.push(definition("green", "Green", "#54A65C"));
    v.push(definition("blue", "Blue", "#4682C4"));
    v.push(definition("purple", "Purple", "#945CC4"));
    v.push(definition("gray", "Gray", "#808080"));
    assert(labels_of(v@) =~= built_in_labels());
    v
}

pub open spec fn is_hex_digit(c: char) -> bool {
    ('0' <= c && c <= '9') || ('a' <= c && c <= 'f') || ('A' <= c && c <= 'F')
}

pub open spec fn hex_value(c: char) -> int {
    if '0' <= c && c <= '9' {
        c as int - '0' as int
    } else if 'a' <= c && c <= 'f' {
        c as int - 'a' as int + 10
    } else {
        c as int - 'A' as int + 10
    }
}

/// What a color is written with: the text without white space around it and without a number sign.
pub open spec fn color_digits(raw: Seq<char>) -> Seq<char> {
    let t = trimmed(raw);
    if begins(t, "#"@) {
        t.skip(1)
    } else {
        t
    }
}

pub open spec fn is_color(raw: Seq<char>) -> bool {
    let d = color_digits(raw);
    d.len() == 6 && forall|i: int| 0 <= i < 6 ==> is_hex_digit(#[trigger] d[i])
}

/// A color in its canonical form: a number sign and six digits in upper case.
pub open spec fn canonical_color(raw: Seq<char>) -> Seq<char> {
    "#"@ + ascii_upper(color_digits(raw))
}

/// The red, green and blue of a color.
pub open spec fn color_channels(raw: Seq<char>) -> Seq<u8> {
    let d = color_digits(raw);
    seq![
        (hex_value(d[0]) * 16 + hex_value(d[1])) as u8,
        (hex_value(d[2]) * 16 + hex_value(d[3])) as u8,
        (hex_value(d[4]) * 16 + hex_value(d[5])) as u8,
    ]
}

fn read_hex_digit(c: char) -> (r: Option<u8>)
    ensures
        match r {
            Some(v) => is_hex_digit(c) && v == hex_value(c) && v < 16,
            None => !is_hex_digit(c),
        },
{
    if '0' <= c && c <= '9' {
        Some((c as u8) - 48)
    } else if 'a' <= c && c <= 'f' {
        Some((c as u8) - 87)
    } else if 'A' <= c && c <= 'F' {
        Some((c as u8) - 55)
    } else {
        None
    }
}

/// Reads `#RRGGBB`, with or without the number sign: the canonical form and the channels.
pub fn normalize_hex_color(raw: &str) -> (r: Option<(String, [u8; 3])>)
    ensures
        match r {
            Some(c) => is_color(raw@) && c.0@ == canonical_color(raw@) && c.1@ == color_channels(
                raw@,
            ),
            None => !is_color(raw@),
        },
{
    let t = trim(raw);
    let cs = chars_of(t.as_str());
    let n: usize = cs.len();
    let from: usize = if starts_with(t.as_str(), "#") {
        1
    } else {
        0
    };
    proof {
        reveal_strlit("#");
        assert(cs@.subrange(0, n as int) =~= t@);
        if from == 1 {
            assert(cs@.subrange(1, n as int) =~= t@.skip(1));
        }
    }
    let digits = string_of(slice_of(&cs, from, n));
    let ghost d = color_digits(raw@);
    assert(digits@ == d);
    if n - from != 6 {
        return None;
    }
    let mut values: Vec<u8> = Vec::new();
    let mut i: usize = 0;
    while i < 6
        invariant
            i <= 6,
            n - from == 6,
            n == cs@.len(),
            d == cs@.subrange(from as int, n as int),
            d == color_digits(raw@),
            values@.len() == i,
            forall|k: int|
                0 <= k < i ==> is_hex_digit(#[trigger] d[k]) && values@[k] == hex_value(d[k])
                    && values@[k] < 16,
        decreases 6 - i,
    {
        assert(d[i as int] == cs@[from + i]);
        match read_hex_digit(cs[from + i]) {
            Some(v) => values.push(v),
            None => return None,
        }
        i += 1;
    }
    assert(is_hex_digit(d[0]) && is_hex_digit(d[1]) && is_hex_digit(d[2]) && is_hex_digit(d[3])
        && is_hex_digit(d[4]) && is_hex_digit(d[5]));
    let rgb: [u8; 3] = [
        values[0] * 16 + values[1],
        values[2] * 16 + values[3],
        values[4] * 16 + values[5],
    ];
    assert(rgb@ =~= color_channels(raw@));
    let upper = to_ascii_uppercase(digits.as_str());
    Some((cat("#", upper.as_str()), rgb))
}

/// Whether a text can be a stable id: one to eighty lower-case letters, digits, hyphens and
/// underscores.
pub open spec fn is_label_id(id: Seq<char>) -> bool {
    1 <= id.len() <= 80 && forall|i: int|
        0 <= i < id.len() ==> ('a' <= #[trigger] id[i] && id[i] <= 'z') || ('0' <= id[i] && id[i]
            <= '9') || id[i] == '-' || id[i] == '_'
}

fn label_id_ok(id: &str) -> (r: bool)
    ensures
        r == is_label_id(id@),
{
    let cs = chars_of(id);
    let n: usize = cs.len();
    if n == 0 || n > 80 {
        return false;
    }
    let mut i: usize = 0;
    while i < n
        invariant
            i <= n,
            n == cs@.len(),
            cs@ == id@,
            forall|k: int|
                0 <= k < i ==> ('a' <= #[trigger] cs@[k] && cs@[k] <= 'z') || ('0' <= cs@[k]
                    && cs@[k] <= '9') || cs@[k] == '-' || cs@[k] == '_',
        decreases n - i,
    {
        let c: char = cs[i];
        if !(('a' <= c && c <= 'z') || ('0' <= c && c <= '9') || c == '-' || c == '_') {
            assert(id@[i as int] == c);
            return false;
        }
        i += 1;
    }
    true
}

pub open spec fn has_id(done: Seq<LabelModel>, id: Seq<char>) -> bool {
    exists|k: int| 0 <= k < done.len() && (#[trigger] done[k]).id == id
}

pub open spec fn has_name(done: Seq<LabelModel>, name: Seq<char>) -> bool {
    exists|k: int|
        0 <= k < done.len() && unicode_lower((#[trigger] done[k]).name) == unicode_lower(name)
}

pub open spec fn has_color(done: Seq<LabelModel>, hex: Seq<char>) -> bool {
    exists|k: int| 0 <= k < done.len() && (#[trigger] done[k]).hex == hex
}

/// One more definition after those already accepted: the catalog with it in canonical form, or
/// the first thing that is wrong with it.
pub open spec fn accept_label(done: Seq<LabelModel>, d: LabelModel) -> Result<
    Seq<LabelModel>,
    Seq<char>,
> {
    let id = trimmed(d.id);
    let name = trimmed(d.name);
    let hex = canonical_color(d.hex);
    if !is_label_id(id) {
        Err("invalid stable color label id: "@ + d.id)
    } else if has_id(done, id) {
        Err("duplicate color label id: "@ + id)
    } else if name.len() == 0 || name.len() > 48 {
        Err("color label "@ + id + " needs a name between 1 and 48 characters"@)
    } else if has_name(done, name) {
        Err("duplicate color label name: "@ + name)
    } else if !is_color(d.hex) {
        Err("invalid color label hex for "@ + id)
    } else if has_color(done, hex) {
        Err("duplicate color label hex: "@ + hex)
    } else {
        Ok(done.push(label(id, name, hex)))
    }
}

/// The whole catalog in canonical form, or what is wrong with its first bad definition.
pub open spec fn checked_catalog(defs: Seq<LabelModel>) -> Result<Seq<LabelModel>, Seq<char>>
    decreases defs.len(),
{
    if defs.len() == 0 {
        Ok(Seq::empty())
    } else {
        match checked_catalog(defs.drop_last()) {
            Ok(done) => accept_label(done, defs.last()),
            Err(e) => Err(e),
        }
    }
}

fn find_id(done: &Vec<ColorLabelDefinition>, id: &str) -> (r: bool)
    ensures
        r == has_id(labels_of(done@), id@),
{
    let n: usize = done.len();
    let mut i: usize = 0;
    let ghost all = labels_of(done@);
    while i < n
        invariant
            i <= n,
            n == done@.len(),
            all == labels_of(done@),
            forall|k: int| 0 <= k < i ==> (#[trigger] all[k]).id != id@,
        decreases n - i,
    {
        assert(all[i as int].id == done@[i as int].id@);
        if str_eq(done[i].id.as_str(), id) {
            return true;
        }
        i += 1;
    }
    false
}

fn find_name(done: &Vec<ColorLabelDefinition>, name: &str) -> (r: bool)
    ensures
        r == has_name(labels_of(done@), name@),
{
    let low = to_lowercase(name);
    let n: usize = done.len();
    let mut i: usize = 0;
    let ghost all = labels_of(done@);
    while i < n
        invariant
            i <= n,
            n == done@.len(),
            all == labels_of(done@),
            low@ == unicode_lower(name@),
            forall|k: int|
                0 <= k < i ==> unicode_lower((#[trigger] all[k]).name) != unicode_lower(name@),
        decreases n - i,
    {
        assert(all[i as int].name == done@[i as int].name@);
        let other = to_lowercase(done[i].name.as_str());
        if str_eq(other.as_str(), low.as_str()) {
            return true;
        }
        i += 1;
    }
    false
}

fn find_color(done: &Vec<ColorLabelDefinition>, hex: &str) -> (r: bool)
    ensures
        r == has_color(labels_of(done@), hex@),
{
    let n: usize = done.len();
    let mut i: usize = 0;
    let ghost all = labels_of(done@);
    while i < n
        invariant
            i <= n,
            n == done@.len(),
            all == labels_of(done@),
            forall|k: int| 0 <= k < i ==> (#[trigger] all[k]).hex != hex@,
        decreases n - i,
    {
        assert(all[i as int].hex == done@[i as int].hex@);
        if str_eq(done[i].hex.as_str(), hex) {
            return true;
        }
        i += 1;
    }
    false
}

/// Whether an outcome holds what a specification says: the same value, or the same message.
pub open spec fn catalog_outcome(
    r: Result<Vec<ColorLabelDefinition>, String>,
    s: Result<Seq<LabelModel>, Seq<char>>,
) -> bool {
    match (r, s) {
        (Ok(v), Ok(m)) => labels_of(v@) == m,
        (Err(e), Err(m)) => e@ == m,
        _ => false,
    }
}

/// Checks one definition and adds it to those accepted so far.
fn accept(done: &mut Vec<ColorLabelDefinition>, d: &ColorLabelDefinition) -> (r: Result<(), String>)
    ensures
        match accept_label(labels_of(old(done)@), d@) {
            Ok(m) => r is Ok && labels_of(final(done)@) == m,
            Err(e) => r matches Err(t) && t@ == e && final(done)@ == old(done)@,
        },
{
    let id = trim(d.id.as_str());
    if !label_id_ok(id.as_str()) {
        return Err(cat("invalid stable color label id: ", d.id.as_str()));
    }
    if find_id(done, id.as_str()) {
        return Err(cat("duplicate color label id: ", id.as_str()));
    }
    let name = trim(d.name.as_str());
    let count: usize = chars_of(name.as_str()).len();
    if count == 0 || count > 48 {
        return Err(
            cat3("color label ", id.as_str(), " needs a name between 1 and 48 characters"),
        );
    }
    if find_name(done, name.as_str()) {
        return Err(cat("duplicate color label name: ", name.as_str()));
    }
    let hex = match normalize_hex_color(d.hex.as_str()) {
        Some(c) => c.0,
        None => return Err(cat("invalid color label hex for ", id.as_str())),
    };
    if find_color(done, hex.as_str()) {
        return Err(cat("duplicate color label hex: ", hex.as_str()));
    }
    let ghost before = labels_of(done@);
    let entry = ColorLabelDefinition { id, name, hex };
    done.push(entry);
    assert(labels_of(done@) =~= before.push(entry@));
    Ok(())
}

pub fn validate_color_label_definitions(definitions: &Vec<ColorLabelDefinition>) -> (r: Result<
    Vec<ColorLabelDefinition>,
    String,
>)
    ensures
        catalog_outcome(r, checked_catalog(labels_of(definitions@))),
{
    let mut done: Vec<ColorLabelDefinition> = Vec::new();
    let n: usize = definitions.len();
    let mut i: usize = 0;
    let ghost all = labels_of(definitions@);
    assert(labels_of(done@) =~= Seq::<LabelModel>::empty());
    while i < n
        invariant
            i <= n,
            n == definitions@.len(),
            all == labels_of(definitions@),
            checked_catalog(all.take(i as int)) == Ok::<Seq<LabelModel>, Seq<char>>(
                labels_of(done@),
            ),
        decreases n - i,
    {
        proof {
            assert(all.take(i + 1).drop_last() =~= all.take(i as int));
            assert(all.take(i + 1).last() == definitions@[i as int]@);
        }
        if let Err(e) = accept(&mut done, &definitions[i]) {
            proof {
                lemma_error_stays(all, i + 1, e@);
            }
            return Err(e);
        }
        i += 1;
    }
    assert(all.take(n as int) =~= all);
    Ok(done)
}

proof fn lemma_error_stays(all: Seq<LabelModel>, i: int, e: Seq<char>)
    requires
        0 <= i <= all.len(),
        checked_catalog(all.take(i)) == Err::<Seq<LabelModel>, Seq<char>>(e),
    ensures
        checked_catalog(all) == Err::<Seq<LabelModel>, Seq<char>>(e),
    decreases all.len() - i,
{
    if i == all.len() {
        assert(all.take(i) =~= all);
    } else {
        assert(all.take(i + 1).drop_last() =~= all.take(i));
        lemma_error_stays(all, i + 1, e);
    }
}

/// Whether no two labels share an id, a name (case aside) or a color, and each is in canonical
/// form.
pub open spec fn is_catalog(defs: Seq<LabelModel>) -> bool {
    &&& forall|i: int|
        0 <= i < defs.len() ==> is_label_id((#[trigger] defs[i]).id) && trimmed(defs[i].name)
            == defs[i].name && 1 <= defs[i].name.len() <= 48 && is_color(defs[i].hex)
            && canonical_color(defs[i].hex) == defs[i].hex
    &&& forall|i: int, j: int|
        0 <= i < j < defs.len() ==> (#[trigger] defs[i]).id != (#[trigger] defs[j]).id
            && unicode_lower(defs[i].name) != unicode_lower(defs[j].name) && defs[i].hex
            != defs[j].hex
}

/// Whether every id of a list of labels can be a stable id.
pub open spec fn ids_valid(defs: Seq<LabelModel>) -> bool {
    forall|i: int| 0 <= i < defs.len() ==> is_label_id((#[trigger] defs[i]).id)
}

/// The ids of the built-in labels are stable ids.
pub proof fn built_in_ids_are_valid()
    ensures
        ids_valid(built_in_labels()),
{
    reveal_strlit("red");
    reveal_strlit("orange");
    reveal_strlit("yellow");
    reveal_strlit("green");
    reveal_strlit("blue");
    reveal_strlit("purple");
    reveal_strlit("gray");
    assert(is_label_id("red"@));
    assert(is_label_id("orange"@));
    assert(is_label_id("yellow"@));
    assert(is_label_id("green"@));
    assert(is_label_id("blue"@));
    assert(is_label_id("purple"@));
    assert(is_label_id("gray"@));
}

/// Trimming twice is trimming once.
pub proof fn trimming_is_idempotent(s: Seq<char>)
    ensures
        trimmed(trimmed(s)) == trimmed(s),
{
    lemma_trim_start_done(s);
    lemma_trim_end_done(trim_start(s));
}

proof fn lemma_trim_start_done(s: Seq<char>)
    ensures
        trim_start(s).len() > 0 ==> !is_white_space(trim_start(s)[0]),
    decreases s.len(),
{
    if s.len() > 0 && is_white_space(s[0]) {
        lemma_trim_start_done(s.drop_first());
    }
}

proof fn lemma_trim_end_done(s: Seq<char>)
    ensures
        trim_end(s).len() > 0 ==> !is_white_space(trim_end(s).last()),
        trim_end(s).len() > 0 ==> trim_end(s)[0] == s[0],
        trim_end(s).len() <= s.len(),
    decreases s.len(),
{
    if s.len() > 0 && is_white_space(s.last()) {
        lemma_trim_end_done(s.drop_last());
    }
}

/// The canonical form of a color is a color in canonical form.
pub proof fn canonical_color_is_canonical(raw: Seq<char>)
    requires
        is_color(raw),
    ensures
        is_color(canonical_color(raw)),
        canonical_color(canonical_color(raw)) == canonical_color(raw),
{
    reveal_strlit("#");
    let d = color_digits(raw);
    let u = ascii_upper(d);
    let c = canonical_color(raw);
    assert(c =~= seq!['#'] + u);
    assert(c.len() == 7);
    assert(is_hex_digit(d[5]));
    assert(c.last() == u[5]);
    assert(trim_start(c) == c);
    assert(trim_end(c) == c);
    assert(c.take(1) =~= "#"@);
    assert(c.skip(1) =~= u);
    assert forall|i: int| 0 <= i < 6 implies is_hex_digit(#[trigger] u[i]) by {
        assert(is_hex_digit(d[i]));
    }
    assert(ascii_upper(u) =~= u);
}

/// What validation accepts is a catalog.
pub proof fn accepted_catalog_is_consistent(defs: Seq<LabelModel>)
    requires
        checked_catalog(defs) is Ok,
    ensures
        is_catalog(checked_catalog(defs)->Ok_0),
        checked_catalog(defs)->Ok_0.len() == defs.len(),
    decreases defs.len(),
{
    if defs.len() > 0 {
        accepted_catalog_is_consistent(defs.drop_last());
        let done = checked_catalog(defs.drop_last())->Ok_0;
        let d = defs.last();
        let out = checked_catalog(defs)->Ok_0;
        trimming_is_idempotent(d.name);
        canonical_color_is_canonical(d.hex);
        assert(out.drop_last() =~= done);
        assert forall|i: int, j: int| 0 <= i < j < out.len() implies (#[trigger] out[i]).id != (
        #[trigger] out[j]).id && unicode_lower(out[i].name) != unicode_lower(out[j].name)
            && out[i].hex != out[j].hex by {
            assert(out[i] == done[i]);
            if j < done.len() {
                assert(out[j] == done[j]);
            }
        }
    }
}

/// Validation leaves a catalog as it is.
pub proof fn catalog_validates_to_itself(defs: Seq<LabelModel>)
    requires
        is_catalog(defs),
    ensures
        checked_catalog(defs) == Ok::<Seq<LabelModel>, Seq<char>>(defs),
    decreases defs.len(),
{
    if defs.len() == 0 {
        assert(defs =~= Seq::<LabelModel>::empty());
    } else {
        let done = defs.drop_last();
        let d = defs.last();
        assert(defs[defs.len() - 1] == d);
        assert forall|i: int, j: int| 0 <= i < j < done.len() implies (#[trigger] done[i]).id != (
        #[trigger] done[j]).id && unicode_lower(done[i].name) != unicode_lower(done[j].name)
            && done[i].hex != done[j].hex by {
            assert(done[i] == defs[i] && done[j] == defs[j]);
        }
        assert forall|i: int| 0 <= i < done.len() implies is_label_id((#[trigger] done[i]).id)
            && trimmed(done[i].name) == done[i].name && 1 <= done[i].name.len() <= 48 && is_color(
            done[i].hex,
        ) && canonical_color(done[i].hex) == done[i].hex by {
            assert(done[i] == defs[i]);
        }
        catalog_validates_to_itself(done);
        lemma_label_id_trimmed(d.id);
        assert(!has_id(done, d.id)) by {
            if has_id(done, d.id) {
                let k = choose|k: int| 0 <= k < done.len() && (#[trigger] done[k]).id == d.id;
                assert(defs[k].id != defs[defs.len() - 1].id);
            }
        }
        assert(!has_name(done, d.name)) by {
            if has_name(done, d.name) {
                let k = choose|k: int|
                    0 <= k < done.len() && unicode_lower((#[trigger] done[k]).name)
                        == unicode_lower(d.name);
                assert(defs[k].id != defs[defs.len() - 1].id);
            }
        }
        assert(!has_color(done, d.hex)) by {
            if has_color(done, d.hex) {
                let k = choose|k: int| 0 <= k < done.len() && (#[trigger] done[k]).hex == d.hex;
                assert(defs[k].id != defs[defs.len() - 1].id);
            }
        }
        assert(done.push(label(d.id, d.name, d.hex)) =~= defs);
    }
}

pub proof fn lemma_label_id_trimmed(id: Seq<char>)
    requires
        is_label_id(id),
    ensures
        trimmed(id) == id,
{
    assert(('a' <= id[0] && id[0] <= 'z') || ('0' <= id[0] && id[0] <= '9') || id[0] == '-' || id[0]
        == '_');
    let n = id.len() - 1;
    assert(('a' <= id[n] && id[n] <= 'z') || ('0' <= id[n] && id[n] <= '9') || id[n] == '-' || id[n]
        == '_');
    assert(id.last() == id[n]);
}

/// A label word in the fixed vocabulary: known words stay, white space clears, anything else is
/// gray.
pub open spec fn fixed_label(raw: Seq<char>) -> Option<Seq<char>> {
    let t = ascii_lower(trimmed(raw));
    if t.len() == 0 {
        None
    } else if t == "red"@ || t == "orange"@ || t == "yellow"@ || t == "green"@ || t == "blue"@ || t
        == "purple"@ {
        Some(t)
    } else {
        Some("gray"@)
    }
}

pub fn normalize_label(raw: &str) -> (r: Option<&'static str>)
    ensures
        match r {
            Some(w) => fixed_label(raw@) == Some(w@),
            None => fixed_label(raw@) is None,
        },
{
    let tidy = trim(raw);
    let t = to_ascii_lowercase(tidy.as_str());
    let w = t.as_str();
    if w.is_empty() {
        None
    } else if str_eq(w, "red") {
        Some("red")
    } else if str_eq(w, "orange") {
        Some("orange")
    } else if str_eq(w, "yellow") {
        Some("yellow")
    } else if str_eq(w, "green") {
        Some("green")
    } else if str_eq(w, "blue") {
        Some("blue")
    } else if str_eq(w, "purple") {
        Some("purple")
    } else {
        Some("gray")
    }
}

/// Whether a text names a label by its id or by its visible name, ASCII case aside.
pub open spec fn names_label(d: LabelModel, value: Seq<char>) -> bool {
    ascii_lower(d.id) == ascii_lower(value) || ascii_lower(d.name) == ascii_lower(value)
}

/// The id of the first label that a text names.
pub open spec fn label_named(defs: Seq<LabelModel>, value: Seq<char>) -> Option<Seq<char>>
    decreases defs.len(),
{
    if defs.len() == 0 {
        None
    } else if names_label(defs[0], value) {
        Some(defs[0].id)
    } else {
        label_named(defs.drop_first(), value)
    }
}

pub fn find_label(defs: &Vec<ColorLabelDefinition>, value: &str) -> (r: Option<String>)
    ensures
        crate::text::opt_text(r) == label_named(labels_of(defs@), value@),
{
    let n: usize = defs.len();
    let mut i: usize = 0;
    let ghost all = labels_of(defs@);
    assert(all.skip(0) =~= all);
    while i < n
        invariant
            i <= n,
            n == defs@.len(),
            all == labels_of(defs@),
            label_named(all, value@) == label_named(all.skip(i as int), value@),
        decreases n - i,
    {
        assert(all.skip(i as int)[0] == defs@[i as int]@);
        if eq_ignore_ascii_case(defs[i].id.as_str(), value) || eq_ignore_ascii_case(
            defs[i].name.as_str(),
            value,
        ) {
            return Some(defs[i].id.clone());
        }
        assert(all.skip(i as int).drop_first() =~= all.skip(i + 1));
        i += 1;
    }
    None
}

/// The ids without white space around them, empty ones and repetitions left out.
pub open spec fn tidy_ids(ids: Seq<Seq<char>>) -> Seq<Seq<char>>
    decreases ids.len(),
{
    if ids.len() == 0 {
        Seq::empty()
    } else {
        let done = tidy_ids(ids.drop_last());
        let id = trimmed(ids.last());
        if id.len() == 0 || done.contains(id) {
            done
        } else {
            done.push(id)
        }
    }
}

/// The label ids of a stored row: a JSON list, or a single word of an older form.
pub open spec fn decoded_ids(raw: Seq<char>) -> Seq<Seq<char>> {
    let value = trimmed(raw);
    if value.len() == 0 {
        Seq::empty()
    } else if begins(value, "["@) {
        match strings_of_json(value) {
            Some(list) => tidy_ids(list),
            None => Seq::empty(),
        }
    } else {
        tidy_ids(seq![value])
    }
}

pub fn list_contains(list: &Vec<String>, id: &str) -> (r: bool)
    ensures
        r == texts(list@).contains(id@),
{
    let n: usize = list.len();
    let mut i: usize = 0;
    let ghost all = texts(list@);
    while i < n
        invariant
            i <= n,
            n == list@.len(),
            all == texts(list@),
            forall|k: int| 0 <= k < i ==> #[trigger] all[k] != id@,
        decreases n - i,
    {
        assert(all[i as int] == list@[i as int]@);
        if str_eq(list[i].as_str(), id) {
            return true;
        }
        i += 1;
    }
    false
}

/// A list of label ids, tidied.
pub fn tidy_label_ids(ids: &Vec<String>) -> (r: Vec<String>)
    ensures
        texts(r@) == tidy_ids(texts(ids@)),
{
    let mut done: Vec<String> = Vec::new();
    let n: usize = ids.len();
    let mut i: usize = 0;
    let ghost all = texts(ids@);
    assert(texts(done@) =~= Seq::<Seq<char>>::empty());
    while i < n
        invariant
            i <= n,
            n == ids@.len(),
            all == texts(ids@),
            texts(done@) == tidy_ids(all.take(i as int)),
        decreases n - i,
    {
        proof {
            assert(all.take(i + 1).drop_last() =~= all.take(i as int));
            assert(all.take(i + 1).last() == ids@[i as int]@);
        }
        let id = trim(ids[i].as_str());
        let ghost before = texts(done@);
        if !id.as_str().is_empty() && !list_contains(&done, id.as_str()) {
            done.push(id);
            assert(texts(done@) =~= before.push(id@));
        }
        i += 1;
    }
    assert(all.take(n as int) =~= all);
    done
}

/// The label ids of a stored row, in order and without repetition.
pub fn decode_label_ids(raw: &str) -> (r: Vec<String>)
    ensures
        texts(r@) == decoded_ids(raw@),
{
    let value = trim(raw);
    if value.as_str().is_empty() {
        let r: Vec<String> = Vec::new();
        assert(texts(r@) =~= Seq::<Seq<char>>::empty());
        return r;
    }
    if starts_with(value.as_str(), "[") {
        match strings_from_json(value.as_str()) {
            Ok(list) => tidy_label_ids(&list),
            Err(_) => {
                let r: Vec<String> = Vec::new();
                assert(texts(r@) =~= Seq::<Seq<char>>::empty());
                r
            },
        }
    } else {
        let mut one: Vec<String> = Vec::new();
        one.push(value);
        assert(texts(one@) =~= seq![value@]);
        tidy_label_ids(&one)
    }
}

/// The row for a list of label ids. Reading the row gives the list back, tidied.
pub fn encode_label_ids(ids: &Vec<String>) -> (r: String)
    ensures
        r@ == json_of_strings(texts(ids@)),
        decoded_ids(r@) == tidy_ids(texts(ids@)),
        trimmed(r@).len() > 0,
{
    match strings_to_json(ids) {
        Ok(text) => {
            proof {
                reveal_strlit("[");
                assert(!is_white_space('[') && !is_white_space(']'));
                assert(trimmed(text@) == text@);
                assert(text@.take(1) =~= "["@);
            }
            text
        },
        Err(_) => String::new(),
    }
}

/// A list that is tidy already.
pub open spec fn is_tidy(ids: Seq<Seq<char>>) -> bool {
    &&& forall|i: int|
        0 <= i < ids.len() ==> (#[trigger] ids[i]).len() > 0 && trimmed(ids[i]) == ids[i]
    &&& forall|i: int, j: int|
        0 <= i < j < ids.len() ==> #[trigger] ids[i] != #[trigger] ids[j]
}

/// Tidying makes a list tidy.
pub proof fn tidying_makes_tidy(ids: Seq<Seq<char>>)
    ensures
        is_tidy(tidy_ids(ids)),
    decreases ids.len(),
{
    if ids.len() > 0 {
        tidying_makes_tidy(ids.drop_last());
        let done = tidy_ids(ids.drop_last());
        let id = trimmed(ids.last());
        trimming_is_idempotent(ids.last());
        if id.len() > 0 && !done.contains(id) {
            let out = done.push(id);
            assert forall|i: int, j: int| 0 <= i < j < out.len() implies #[trigger] out[i]
                != #[trigger] out[j] by {
                assert(out[i] == done[i]);
                if j < done.len() {
                    assert(out[j] == done[j]);
                }
            }
        }
    }
}

/// Tidying leaves a tidy list as it is.
pub proof fn tidy_lists_stay(ids: Seq<Seq<char>>)
    requires
        is_tidy(ids),
    ensures
        tidy_ids(ids) == ids,
    decreases ids.len(),
{
    if ids.len() == 0 {
        assert(ids =~= Seq::<Seq<char>>::empty());
    } else {
        let done = ids.drop_last();
        assert forall|i: int| 0 <= i < done.len() implies (#[trigger] done[i]).len() > 0
            && trimmed(done[i]) == done[i] by {
            assert(done[i] == ids[i]);
        }
        assert forall|i: int, j: int| 0 <= i < j < done.len() implies #[trigger] done[i]
            != #[trigger] done[j] by {
            assert(done[i] == ids[i] && done[j] == ids[j]);
        }
        tidy_lists_stay(done);
        let n = ids.len() - 1;
        assert(ids[n] == ids.last());
        assert(!done.contains(ids.last())) by {
            if done.contains(ids.last()) {
                let k = done.index_of(ids.last());
                assert(done[k] == ids[k]);
                assert(ids[k] != ids[n]);
            }
        }
        assert(done.push(ids.last()) =~= ids);
    }
}

/// The ids that a list of ids and names stands for, in order and without repetition, or a message
/// about the first one that names no label.
pub open spec fn assigned_ids(defs: Seq<LabelModel>, raws: Seq<Seq<char>>) -> Result<
    Seq<Seq<char>>,
    Seq<char>,
>
    decreases raws.len(),
{
    if raws.len() == 0 {
        Ok(Seq::empty())
    } else {
        match assigned_ids(defs, raws.drop_last()) {
            Err(e) => Err(e),
            Ok(done) => {
                let value = trimmed(raws.last());
                if value.len() == 0 {
                    Ok(done)
                } else {
                    match label_named(defs, value) {
                        None => Err("unknown stable color-label id or name: "@ + value),
                        Some(id) => if done.contains(id) {
                            Ok(done)
                        } else {
                            Ok(done.push(id))
                        },
                    }
                }
            },
        }
    }
}

/// Whether an outcome holds the list or the message of a specification.
pub open spec fn list_outcome(
    r: Result<Vec<String>, String>,
    s: Result<Seq<Seq<char>>, Seq<char>>,
) -> bool {
    match (r, s) {
        (Ok(v), Ok(m)) => texts(v@) == m,
        (Err(e), Err(m)) => e@ == m,
        _ => false,
    }
}

pub fn normalize_assigned_label_ids(defs: &Vec<ColorLabelDefinition>, labels: &Vec<String>) -> (r:
    Result<Vec<String>, String>)
    ensures
        list_outcome(r, assigned_ids(labels_of(defs@), texts(labels@))),
{
    let mut done: Vec<String> = Vec::new();
    let n: usize = labels.len();
    let mut i: usize = 0;
    let ghost all = texts(labels@);
    let ghost ds = labels_of(defs@);
    assert(texts(done@) =~= Seq::<Seq<char>>::empty());
    while i < n
        invariant
            i <= n,
            n == labels@.len(),
            all == texts(labels@),
            ds == labels_of(defs@),
            assigned_ids(ds, all.take(i as int)) == Ok::<Seq<Seq<char>>, Seq<char>>(texts(done@)),
        decreases n - i,
    {
        proof {
            assert(all.take(i + 1).drop_last() =~= all.take(i as int));
            assert(all.take(i + 1).last() == labels@[i as int]@);
        }
        let value = trim(labels[i].as_str());
        if !value.as_str().is_empty() {
            let ghost before = texts(done@);
            match find_label(defs, value.as_str()) {
                None => {
                    let e = cat("unknown stable color-label id or name: ", value.as_str());
                    proof {
                        lemma_assigned_error_stays(ds, all, i + 1, e@);
                    }
                    return Err(e);
                },
                Some(id) => {
                    if !list_contains(&done, id.as_str()) {
                        done.push(id);
                        assert(texts(done@) =~= before.push(id@));
                    }
                },
            }
        }
        i += 1;
    }
    assert(all.take(n as int) =~= all);
    Ok(done)
}

proof fn lemma_assigned_error_stays(
    defs: Seq<LabelModel>,
    all: Seq<Seq<char>>,
    i: int,
    e: Seq<char>,
)
    requires
        0 <= i <= all.len(),
        assigned_ids(defs, all.take(i)) == Err::<Seq<Seq<char>>, Seq<char>>(e),
    ensures
        assigned_ids(defs, all) == Err::<Seq<Seq<char>>, Seq<char>>(e),
    decreases all.len() - i,
{
    if i == all.len() {
        assert(all.take(i) =~= all);
    } else {
        assert(all.take(i + 1).drop_last() =~= all.take(i));
        lemma_assigned_error_stays(defs, all, i + 1, e);
    }
}

/// The ids assigned from a catalog are ids of the catalog, each once, and already tidy.
pub proof fn assigned_ids_are_tidy(defs: Seq<LabelModel>, raws: Seq<Seq<char>>)
    requires
        ids_valid(defs),
        assigned_ids(defs, raws) is Ok,
    ensures
        is_tidy(assigned_ids(defs, raws)->Ok_0),
        forall|i: int|
            0 <= i < assigned_ids(defs, raws)->Ok_0.len() ==> has_id(
                defs,
                #[trigger] assigned_ids(defs, raws)->Ok_0[i],
            ),
    decreases raws.len(),
{
    if raws.len() > 0 {
        assigned_ids_are_tidy(defs, raws.drop_last());
        let done = assigned_ids(defs, raws.drop_last())->Ok_0;
        let value = trimmed(raws.last());
        if value.len() > 0 {
            let id = label_named(defs, value)->0;
            lemma_label_named_is_known(defs, value);
            let k = choose|k: int| 0 <= k < defs.len() && (#[trigger] defs[k]).id == id;
            lemma_label_id_trimmed(defs[k].id);
            if !done.contains(id) {
                let out = done.push(id);
                assert forall|i: int, j: int| 0 <= i < j < out.len() implies #[trigger] out[i]
                    != #[trigger] out[j] by {
                    assert(out[i] == done[i]);
                    if j < done.len() {
                        assert(out[j] == done[j]);
                    }
                }
                assert forall|i: int| 0 <= i < out.len() implies (#[trigger] out[i]).len() > 0
                    && trimmed(out[i]) == out[i] && has_id(defs, out[i]) by {
                    if i < done.len() {
                        assert(out[i] == done[i]);
                    }
                }
            }
        }
    }
}

pub proof fn lemma_label_named_is_known(defs: Seq<LabelModel>, value: Seq<char>)
    requires
        label_named(defs, value) is Some,
    ensures
        has_id(defs, label_named(defs, value)->0),
    decreases defs.len(),
{
    if !names_label(defs[0], value) {
        lemma_label_named_is_known(defs.drop_first(), value);
        let t = defs.drop_first();
        let k = choose|k: int|
            0 <= k < t.len() && (#[trigger] t[k]).id == label_named(t, value)->0;
        assert(defs[k + 1].id == label_named(defs, value)->0);
    }
}

/// A definition as a JSON object.
pub open spec fn label_json(d: LabelModel) -> Seq<char> {
    "{\"id\":"@ + json_of_string(d.id) + ",\"name\":"@ + json_of_string(d.name) + ",\"hex\":"@
        + json_of_string(d.hex) + "}"@
}

/// A catalog as a JSON list.
pub open spec fn catalog_json(defs: Seq<LabelModel>) -> Seq<char> {
    "["@ + joined(Seq::new(defs.len(), |i: int| label_json(defs[i])), ","@) + "]"@
}

fn string_json(text: &str) -> (r: String)
    ensures
        r@ == json_of_string(text@),
{
    match string_to_json(text) {
        Ok(r) => r,
        Err(_) => String::new(),
    }
}

/// Writes a catalog as it is stored.
pub fn encode_catalog(defs: &Vec<ColorLabelDefinition>) -> (r: String)
    ensures
        r@ == catalog_json(labels_of(defs@)),
{
    let ghost all = labels_of(defs@);
    let ghost want = Seq::new(all.len(), |i: int| label_json(all[i]));
    let mut pieces: Vec<String> = Vec::new();
    let n: usize = defs.len();
    let mut i: usize = 0;
    assert(texts(pieces@) =~= want.take(0));
    while i < n
        invariant
            i <= n,
            n == defs@.len(),
            all == labels_of(defs@),
            want == Seq::new(all.len(), |j: int| label_json(all[j])),
            texts(pieces@) == want.take(i as int),
        decreases n - i,
    {
        let d = &defs[i];
        let ghost before = texts(pieces@);
        let id = string_json(d.id.as_str());
        let name = string_json(d.name.as_str());
        let hex = string_json(d.hex.as_str());
        let mut piece = cat3("{\"id\":", id.as_str(), ",\"name\":");
        piece.append(name.as_str());
        piece.append(",\"hex\":");
        piece.append(hex.as_str());
        piece.append("}");
        proof {
            assert(all[i as int] == d@);
            assert(piece@ == want[i as int]);
        }
        pieces.push(piece);
        proof {
            assert(texts(pieces@) =~= before.push(piece@));
            assert(want.take(i + 1) =~= want.take(i as int).push(want[i as int]));
        }
        i += 1;
    }
    assert(want.take(n as int) =~= want);
    let body = join(&pieces, ",");
    cat3("[", body.as_str(), "]")
}

} // verus!
