//! Which files a client may be shown: those below the allowed roots.

use crate::paths::{
    file_name, file_name_of, join_path, joined_path, lies_under, parent, parent_of,
    path_starts_with, PathStyle,
};
use crate::text::{cat, texts};
use vstd::prelude::*;

verus! {

/// A folder above a path, and the names that lead from it back down, the deepest first.
#[derive(Debug)]
pub struct Ancestor {
    pub path: String,
    pub tail: Vec<String>,
}

#[verifier::ext_equal]
pub ghost struct AncestorModel {
    pub path: Seq<char>,
    pub tail: Seq<Seq<char>>,
}

impl View for Ancestor {
    type V = AncestorModel;

    open spec fn view(&self) -> AncestorModel {
        AncestorModel { path: self.path@, tail: texts(self.tail@) }
    }
}

pub open spec fn ancestor_models(v: Seq<Ancestor>) -> Seq<AncestorModel> {
    v.map_values(|a: Ancestor| a@)
}

/// The path itself and the folders above it, from the path upwards.
pub open spec fn ancestors(style: PathStyle, path: Seq<char>, tail: Seq<Seq<char>>) -> Seq<
    AncestorModel,
>
    decreases path.len(),
{
    if path.len() == 0 {
        Seq::empty()
    } else {
        let longer = match file_name_of(style, path) {
            Some(name) => tail.push(name),
            None => tail,
        };
        let above = match parent_of(style, path) {
            Some(p) => if p.len() < path.len() {
                ancestors(style, p, longer)
            } else {
                Seq::empty()
            },
            None => Seq::empty(),
        };
        seq![AncestorModel { path, tail }] + above
    }
}

fn copy_texts(v: &Vec<String>) -> (r: Vec<String>)
    ensures
        texts(r@) == texts(v@),
{
    let mut out: Vec<String> = Vec::new();
    let n: usize = v.len();
    let mut i: usize = 0;
    while i < n
        invariant
            i <= n,
            n == v@.len(),
            out@.len() == i,
            forall|j: int| 0 <= j < i ==> (#[trigger] out@[j])@ == v@[j]@,
        decreases n - i,
    {
        out.push(v[i].clone());
        i += 1;
    }
    assert(texts(out@) =~= texts(v@));
    out
}

/// The places to try, in order, when a path that may not exist is to be resolved: the path itself
/// and the folders above it.
pub fn resolution_candidates(style: PathStyle, path: &str) -> (r: Vec<Ancestor>)
    ensures
        ancestor_models(r@) == ancestors(style, path@, Seq::empty()),
{
    let mut out: Vec<Ancestor> = Vec::new();
    let mut current = path.to_owned();
    let mut tail: Vec<String> = Vec::new();
    let ghost all = ancestors(style, path@, Seq::empty());
    let mut done: bool = false;
    assert(texts(tail@) =~= Seq::<Seq<char>>::empty());
    assert(ancestor_models(out@) + ancestors(style, current@, texts(tail@)) =~= all);
    while !done && !current.as_str().is_empty()
        invariant
            !done ==> ancestor_models(out@) + ancestors(style, current@, texts(tail@)) == all,
            done ==> ancestor_models(out@) == all,
        decreases current@.len(), if done { 0int } else { 1int },
    {
        let ghost so_far = ancestor_models(out@);
        let ghost here = AncestorModel { path: current@, tail: texts(tail@) };
        out.push(Ancestor { path: current.clone(), tail: copy_texts(&tail) });
        assert(ancestor_models(out@) =~= so_far.push(here));
        if let Some(name) = file_name(style, current.as_str()) {
            let ghost before = texts(tail@);
            let ghost added = name@;
            tail.push(name);
            assert(texts(tail@) =~= before.push(added));
        }
        match parent(style, current.as_str()) {
            Some(p) => {
                if p.as_str().unicode_len() < current.as_str().unicode_len() {
                    let ghost rest = ancestors(style, p@, texts(tail@));
                    assert(so_far.push(here) + rest =~= so_far + (seq![here] + rest));
                    current = p;
                } else {
                    assert(so_far.push(here) =~= so_far + seq![here]);
                    done = true;
                }
            },
            None => {
                assert(so_far.push(here) =~= so_far + seq![here]);
                done = true;
            },
        }
    }
    assert(ancestor_models(out@) =~= all);
    out
}

/// A resolved folder with the names that lead back down.
pub open spec fn rejoined(style: PathStyle, base: Seq<char>, tail: Seq<Seq<char>>) -> Seq<char>
    decreases tail.len(),
{
    if tail.len() == 0 {
        base
    } else {
        rejoined(style, joined_path(style, base, tail.last()), tail.drop_last())
    }
}

/// The path that was asked for, below the resolved form of one of its candidates.
pub fn rejoin(style: PathStyle, resolved: &str, candidate: &Ancestor) -> (r: String)
    ensures
        r@ == rejoined(style, resolved@, candidate@.tail),
{
    let mut out = resolved.to_owned();
    let ghost tail = texts(candidate.tail@);
    let mut i: usize = candidate.tail.len();
    assert(tail.take(i as int) =~= tail);
    while i > 0
        invariant
            i <= candidate.tail@.len(),
            tail == texts(candidate.tail@),
            rejoined(style, out@, tail.take(i as int)) == rejoined(style, resolved@, tail),
        decreases i,
    {
        i -= 1;
        assert(tail.take(i + 1).last() == candidate.tail@[i as int]@);
        assert(tail.take(i + 1).drop_last() =~= tail.take(i as int));
        out = join_path(style, out.as_str(), candidate.tail[i].as_str());
    }
    out
}

/// Whether a path lies under one of the roots.
pub open spec fn is_allowed(style: PathStyle, path: Seq<char>, roots: Seq<Seq<char>>) -> bool {
    exists|i: int| 0 <= i < roots.len() && lies_under(style, path, #[trigger] roots[i])
}

/// Lets a resolved path through that lies under one of the resolved roots.
pub fn guard_path_under(style: PathStyle, canonical: &str, roots: &Vec<String>) -> (r: Result<
    String,
    String,
>)
    ensures
        match r {
            Ok(p) => is_allowed(style, canonical@, texts(roots@)) && p@ == canonical@,
            Err(e) => !is_allowed(style, canonical@, texts(roots@)) && e@
                == "path escapes allowed roots: "@ + canonical@,
        },
{
    let n: usize = roots.len();
    let mut i: usize = 0;
    while i < n
        invariant
            i <= n,
            n == roots@.len(),
            forall|j: int|
                0 <= j < i ==> !lies_under(style, canonical@, #[trigger] texts(roots@)[j]),
        decreases n - i,
    {
        if path_starts_with(style, canonical, roots[i].as_str()) {
            assert(lies_under(style, canonical@, texts(roots@)[i as int]));
            return Ok(canonical.to_owned());
        }
        assert(texts(roots@)[i as int] == roots@[i as int]@);
        i += 1;
    }
    Err(cat("path escapes allowed roots: ", canonical))
}

} // verus!
