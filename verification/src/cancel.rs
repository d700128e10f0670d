//! Signals to stop work while it runs.

use vstd::prelude::*;

verus! {

/// A question that long work asks again and again, whether it should stop, with the answers that
/// were given so far.
pub struct CancelSignal<F: FnMut() -> bool> {
    is_cancelled: F,
    answers: Ghost<Seq<bool>>,
}

/// Whether work during which the answers grew from `before` to `after` did as it was told: it went
/// on after every `false`, and stopped at once at the first `true`, and only there.
pub open spec fn obeyed(before: Seq<bool>, after: Seq<bool>, stopped: bool) -> bool {
    &&& before.len() <= after.len()
    &&& after.take(before.len() as int) == before
    &&& forall|i: int| before.len() <= i < after.len() - 1 ==> !#[trigger] after[i]
    &&& stopped <==> before.len() < after.len() && after.last()
}

/// Where any answer was to stop, it was the last one asked for, and the work stopped; where none
/// was, the work was done.
pub proof fn the_first_yes_is_the_last_answer(before: Seq<bool>, after: Seq<bool>, stopped: bool)
    requires
        obeyed(before, after, stopped),
    ensures
        stopped <==> exists|i: int| before.len() <= i < after.len() && #[trigger] after[i],
        forall|i: int|
            before.len() <= i < after.len() && #[trigger] after[i] ==> i == after.len() - 1,
{
    if stopped {
        assert(after[after.len() - 1]);
    }
}

/// Before the first answer there is nothing to obey.
pub(crate) proof fn lemma_nothing_asked(before: Seq<bool>)
    ensures
        obeyed(before, before, false),
{
    assert(before.take(before.len() as int) =~= before);
}

/// One more answer, after answers that all were to go on.
pub(crate) proof fn lemma_one_more(before: Seq<bool>, after: Seq<bool>, answer: bool)
    requires
        obeyed(before, after, false),
    ensures
        obeyed(before, after.push(answer), answer),
{
    let more = after.push(answer);
    assert(more.take(before.len() as int) =~= after.take(before.len() as int));
    assert forall|i: int| before.len() <= i < more.len() - 1 implies !#[trigger] more[i] by {
        assert(more[i] == after[i]);
        assert(i < after.len() - 1 || after[i] == after.last());
    }
}

/// Work that goes on in a part of its own obeys throughout.
pub(crate) proof fn lemma_obeyed_further(
    before: Seq<bool>,
    mid: Seq<bool>,
    after: Seq<bool>,
    stopped: bool,
)
    requires
        obeyed(before, mid, false),
        obeyed(mid, after, stopped),
    ensures
        obeyed(before, after, stopped),
{
    assert(after.take(before.len() as int) =~= mid.take(before.len() as int)) by {
        assert forall|i: int| 0 <= i < before.len() implies after[i] == mid[i] by {
            assert(after.take(mid.len() as int)[i] == after[i]);
        }
    }
    assert forall|i: int| before.len() <= i < mid.len() implies !#[trigger] after[i] by {
        assert(after.take(mid.len() as int)[i] == after[i]);
        assert(mid[i] == after[i]);
        assert(i < mid.len() - 1 || mid[i] == mid.last());
    }
}

impl<F: FnMut() -> bool> CancelSignal<F> {
    /// The answers so far, the first one first.
    pub closed spec fn answers(&self) -> Seq<bool> {
        self.answers@
    }

    /// What gives the answers.
    pub closed spec fn source(&self) -> F {
        self.is_cancelled
    }

    /// The question can be asked, and every answer so far is one that its source can give.
    pub open spec fn wf(&self) -> bool {
        &&& call_requires(self.source(), ())
        &&& forall|i: int|
            0 <= i < self.answers().len() ==> call_ensures(
                self.source(),
                (),
                #[trigger] self.answers()[i],
            )
    }

    /// A signal that has not been asked yet.
    pub fn new(is_cancelled: F) -> (r: Self)
        requires
            call_requires(is_cancelled, ()),
        ensures
            r.wf(),
            r.answers() == Seq::<bool>::empty(),
            r.source() == is_cancelled,
    {
        CancelSignal { is_cancelled, answers: Ghost(Seq::empty()) }
    }

    /// Asks once more.
    pub fn ask(&mut self) -> (r: bool)
        requires
            old(self).wf(),
        ensures
            final(self).wf(),
            final(self).source() == old(self).source(),
            final(self).answers() == old(self).answers().push(r),
    {
        let r = (self.is_cancelled)();
        self.answers = Ghost(self.answers@.push(r));
        assert forall|i: int| 0 <= i < self.answers().len() implies call_ensures(
            self.source(),
            (),
            #[trigger] self.answers()[i],
        ) by {
            if i + 1 < self.answers().len() {
                assert(self.answers()[i] == old(self).answers()[i]);
            }
        }
        r
    }
}

} // verus!
