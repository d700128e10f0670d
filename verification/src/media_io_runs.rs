//! What holds over any run of calls on the I/O coordinator: a request hands out one permit at most,
//! its end is final, and the counters of a root add up.

use crate::media_io::{
    discarded, freed, granted, grants, lemma_position, lemma_position_found, position, sat, swept, ClassStats, CoordinatorModel,
    PermitOutcome, QueueEntry, ReleaseOutcomeDiagnostics, RequestStatus, RootKey, RootLimits,
    RootModel, WorkClass,
};
use vstd::prelude::*;

verus! {

/// A call that changes the coordinator, with the time at which it takes effect.
pub ghost enum CoordinatorCall {
    Enqueue { root: RootKey, class: WorkClass, now: u64 },
    /// A permit is asked for, by polling or by waiting.
    Acquire { id: u64 },
    Cancel { root: RootKey, id: u64, class: WorkClass, now: u64 },
    /// The request is dropped.
    GiveUp { root: RootKey, id: u64, class: WorkClass, now: u64 },
    /// A permit ends.
    Release { root: RootKey, class: WorkClass, outcome: PermitOutcome, now: u64 },
    BeginPlayback { root: RootKey, now: u64 },
    EndPlayback { root: RootKey, now: u64 },
    Refresh { order: Seq<RootKey>, now: u64 },
    Wake { root: RootKey, now: u64 },
    /// Counters of cache hits or filesystem work are stored.
    Count { root: RootKey, class: WorkClass, stats: ClassStats },
}

/// The coordinator after a call.
pub open spec fn after_call(m: CoordinatorModel, call: CoordinatorCall) -> CoordinatorModel {
    match call {
        CoordinatorCall::Enqueue { root, class, now } => m.enqueued(root, class, now),
        CoordinatorCall::Acquire { id } => m.acquired(id),
        CoordinatorCall::Cancel { root, id, class, now } => m.cancelled(root, id, class, now),
        CoordinatorCall::GiveUp { root, id, class, now } => m.given_up(root, id, class, now),
        CoordinatorCall::Release { root, class, outcome, now } => m.released(
            root,
            class,
            outcome,
            now,
        ),
        CoordinatorCall::BeginPlayback { root, now } => m.playback_begun(root, now),
        CoordinatorCall::EndPlayback { root, now } => m.playback_ended(root, now),
        CoordinatorCall::Refresh { order, now } => m.refreshed(order, now),
        CoordinatorCall::Wake { root, now } => m.woken(root, now),
        CoordinatorCall::Count { root, class, stats } => m.with_stats(root, class, stats),
    }
}

/// The coordinator after a run of calls.
pub open spec fn after_calls(m: CoordinatorModel, calls: Seq<CoordinatorCall>) -> CoordinatorModel
    decreases calls.len(),
{
    if calls.len() == 0 {
        m
    } else {
        after_calls(after_call(m, calls[0]), calls.drop_first())
    }
}

/// Whether a call hands out the permit of a request.
pub open spec fn hands_out(m: CoordinatorModel, call: CoordinatorCall, id: u64) -> bool {
    call == (CoordinatorCall::Acquire { id }) && m.requests.contains_key(id) && m.requests[id]
        == RequestStatus::Granted
}

/// How many permits of a request a run of calls hands out.
pub open spec fn permits_given(m: CoordinatorModel, calls: Seq<CoordinatorCall>, id: u64) -> nat
    decreases calls.len(),
{
    if calls.len() == 0 {
        0
    } else {
        let rest = permits_given(after_call(m, calls[0]), calls.drop_first(), id);
        if hands_out(m, calls[0], id) {
            rest + 1
        } else {
            rest
        }
    }
}

/// Whether no request of a run gets this number. The numbers begin anew only after all of them have
/// been used.
pub open spec fn is_not_reused(m: CoordinatorModel, calls: Seq<CoordinatorCall>, id: u64) -> bool
    decreases calls.len(),
{
    calls.len() > 0 ==> {
        &&& calls[0] is Enqueue ==> m.next_request_id != id
        &&& is_not_reused(after_call(m, calls[0]), calls.drop_first(), id)
    }
}

/// What may become of a request: a pending one may be granted, a pending or granted one cancelled,
/// a granted one consumed, and any forgotten.
pub open spec fn may_become(
    before: Map<u64, RequestStatus>,
    after: Map<u64, RequestStatus>,
    id: u64,
) -> bool {
    if !after.contains_key(id) {
        true
    } else {
        &&& before.contains_key(id)
        &&& after[id] == before[id] || match before[id] {
            RequestStatus::Pending => after[id] == RequestStatus::Granted || after[id]
                == RequestStatus::Cancelled,
            RequestStatus::Granted => after[id] == RequestStatus::Consumed || after[id]
                == RequestStatus::Cancelled,
            _ => false,
        }
    }
}

/// Granting changes no requests but pending ones, to granted.
proof fn lemma_grants_requests(
    limits: RootLimits,
    burst: u32,
    r: RootModel,
    requests: Map<u64, RequestStatus>,
    now: u64,
    id: u64,
)
    ensures
        ({
            let after = grants(limits, burst, r, requests, now).1;
            &&& after.contains_key(id) <==> requests.contains_key(id)
            &&& after.contains_key(id) ==> after[id] == requests[id] || (requests[id]
                == RequestStatus::Pending && after[id] == RequestStatus::Granted)
        }),
    decreases r.queue.len(),
{
    match crate::media_io::next_entry(limits, burst, r, now) {
        Some(i) => if r.active_total() < limits.total && 0 <= i < r.queue.len() {
            let x = r.queue[i].id;
            if requests.contains_key(x) && requests[x] == RequestStatus::Pending {
                lemma_grants_requests(
                    limits,
                    burst,
                    granted(r, i, now),
                    requests.insert(x, RequestStatus::Granted),
                    now,
                    id,
                );
            } else {
                lemma_grants_requests(limits, burst, discarded(r, i), requests, now, id);
            }
        },
        None => {},
    }
}

proof fn lemma_settle_requests(m: CoordinatorModel, k: RootKey, r: RootModel, now: u64, id: u64)
    ensures
        ({
            let after = m.settle(k, r, now).requests;
            &&& after.contains_key(id) <==> m.requests.contains_key(id)
            &&& after.contains_key(id) ==> after[id] == m.requests[id] || (m.requests[id]
                == RequestStatus::Pending && after[id] == RequestStatus::Granted)
        }),
{
    lemma_grants_requests(
        m.policy.limits_of(k.kind),
        m.policy.priority_burst,
        swept(r, m.requests),
        m.requests,
        now,
        id,
    );
}

proof fn lemma_refreshed_requests(m: CoordinatorModel, order: Seq<RootKey>, now: u64, id: u64)
    ensures
        ({
            let after = m.refreshed(order, now).requests;
            &&& after.contains_key(id) <==> m.requests.contains_key(id)
            &&& after.contains_key(id) ==> after[id] == m.requests[id] || (m.requests[id]
                == RequestStatus::Pending && after[id] == RequestStatus::Granted)
        }),
    decreases order.len(),
{
    if order.len() > 0 {
        lemma_refreshed_requests(m, order.drop_last(), now, id);
        let before = m.refreshed(order.drop_last(), now);
        lemma_settle_requests(before, order.last(), before.roots[order.last()], now, id);
    }
}

/// Every call takes a request at most one step on its way.
pub proof fn requests_go_one_way(m: CoordinatorModel, call: CoordinatorCall, id: u64)
    requires
        call is Enqueue ==> m.next_request_id != id,
    ensures
        may_become(m.requests, after_call(m, call).requests, id),
        after_call(m, call).requests.contains_key(id) && m.requests[id] == RequestStatus::Granted
            && after_call(m, call).requests[id] == RequestStatus::Consumed ==> hands_out(
            m,
            call,
            id,
        ),
{
    match call {
        CoordinatorCall::Enqueue { root, class, now } => {
            lemma_enqueued_is_settled(m, root, class, now, id);
        },
        CoordinatorCall::Acquire { id: x } => {},
        CoordinatorCall::Cancel { root, id: x, class, now } => {
            lemma_cancelled_requests(m, root, x, class, now, id);
        },
        CoordinatorCall::GiveUp { root, id: x, class, now } => {
            lemma_cancelled_requests(m, root, x, class, now, id);
        },
        CoordinatorCall::Release { root, class, outcome, now } => {
            if m.roots.contains_key(root) {
                lemma_settle_requests(m, root, freed(m.roots[root], class, outcome), now, id);
            }
        },
        CoordinatorCall::BeginPlayback { root, now } => {
            let r = m.root_or_fresh(root);
            lemma_settle_requests(
                m,
                root,
                RootModel {
                    playback_leases: if r.playback_leases == usize::MAX {
                        usize::MAX
                    } else {
                        (r.playback_leases + 1) as usize
                    },
                    playback_hysteresis_until_us: 0,
                    ..r
                },
                now,
                id,
            );
        },
        CoordinatorCall::EndPlayback { root, now } => {
            if m.roots.contains_key(root) {
                let r = m.roots[root];
                let leases = if r.playback_leases == 0 {
                    0
                } else {
                    (r.playback_leases - 1) as usize
                };
                lemma_settle_requests(
                    m,
                    root,
                    RootModel {
                        playback_leases: leases,
                        playback_hysteresis_until_us: if leases == 0 {
                            sat(now, m.policy.playback_hysteresis_us)
                        } else {
                            r.playback_hysteresis_until_us
                        },
                        ..r
                    },
                    now,
                    id,
                );
            }
        },
        CoordinatorCall::Refresh { order, now } => {
            lemma_refreshed_requests(m, order, now, id);
        },
        CoordinatorCall::Wake { root, now } => {
            if m.roots.contains_key(root) {
                lemma_settle_requests(m, root, m.roots[root], now, id);
            }
        },
        CoordinatorCall::Count { root, class, stats } => {},
    }
}

/// The root that a new request has joined, before it is scheduled.
pub open spec fn joined(m: CoordinatorModel, k: RootKey, class: WorkClass, now: u64) -> RootModel {
    let r = m.root_or_fresh(k);
    let c = class.place();
    let waiting = RootModel {
        queue: r.queue.push(
            QueueEntry {
                id: m.next_request_id,
                sequence: m.next_sequence,
                class,
                enqueued_us: now,
            },
        ),
        ..r
    };
    let s = r.stats[c];
    RootModel {
        stats: r.stats.update(
            c,
            ClassStats {
                enqueued: sat(s.enqueued, 1),
                max_queued: if waiting.queued(class) > s.max_queued {
                    waiting.queued(class) as usize
                } else {
                    s.max_queued
                },
                ..s
            },
        ),
        ..waiting
    }
}

/// The coordinator that knows a new request, before its root is scheduled.
pub open spec fn with_request(m: CoordinatorModel) -> CoordinatorModel {
    CoordinatorModel {
        next_request_id: crate::media_io::following(m.next_request_id),
        next_sequence: crate::media_io::following(m.next_sequence),
        requests: m.requests.insert(m.next_request_id, RequestStatus::Pending),
        ..m
    }
}

proof fn lemma_enqueued_is_settled(
    m: CoordinatorModel,
    k: RootKey,
    class: WorkClass,
    now: u64,
    id: u64,
)
    ensures
        m.enqueued(k, class, now) == with_request(m).settle(k, joined(m, k, class, now), now),
        id != m.next_request_id ==> may_become(
            m.requests,
            m.enqueued(k, class, now).requests,
            id,
        ) && !(m.requests.contains_key(id) && m.requests[id] == RequestStatus::Granted
            && m.enqueued(k, class, now).requests[id] == RequestStatus::Consumed),
{
    lemma_settle_requests(with_request(m), k, joined(m, k, class, now), now, id);
}

/// The root whose request is cancelled, before it is scheduled.
pub open spec fn cancelled_root(
    m: CoordinatorModel,
    k: RootKey,
    id: u64,
    class: WorkClass,
) -> RootModel {
    let r = m.roots[k];
    let c = class.place();
    if m.requests[id] == RequestStatus::Pending {
        let s = r.stats[c];
        RootModel {
            queue: r.queue.remove(position(r.queue, id)->0),
            stats: r.stats.update(
                c,
                ClassStats {
                    cancelled: sat(s.cancelled, 1),
                    release_outcomes: s.release_outcomes.counted(PermitOutcome::Cancelled),
                    ..s
                },
            ),
            ..r
        }
    } else {
        let f = freed(r, class, PermitOutcome::Cancelled);
        let s = f.stats[c];
        RootModel {
            stats: f.stats.update(c, ClassStats { cancelled: sat(s.cancelled, 1), ..s }),
            ..f
        }
    }
}

/// The coordinator that knows a request as cancelled, before its root is scheduled.
pub open spec fn with_cancelled(m: CoordinatorModel, id: u64) -> CoordinatorModel {
    CoordinatorModel { requests: m.requests.insert(id, RequestStatus::Cancelled), ..m }
}

proof fn lemma_cancelled_requests(
    m: CoordinatorModel,
    k: RootKey,
    x: u64,
    class: WorkClass,
    now: u64,
    id: u64,
)
    ensures
        m.cancellable(k, x) ==> m.cancelled(k, x, class, now) == with_cancelled(m, x).settle(
            k,
            cancelled_root(m, k, x, class),
            now,
        ),
        may_become(m.requests, m.cancelled(k, x, class, now).requests, id),
        !(m.requests.contains_key(id) && m.requests[id] == RequestStatus::Granted && m.cancelled(
            k,
            x,
            class,
            now,
        ).requests[id] == RequestStatus::Consumed),
{
    if m.cancellable(k, x) {
        lemma_settle_requests(with_cancelled(m, x), k, cancelled_root(m, k, x, class), now, id);
    }
}

/// Over any run of calls a request hands out one permit at most; one that has handed it out, was
/// cancelled or is unknown hands out none any more. What has ended stays ended: it is the same
/// after the run, or forgotten.
pub proof fn one_permit_per_request(
    m: CoordinatorModel,
    calls: Seq<CoordinatorCall>,
    id: u64,
)
    requires
        is_not_reused(m, calls, id),
    ensures
        permits_given(m, calls, id) <= 1,
        !m.requests.contains_key(id) || m.requests[id] == RequestStatus::Consumed || m.requests[id]
            == RequestStatus::Cancelled ==> {
            &&& permits_given(m, calls, id) == 0
            &&& after_calls(m, calls).requests.contains_key(id) ==> m.requests.contains_key(id)
                && after_calls(m, calls).requests[id] == m.requests[id]
        },
    decreases calls.len(),
{
    if calls.len() > 0 {
        requests_go_one_way(m, calls[0], id);
        one_permit_per_request(after_call(m, calls[0]), calls.drop_first(), id);
    }
}

/// Whether every entry of a queue stands for a pending request, and each request for one entry.
pub open spec fn queue_is_sound(q: Seq<QueueEntry>, requests: Map<u64, RequestStatus>) -> bool {
    &&& forall|i: int|
        0 <= i < q.len() ==> requests.contains_key((#[trigger] q[i]).id) && requests[q[i].id]
            == RequestStatus::Pending
    &&& forall|i: int, j: int|
        0 <= i < j < q.len() ==> (#[trigger] q[i]).id != (#[trigger] q[j]).id
}

/// How many permits and queued requests of a class have ended.
pub open spec fn ended(o: ReleaseOutcomeDiagnostics) -> int {
    o.success + o.error + o.cancelled + o.stale + o.worker_shutdown + o.dropped
}

/// Whether the counters of a class add up: what was granted is active or was released, and what was
/// enqueued is queued, active or has ended. A counter that has reached its greatest value counts no
/// further.
pub open spec fn class_adds_up(r: RootModel, class: WorkClass) -> bool {
    let s = r.stats[class.place()];
    let active = r.active[class.place()];
    &&& s.granted < u64::MAX ==> s.granted == active + s.released
    &&& s.enqueued < u64::MAX ==> s.enqueued == r.queued(class) + active + ended(
        s.release_outcomes,
    )
}

pub open spec fn adds_up(r: RootModel) -> bool {
    forall|class: WorkClass| #[trigger] class_adds_up(r, class)
}

/// Whether a request stands in the queue of a root.
pub open spec fn waits(m: CoordinatorModel, k: RootKey, id: u64) -> bool {
    m.roots.contains_key(k) && position(m.roots[k].queue, id) is Some
}

/// Whether the coordinator is consistent: every root stays within its limits, every queue is sound
/// and no request waits on two roots, and the counters add up.
pub open spec fn is_consistent(m: CoordinatorModel) -> bool {
    &&& m.within_limits()
    &&& forall|k: RootKey| #[trigger]
        m.roots.contains_key(k) ==> queue_is_sound(m.roots[k].queue, m.requests) && adds_up(
            m.roots[k],
        )
    &&& forall|k: RootKey, x: RootKey, id: u64| #[trigger]
        waits(m, k, id) && #[trigger] waits(m, x, id) ==> k == x
}

/// Whether a call is made as the coordinator's handles make it: a new request gets a number that is
/// not in use, a permit that ends was active, a request is named with its root and its class, and
/// what is stored leaves the counters of requests alone.
pub open spec fn is_own_call(m: CoordinatorModel, call: CoordinatorCall) -> bool {
    match call {
        CoordinatorCall::Enqueue { root, class, now } => !m.requests.contains_key(
            m.next_request_id,
        ),
        CoordinatorCall::Cancel { root, id, class, now } => is_named_right(m, root, id, class),
        CoordinatorCall::GiveUp { root, id, class, now } => is_named_right(m, root, id, class),
        CoordinatorCall::Release { root, class, outcome, now } => m.roots.contains_key(root)
            && m.roots[root].active[class.place()] > 0,
        CoordinatorCall::Refresh { order, now } => forall|i: int|
            0 <= i < order.len() ==> m.roots.contains_key(#[trigger] order[i]),
        CoordinatorCall::Count { root, class, stats } => {
            let s = m.root_or_fresh(root).stats[class.place()];
            &&& stats.enqueued == s.enqueued
            &&& stats.granted == s.granted
            &&& stats.released == s.released
            &&& stats.release_outcomes == s.release_outcomes
        },
        _ => true,
    }
}

/// Whether a request, as far as it is pending or granted, is one of the root and the class.
pub open spec fn is_named_right(
    m: CoordinatorModel,
    k: RootKey,
    id: u64,
    class: WorkClass,
) -> bool {
    m.requests.contains_key(id) ==> match m.requests[id] {
        RequestStatus::Pending => waits(m, k, id) && m.roots[k].queue[position(
            m.roots[k].queue,
            id,
        )->0].class == class,
        RequestStatus::Granted => m.roots.contains_key(k) && m.roots[k].active[class.place()] > 0,
        _ => true,
    }
}

proof fn lemma_filter_all(q: Seq<QueueEntry>, ok: spec_fn(QueueEntry) -> bool)
    requires
        forall|i: int| 0 <= i < q.len() ==> ok(#[trigger] q[i]),
    ensures
        q.filter(ok) == q,
    decreases q.len(),
{
    reveal(Seq::filter);
    if q.len() > 0 {
        lemma_filter_all(q.drop_last(), ok);
        assert(ok(q[q.len() - 1]));
        assert(q.drop_last().push(q.last()) =~= q);
    } else {
        assert(q.filter(ok) =~= q);
    }
}

/// A queue without its entry `i` has one entry less of its class.
proof fn lemma_queued_without(r: RootModel, i: int, after: RootModel, class: WorkClass)
    requires
        0 <= i < r.queue.len(),
        after.queue == r.queue.remove(i),
    ensures
        after.queued(class) == r.queued(class) - if r.queue[i].class == class {
            1int
        } else {
            0int
        },
{
    let f = |e: QueueEntry| e.class == class;
    let q = r.queue;
    let head = q.take(i);
    let tail = q.skip(i + 1);
    let one = seq![q[i]];
    assert(q =~= head + one + tail);
    assert(q.remove(i) =~= head + tail);
    Seq::filter_distributes_over_add(head + one, tail, f);
    Seq::filter_distributes_over_add(head, one, f);
    Seq::filter_distributes_over_add(head, tail, f);
    reveal(Seq::filter);
    assert(one.drop_last() =~= Seq::<QueueEntry>::empty());
    assert(one.drop_last().filter(f) =~= Seq::<QueueEntry>::empty());
    assert(one.last() == q[i]);
}

proof fn lemma_classes_differ(a: WorkClass, b: WorkClass)
    ensures
        a.place() == b.place() ==> a == b,
        0 <= a.place() < 6,
{
}

/// A grant keeps the counters adding up.
proof fn lemma_granted_adds_up(limits: RootLimits, r: RootModel, i: int, now: u64)
    requires
        r.fits(limits),
        granted(r, i, now).fits(limits),
        granted(r, i, now).active_total() == r.active_total() + 1,
        0 <= i < r.queue.len(),
        adds_up(r),
    ensures
        adds_up(granted(r, i, now)),
{
    let g = granted(r, i, now);
    let e = r.queue[i];
    assert forall|class: WorkClass| #[trigger] class_adds_up(g, class) by {
        lemma_queued_without(r, i, g, class);
        lemma_classes_differ(class, e.class);
        lemma_classes_differ(e.class, class);
        assert(class_adds_up(r, class));
        assert(r.active[class.place()] <= r.active_total());
    }
}

/// Removing an entry keeps a queue sound, also when its request is granted.
proof fn lemma_sound_without(q: Seq<QueueEntry>, i: int, requests: Map<u64, RequestStatus>)
    requires
        queue_is_sound(q, requests),
        0 <= i < q.len(),
    ensures
        queue_is_sound(q.remove(i), requests.insert(q[i].id, RequestStatus::Granted)),
        queue_is_sound(q.remove(i), requests.insert(q[i].id, RequestStatus::Cancelled)),
        forall|id: u64| #[trigger]
            position(q.remove(i), id) is Some ==> position(q, id) is Some && id != q[i].id,
{
    let after = q.remove(i);
    assert forall|j: int| 0 <= j < after.len() implies requests.contains_key(
        (#[trigger] after[j]).id,
    ) && requests[after[j].id] == RequestStatus::Pending && after[j].id != q[i].id by {
        if j < i {
            assert(after[j] == q[j]);
        } else {
            assert(after[j] == q[j + 1]);
        }
    }
    assert forall|a: int, b: int| 0 <= a < b < after.len() implies (#[trigger] after[a]).id != (
    #[trigger] after[b]).id by {
        let x = if a < i { a } else { a + 1 };
        let y = if b < i { b } else { b + 1 };
        assert(after[a] == q[x] && after[b] == q[y]);
    }
    assert forall|id: u64| #[trigger] position(after, id) is Some implies position(q, id) is Some
        && id != q[i].id by {
        lemma_position_found(after, id);
        let j = position(after, id)->0;
        let x = if j < i { j } else { j + 1 };
        assert(after[j] == q[x]);
        lemma_position(q, x);
    }
}

/// What granting keeps: a sound queue, counters that add up, the counters of what was enqueued,
/// cancelled and released, and every request that does not stand in the queue.
proof fn lemma_grants_keep(
    limits: RootLimits,
    burst: u32,
    r: RootModel,
    requests: Map<u64, RequestStatus>,
    now: u64,
)
    requires
        r.fits(limits),
        queue_is_sound(r.queue, requests),
        adds_up(r),
    ensures
        ({
            let after = grants(limits, burst, r, requests, now);
            &&& after.0.fits(limits)
            &&& queue_is_sound(after.0.queue, after.1)
            &&& adds_up(after.0)
            &&& forall|id: u64| #[trigger]
                position(after.0.queue, id) is Some ==> position(r.queue, id) is Some
            &&& forall|id: u64|
                position(r.queue, id) is None ==> (#[trigger] after.1.contains_key(id)
                    == requests.contains_key(id)) && after.1[id] == requests[id]
            &&& forall|class: WorkClass|
                keeps_counts(r.stats[#[trigger] class.place()], after.0.stats[class.place()])
        }),
    decreases r.queue.len(),
{
    crate::media_io::next_grant_is_urgent_or_fair(limits, burst, r, now);
    match crate::media_io::next_entry(limits, burst, r, now) {
        Some(i) => if r.active_total() < limits.total {
            let id = r.queue[i].id;
            crate::media_io::grant_stays_within_limits(limits, burst, r, now);
            assert(requests.contains_key(r.queue[i].id));
            let g = granted(r, i, now);
            let marked = requests.insert(id, RequestStatus::Granted);
            lemma_granted_adds_up(limits, r, i, now);
            lemma_sound_without(r.queue, i, requests);
            lemma_position(r.queue, i);
            lemma_grants_keep(limits, burst, g, marked, now);
            let after = grants(limits, burst, r, requests, now);
            assert(after == grants(limits, burst, g, marked, now));
            assert forall|x: u64| position(r.queue, x) is None implies (
            #[trigger] after.1.contains_key(x) == requests.contains_key(x)) && after.1[x]
                == requests[x] by {
                assert(position(g.queue, x) is None);
            }
            assert forall|class: WorkClass|
                keeps_counts(r.stats[#[trigger] class.place()], after.0.stats[class.place()]) by {
                assert(keeps_counts(g.stats[class.place()], after.0.stats[class.place()]));
                lemma_classes_differ(class, r.queue[i].class);
                lemma_classes_differ(r.queue[i].class, class);
            }
        },
        None => {},
    }
}

/// Whether what was enqueued, cancelled, released and ended is counted alike.
pub open spec fn keeps_counts(a: ClassStats, b: ClassStats) -> bool {
    &&& a.enqueued == b.enqueued
    &&& a.cancelled == b.cancelled
    &&& a.released == b.released
    &&& a.release_outcomes == b.release_outcomes
}

/// Scheduling a root keeps the coordinator consistent.
proof fn lemma_settle_keeps(m: CoordinatorModel, k: RootKey, r: RootModel, now: u64)
    requires
        m.policy.is_sane(),
        forall|x: RootKey|
            x != k && #[trigger] m.roots.contains_key(x) ==> m.roots[x].fits(
                m.policy.limits_of(x.kind),
            ) && queue_is_sound(m.roots[x].queue, m.requests) && adds_up(m.roots[x]),
        forall|x: RootKey, y: RootKey, id: u64|
            x != k && y != k && #[trigger] waits(m, x, id) && #[trigger] waits(m, y, id) ==> x
                == y,
        forall|x: RootKey, id: u64|
            x != k && #[trigger] waits(m, x, id) ==> position(r.queue, id) is None,
        r.fits(m.policy.limits_of(k.kind)),
        queue_is_sound(r.queue, m.requests),
        adds_up(r),
    ensures
        is_consistent(m.settle(k, r, now)),
        forall|class: WorkClass|
            keeps_counts(
                r.stats[#[trigger] class.place()],
                m.settle(k, r, now).roots[k].stats[class.place()],
            ),
        forall|id: u64| #[trigger]
            position(m.settle(k, r, now).roots[k].queue, id) is Some ==> position(r.queue, id)
                is Some,
{
    let limits = m.policy.limits_of(k.kind);
    let burst = m.policy.priority_burst;
    lemma_filter_all(r.queue, |e: QueueEntry| m.requests.contains_key(e.id));
    assert(swept(r, m.requests) =~= r);
    lemma_grants_keep(limits, burst, r, m.requests, now);
    let s = grants(limits, burst, r, m.requests, now);
    let after = m.settle(k, r, now);
    assert(after.roots == m.roots.insert(k, s.0) && after.requests == s.1);
    assert forall|x: RootKey| #[trigger] after.roots.contains_key(x) implies after.roots[x].fits(
        after.policy.limits_of(x.kind),
    ) && queue_is_sound(after.roots[x].queue, after.requests) && adds_up(after.roots[x]) by {
        if x != k {
            assert(m.roots.contains_key(x));
            let q = m.roots[x].queue;
            assert forall|i: int| 0 <= i < q.len() implies after.requests.contains_key(
                (#[trigger] q[i]).id,
            ) && after.requests[q[i].id] == RequestStatus::Pending by {
                lemma_position(q, i);
                assert(waits(m, x, q[i].id));
                assert(position(r.queue, q[i].id) is None);
                assert(s.1.contains_key(q[i].id) == m.requests.contains_key(q[i].id));
            }
        }
    }
    assert forall|x: RootKey, y: RootKey, id: u64| #[trigger]
        waits(after, x, id) && #[trigger] waits(after, y, id) implies x == y by {
        if x != k {
            assert(waits(m, x, id));
        }
        if y != k {
            assert(waits(m, y, id));
        }
        if x == k && y != k || x != k && y == k {
            assert(position(s.0.queue, id) is Some);
        }
    }
}

proof fn lemma_refreshed_keeps(m: CoordinatorModel, order: Seq<RootKey>, now: u64)
    requires
        m.policy.is_sane(),
        is_consistent(m),
        forall|i: int| 0 <= i < order.len() ==> m.roots.contains_key(#[trigger] order[i]),
    ensures
        is_consistent(m.refreshed(order, now)),
        m.refreshed(order, now).policy == m.policy,
        forall|k: RootKey|
            m.roots.contains_key(k) ==> #[trigger] m.refreshed(order, now).roots.contains_key(k),
    decreases order.len(),
{
    if order.len() > 0 {
        assert forall|i: int| 0 <= i < order.drop_last().len() implies m.roots.contains_key(
            #[trigger] order.drop_last()[i],
        ) by {
            assert(order.drop_last()[i] == order[i]);
        }
        lemma_refreshed_keeps(m, order.drop_last(), now);
        let before = m.refreshed(order.drop_last(), now);
        let k = order.last();
        assert(m.roots.contains_key(order[order.len() - 1]));
        assert(before.roots.contains_key(k));
        lemma_same_root_keeps(before, k, before.roots[k], now);
    }
}

/// Scheduling a root that keeps its queue keeps a consistent coordinator consistent.
proof fn lemma_same_root_keeps(m: CoordinatorModel, k: RootKey, r: RootModel, now: u64)
    requires
        m.policy.is_sane(),
        is_consistent(m),
        r.queue == m.root_or_fresh(k).queue,
        r.fits(m.policy.limits_of(k.kind)),
        adds_up(r),
    ensures
        is_consistent(m.settle(k, r, now)),
{
    assert forall|x: RootKey, id: u64| x != k && #[trigger] waits(m, x, id) implies position(
        r.queue,
        id,
    ) is None by {
        if position(r.queue, id) is Some {
            if m.roots.contains_key(k) {
                assert(waits(m, k, id));
            }
        }
    }
    lemma_settle_keeps(m, k, r, now);
}

proof fn lemma_fresh_root(limits: RootLimits)
    ensures
        crate::media_io::fresh_root().fits(limits),
        adds_up(crate::media_io::fresh_root()),
        crate::media_io::fresh_root().queue == Seq::<QueueEntry>::empty(),
{
    let f = crate::media_io::fresh_root();
    assert forall|class: WorkClass| #[trigger] class_adds_up(f, class) by {
        reveal(Seq::filter);
        assert(f.queued(class) == 0);
    }
}

/// Ending an active permit keeps the counters adding up.
proof fn lemma_freed_adds_up(
    limits: RootLimits,
    r: RootModel,
    class: WorkClass,
    outcome: PermitOutcome,
)
    requires
        r.fits(limits),
        adds_up(r),
        r.active[class.place()] > 0,
    ensures
        freed(r, class, outcome).fits(limits),
        adds_up(freed(r, class, outcome)),
{
    let f = freed(r, class, outcome);
    assert forall|c: WorkClass| #[trigger] class_adds_up(f, c) by {
        lemma_classes_differ(c, class);
        lemma_classes_differ(class, c);
        assert(class_adds_up(r, c));
        assert(f.queued(c) == r.queued(c));
    }
}

proof fn lemma_enqueued_keeps(m: CoordinatorModel, k: RootKey, class: WorkClass, now: u64)
    requires
        m.policy.is_sane(),
        is_consistent(m),
        !m.requests.contains_key(m.next_request_id),
    ensures
        is_consistent(m.enqueued(k, class, now)),
{
    let w = with_request(m);
    let r = m.root_or_fresh(k);
    let j = joined(m, k, class, now);
    let new = m.next_request_id;
    lemma_fresh_root(m.policy.limits_of(k.kind));
    assert(r.fits(m.policy.limits_of(k.kind)));
    assert(adds_up(r));
    assert(queue_is_sound(r.queue, m.requests));
    assert forall|i: int| 0 <= i < j.queue.len() implies w.requests.contains_key(
        (#[trigger] j.queue[i]).id,
    ) && w.requests[j.queue[i].id] == RequestStatus::Pending by {
        if i < r.queue.len() {
            assert(j.queue[i] == r.queue[i]);
        }
    }
    assert forall|a: int, b: int| 0 <= a < b < j.queue.len() implies (#[trigger] j.queue[a]).id
        != (#[trigger] j.queue[b]).id by {
        assert(j.queue[a] == r.queue[a]);
        assert(m.requests.contains_key(r.queue[a].id));
        if b < r.queue.len() {
            assert(j.queue[b] == r.queue[b]);
        }
    }
    assert(r.queue =~= j.queue.remove(r.queue.len() as int));
    assert forall|c: WorkClass| #[trigger] class_adds_up(j, c) by {
        lemma_classes_differ(c, class);
        lemma_classes_differ(class, c);
        assert(class_adds_up(r, c));
        lemma_queued_without(j, r.queue.len() as int, r, c);
    }
    assert forall|x: RootKey, id: u64| x != k && #[trigger] waits(w, x, id) implies position(
        j.queue,
        id,
    ) is None by {
        assert(waits(m, x, id));
        lemma_position_found(m.roots[x].queue, id);
        let at = position(m.roots[x].queue, id)->0;
        assert(m.requests.contains_key(m.roots[x].queue[at].id));
        lemma_position_found(j.queue, id);
        if position(j.queue, id) is Some {
            let i = position(j.queue, id)->0;
            assert(i < r.queue.len());
            assert(j.queue[i] == r.queue[i]);
            lemma_position(r.queue, i);
            assert(m.roots.contains_key(k));
            assert(waits(m, k, id));
        }
    }
    assert forall|x: RootKey| x != k && #[trigger] w.roots.contains_key(x) implies queue_is_sound(
        w.roots[x].queue,
        w.requests,
    ) by {
        let q = m.roots[x].queue;
        assert forall|i: int| 0 <= i < q.len() implies w.requests.contains_key((#[trigger] q[i]).id)
            && w.requests[q[i].id] == RequestStatus::Pending by {
            assert(m.requests.contains_key(q[i].id));
        }
    }
    assert forall|x: RootKey, y: RootKey, id: u64|
        x != k && y != k && #[trigger] waits(w, x, id) && #[trigger] waits(w, y, id) implies x
        == y by {
        assert(waits(m, x, id) && waits(m, y, id));
    }
    lemma_settle_keeps(w, k, j, now);
    lemma_enqueued_is_settled(m, k, class, now, new);
}

/// What cancelling a pending or granted request does: the counters of its class count one more
/// cancelled and one more ended, what was enqueued stays, the request is known as cancelled and
/// stands in no queue any more, and the coordinator stays consistent.
pub proof fn cancelling_counts_once(
    m: CoordinatorModel,
    k: RootKey,
    id: u64,
    class: WorkClass,
    now: u64,
)
    requires
        m.policy.is_sane(),
        is_consistent(m),
        is_named_right(m, k, id, class),
        m.cancellable(k, id),
    ensures
        ({
            let after = m.cancelled(k, id, class, now);
            let s = m.roots[k].stats[class.place()];
            let t = after.roots[k].stats[class.place()];
            &&& is_consistent(after)
            &&& after.requests.contains_key(id) && after.requests[id] == RequestStatus::Cancelled
            &&& forall|x: RootKey| !#[trigger] waits(after, x, id)
            &&& t.enqueued == s.enqueued
            &&& t.cancelled == sat(s.cancelled, 1)
            &&& t.release_outcomes == s.release_outcomes.counted(PermitOutcome::Cancelled)
            &&& t.released == if m.requests[id] == RequestStatus::Granted {
                sat(s.released, 1)
            } else {
                s.released
            }
            &&& forall|c: WorkClass|
                c != class ==> keeps_counts(
                    m.roots[k].stats[#[trigger] c.place()],
                    after.roots[k].stats[c.place()],
                )
        }),
{
    let w = with_cancelled(m, id);
    let r = m.roots[k];
    let limits = m.policy.limits_of(k.kind);
    let n = cancelled_root(m, k, id, class);
    let after = m.cancelled(k, id, class, now);
    assert(r.fits(limits) && adds_up(r) && queue_is_sound(r.queue, m.requests));
    lemma_position_found(r.queue, id);
    if m.requests[id] == RequestStatus::Pending {
        let at = position(r.queue, id)->0;
        lemma_sound_without(r.queue, at, m.requests);
        assert forall|c: WorkClass| #[trigger] class_adds_up(n, c) by {
            lemma_queued_without(r, at, n, c);
            lemma_classes_differ(c, class);
            lemma_classes_differ(class, c);
            assert(class_adds_up(r, c));
        }
    } else {
        lemma_freed_adds_up(limits, r, class, PermitOutcome::Cancelled);
        let f = freed(r, class, PermitOutcome::Cancelled);
        assert forall|c: WorkClass| #[trigger] class_adds_up(n, c) by {
            lemma_classes_differ(c, class);
            lemma_classes_differ(class, c);
            assert(class_adds_up(f, c));
            assert(n.queued(c) == f.queued(c));
        }
        assert forall|i: int| 0 <= i < n.queue.len() implies w.requests.contains_key(
            (#[trigger] n.queue[i]).id,
        ) && w.requests[n.queue[i].id] == RequestStatus::Pending by {
            assert(m.requests[r.queue[i].id] == RequestStatus::Pending);
        }
        assert(queue_is_sound(n.queue, w.requests));
    }
    assert forall|x: RootKey, y: u64| #[trigger] waits(m, x, y) implies m.requests.contains_key(y)
        && m.requests[y] == RequestStatus::Pending by {
        lemma_position_found(m.roots[x].queue, y);
        let at = position(m.roots[x].queue, y)->0;
        assert(m.requests.contains_key(m.roots[x].queue[at].id));
    }
    assert forall|x: RootKey| x != k && #[trigger] w.roots.contains_key(x) implies w.roots[x].fits(
        w.policy.limits_of(x.kind),
    ) && queue_is_sound(w.roots[x].queue, w.requests) && adds_up(w.roots[x]) by {
        let q = m.roots[x].queue;
        assert(m.roots.contains_key(x));
        assert forall|i: int| 0 <= i < q.len() implies w.requests.contains_key((#[trigger] q[i]).id)
            && w.requests[q[i].id] == RequestStatus::Pending by {
            lemma_position(q, i);
            assert(waits(m, x, q[i].id));
            if q[i].id == id {
                assert(waits(m, k, id));
            }
        }
    }
    assert forall|x: RootKey, y: u64| x != k && #[trigger] waits(w, x, y) implies position(
        n.queue,
        y,
    ) is None by {
        assert(waits(m, x, y));
        if position(n.queue, y) is Some {
            assert(position(r.queue, y) is Some);
            assert(waits(m, k, y));
        }
    }
    assert forall|x: RootKey, y: RootKey, z: u64|
        x != k && y != k && #[trigger] waits(w, x, z) && #[trigger] waits(w, y, z) implies x
        == y by {
        assert(waits(m, x, z) && waits(m, y, z));
    }
    lemma_settle_keeps(w, k, n, now);
    lemma_cancelled_requests(m, k, id, class, now, id);
    lemma_settle_requests(w, k, n, now, id);
    assert(after == w.settle(k, n, now));
    assert forall|x: RootKey| !#[trigger] waits(after, x, id) by {
        if waits(after, x, id) {
            lemma_position_found(after.roots[x].queue, id);
            let at = position(after.roots[x].queue, id)->0;
            assert(after.roots.contains_key(x));
            assert(after.requests[after.roots[x].queue[at].id] == RequestStatus::Pending);
        }
    }
    assert(keeps_counts(n.stats[class.place()], after.roots[k].stats[class.place()]));
    assert forall|c: WorkClass| c != class implies keeps_counts(
        m.roots[k].stats[#[trigger] c.place()],
        after.roots[k].stats[c.place()],
    ) by {
        lemma_classes_differ(c, class);
        lemma_classes_differ(class, c);
        assert(keeps_counts(n.stats[c.place()], after.roots[k].stats[c.place()]));
    }
}

/// A new coordinator is consistent.
pub proof fn new_coordinators_are_consistent(m: CoordinatorModel)
    requires
        m.roots == Map::<RootKey, RootModel>::empty(),
    ensures
        is_consistent(m),
{
}

/// Every call keeps the coordinator consistent: pending requests stand once in the queue of their
/// root, and what was granted and what was enqueued adds up.
pub proof fn calls_keep_consistency(m: CoordinatorModel, call: CoordinatorCall)
    requires
        m.policy.is_sane(),
        is_consistent(m),
        is_own_call(m, call),
    ensures
        is_consistent(after_call(m, call)),
        after_call(m, call).policy == m.policy,
{
    match call {
        CoordinatorCall::Enqueue { root, class, now } => {
            lemma_enqueued_keeps(m, root, class, now);
        },
        CoordinatorCall::Acquire { id } => {
            if m.requests.contains_key(id) && m.requests[id] == RequestStatus::Granted {
                lemma_forgetting_keeps(m, id);
            }
        },
        CoordinatorCall::Cancel { root, id, class, now } => {
            if m.cancellable(root, id) {
                cancelling_counts_once(m, root, id, class, now);
            }
        },
        CoordinatorCall::GiveUp { root, id, class, now } => {
            let c = m.cancelled(root, id, class, now);
            if m.cancellable(root, id) {
                cancelling_counts_once(m, root, id, class, now);
            }
            lemma_forgetting_keeps(c, id);
        },
        CoordinatorCall::Release { root, class, outcome, now } => {
            let limits = m.policy.limits_of(root.kind);
            assert(m.roots[root].fits(limits) && adds_up(m.roots[root]));
            lemma_freed_adds_up(limits, m.roots[root], class, outcome);
            lemma_same_root_keeps(m, root, freed(m.roots[root], class, outcome), now);
        },
        CoordinatorCall::BeginPlayback { root, now } => {
            lemma_fresh_root(m.policy.limits_of(root.kind));
            let r = m.root_or_fresh(root);
            let b = RootModel {
                playback_leases: if r.playback_leases == usize::MAX {
                    usize::MAX
                } else {
                    (r.playback_leases + 1) as usize
                },
                playback_hysteresis_until_us: 0,
                ..r
            };
            lemma_like_root(m, root, b);
            lemma_same_root_keeps(m, root, b, now);
        },
        CoordinatorCall::EndPlayback { root, now } => {
            if m.roots.contains_key(root) {
                let r = m.roots[root];
                let leases = if r.playback_leases == 0 {
                    0
                } else {
                    (r.playback_leases - 1) as usize
                };
                let b = RootModel {
                    playback_leases: leases,
                    playback_hysteresis_until_us: if leases == 0 {
                        sat(now, m.policy.playback_hysteresis_us)
                    } else {
                        r.playback_hysteresis_until_us
                    },
                    ..r
                };
                lemma_like_root(m, root, b);
                lemma_same_root_keeps(m, root, b, now);
            }
        },
        CoordinatorCall::Refresh { order, now } => {
            lemma_refreshed_keeps(m, order, now);
        },
        CoordinatorCall::Wake { root, now } => {
            if m.roots.contains_key(root) {
                lemma_same_root_keeps(m, root, m.roots[root], now);
            }
        },
        CoordinatorCall::Count { root, class, stats } => {
            lemma_fresh_root(m.policy.limits_of(root.kind));
            let r = m.root_or_fresh(root);
            let b = RootModel { stats: r.stats.update(class.place(), stats), ..r };
            assert(r.fits(m.policy.limits_of(root.kind)) && adds_up(r));
            assert forall|c: WorkClass| #[trigger] class_adds_up(b, c) by {
                lemma_classes_differ(c, class);
                lemma_classes_differ(class, c);
                assert(class_adds_up(r, c));
                assert(b.queued(c) == r.queued(c));
            }
            lemma_stored_keeps(m, root, b);
        },
    }
}

/// A root that differs in its playback alone fits and adds up as before.
proof fn lemma_like_root(m: CoordinatorModel, k: RootKey, b: RootModel)
    requires
        is_consistent(m),
        b.queue == m.root_or_fresh(k).queue,
        b.active == m.root_or_fresh(k).active,
        b.stats == m.root_or_fresh(k).stats,
    ensures
        b.fits(m.policy.limits_of(k.kind)),
        adds_up(b),
{
    lemma_fresh_root(m.policy.limits_of(k.kind));
    let r = m.root_or_fresh(k);
    assert(r.fits(m.policy.limits_of(k.kind)) && adds_up(r));
    assert forall|c: WorkClass| #[trigger] class_adds_up(b, c) by {
        assert(class_adds_up(r, c));
        assert(b.queued(c) == r.queued(c));
    }
}

/// Storing counters keeps the coordinator consistent.
proof fn lemma_stored_keeps(m: CoordinatorModel, k: RootKey, b: RootModel)
    requires
        is_consistent(m),
        b.queue == m.root_or_fresh(k).queue,
        b.fits(m.policy.limits_of(k.kind)),
        adds_up(b),
    ensures
        is_consistent(CoordinatorModel { roots: m.roots.insert(k, b), ..m }),
{
    let after = CoordinatorModel { roots: m.roots.insert(k, b), ..m };
    assert forall|x: RootKey, y: RootKey, id: u64| #[trigger]
        waits(after, x, id) && #[trigger] waits(after, y, id) implies x == y by {
        lemma_position_found(after.roots[x].queue, id);
        assert(m.roots.contains_key(x));
        assert(m.roots.contains_key(y));
        assert(waits(m, x, id) && waits(m, y, id));
    }
    assert forall|x: RootKey| #[trigger] after.roots.contains_key(x) implies after.roots[x].fits(
        after.policy.limits_of(x.kind),
    ) && queue_is_sound(after.roots[x].queue, after.requests) && adds_up(after.roots[x]) by {
        if x != k {
            assert(m.roots.contains_key(x));
        }
    }
}

/// A request that is not pending may be consumed or forgotten.
proof fn lemma_forgetting_keeps(m: CoordinatorModel, id: u64)
    requires
        is_consistent(m),
        m.requests.contains_key(id) ==> m.requests[id] != RequestStatus::Pending,
    ensures
        is_consistent(CoordinatorModel { requests: m.requests.remove(id), ..m }),
        is_consistent(
            CoordinatorModel { requests: m.requests.insert(id, RequestStatus::Consumed), ..m },
        ),
{
    let a = CoordinatorModel { requests: m.requests.remove(id), ..m };
    let b = CoordinatorModel { requests: m.requests.insert(id, RequestStatus::Consumed), ..m };
    assert forall|x: RootKey| #[trigger] m.roots.contains_key(x) implies queue_is_sound(
        m.roots[x].queue,
        a.requests,
    ) && queue_is_sound(m.roots[x].queue, b.requests) by {
        let q = m.roots[x].queue;
        assert forall|i: int| 0 <= i < q.len() implies (#[trigger] q[i]).id != id by {
            assert(m.requests[q[i].id] == RequestStatus::Pending);
        }
    }
    assert forall|x: RootKey, y: RootKey, z: u64| #[trigger]
        waits(a, x, z) && #[trigger] waits(a, y, z) implies x == y by {
        assert(waits(m, x, z) && waits(m, y, z));
    }
    assert forall|x: RootKey, y: RootKey, z: u64| #[trigger]
        waits(b, x, z) && #[trigger] waits(b, y, z) implies x == y by {
        assert(waits(m, x, z) && waits(m, y, z));
    }
}

/// Whether every call of a run is made as the coordinator's handles make it.
pub open spec fn are_own_calls(m: CoordinatorModel, calls: Seq<CoordinatorCall>) -> bool
    decreases calls.len(),
{
    calls.len() > 0 ==> is_own_call(m, calls[0]) && are_own_calls(
        after_call(m, calls[0]),
        calls.drop_first(),
    )
}

/// After any run of calls from a consistent coordinator the counters of every root add up, its
/// reservations hold, and every queue is sound.
pub proof fn runs_keep_consistency(m: CoordinatorModel, calls: Seq<CoordinatorCall>)
    requires
        m.policy.is_sane(),
        is_consistent(m),
        are_own_calls(m, calls),
    ensures
        is_consistent(after_calls(m, calls)),
        after_calls(m, calls).policy == m.policy,
    decreases calls.len(),
{
    if calls.len() > 0 {
        calls_keep_consistency(m, calls[0]);
        runs_keep_consistency(after_call(m, calls[0]), calls.drop_first());
    }
}

} // verus!
