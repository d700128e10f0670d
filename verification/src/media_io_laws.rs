//! What the coordinator of disk and share I/O promises, in terms of what is asked of it and what
//! comes of it: playback holds bulk work back, a request is counted and queued as what it is, and
//! the capacity of a permit that ends is handed on.

use crate::media_io::{
    class_report, discarded, granted, grants, next_entry, swept, CoordinatorModel, IoPolicy,
    IoRequest, PermitOutcome, QueueEntry, RequestStatus, RootDiagnostics, RootKey, RootKind,
    RootLimits, RootModel, WaitTurn, WorkClass,
};
use crate::media_io_runs::{after_call, after_calls, CoordinatorCall};
use vstd::prelude::*;

verus! {

/// The bulk permits of a root: those of every class but playback and visible thumbnails.
pub open spec fn bulk_permits(m: CoordinatorModel, k: RootKey) -> int {
    if m.roots.contains_key(k) {
        m.roots[k].active[2] + m.roots[k].active[3] + m.roots[k].active[4] + m.roots[k].active[5]
    } else {
        0
    }
}

/// The playbacks of a root that have begun and not ended.
pub open spec fn playbacks(m: CoordinatorModel, k: RootKey) -> int {
    if m.roots.contains_key(k) {
        m.roots[k].playback_leases as int
    } else {
        0
    }
}

/// Whether playback still holds the bulk work of a root back at a time.
pub open spec fn holds_back(m: CoordinatorModel, k: RootKey, now: u64) -> bool {
    m.roots.contains_key(k) && (m.roots[k].playback_leases > 0
        || m.roots[k].playback_hysteresis_until_us > now)
}

/// The limits of a root of this kind.
pub open spec fn own_limits(p: IoPolicy, kind: RootKind) -> RootLimits {
    match kind {
        RootKind::Local => p.local,
        RootKind::Remote => p.remote,
        RootKind::Unknown => p.unknown,
    }
}

/// What granting leaves alone and what it can add to.
proof fn lemma_grants_effect(
    limits: RootLimits,
    burst: u32,
    r: RootModel,
    requests: Map<u64, RequestStatus>,
    now: u64,
)
    requires
        r.fits(limits),
    ensures
        ({
            let a = grants(limits, burst, r, requests, now).0;
            &&& a.playback_leases == r.playback_leases
            &&& a.playback_hysteresis_until_us == r.playback_hysteresis_until_us
            &&& a.active.len() == 6 && a.stats.len() == 6
            &&& forall|c: int|
                0 <= c < 6 ==> {
                    let s = r.stats[c];
                    let t = #[trigger] a.stats[c];
                    &&& s.enqueued == t.enqueued && s.cancelled == t.cancelled && s.released
                        == t.released && s.release_outcomes == t.release_outcomes
                    &&& s.max_queued == t.max_queued && s.cache_hits == t.cache_hits
                    &&& s.filesystem_operations == t.filesystem_operations
                        && s.filesystem_total_us == t.filesystem_total_us && s.filesystem_max_us
                        == t.filesystem_max_us
                    &&& a.active[c] >= r.active[c]
                    &&& t.granted < u64::MAX ==> t.granted - s.granted == a.active[c] - r.active[c]
                }
            &&& r.playback_leases > 0 || r.playback_hysteresis_until_us > now ==> {
                let before = r.active[2] + r.active[3] + r.active[4] + r.active[5];
                let after = a.active[2] + a.active[3] + a.active[4] + a.active[5];
                after <= before || after <= limits.playback_bulk_limit
            }
        }),
    decreases r.queue.len(),
{
    crate::media_io::scheduling_obeys_the_limits(limits, burst, r, requests, now);
    crate::media_io::next_grant_is_urgent_or_fair(limits, burst, r, now);
    match next_entry(limits, burst, r, now) {
        Some(i) => if r.active_total() < limits.total && 0 <= i < r.queue.len() {
            let e = r.queue[i];
            let a = grants(limits, burst, r, requests, now).0;
            if requests.contains_key(e.id) && requests[e.id] == RequestStatus::Pending {
                crate::media_io::grant_stays_within_limits(limits, burst, r, now);
                let g = granted(r, i, now);
                lemma_grants_effect(
                    limits,
                    burst,
                    g,
                    requests.insert(e.id, RequestStatus::Granted),
                    now,
                );
            } else {
                lemma_grants_effect(limits, burst, discarded(r, i), requests, now);
            }
        },
        None => {},
    }
}

/// What settling a root leaves alone and what it can add to.
proof fn lemma_settle_effect(m: CoordinatorModel, k: RootKey, r: RootModel, now: u64)
    requires
        r.fits(m.policy.limits_of(k.kind)),
    ensures
        ({
            let after = m.settle(k, r, now);
            let a = after.roots[k];
            &&& after.roots.contains_key(k)
            &&& after.policy == m.policy
            &&& forall|x: RootKey| #![trigger after.roots.contains_key(x)]
                x != k ==> after.roots.contains_key(x) == m.roots.contains_key(x) && after.roots[x]
                    == m.roots[x]
            &&& a.playback_leases == r.playback_leases
            &&& a.playback_hysteresis_until_us == r.playback_hysteresis_until_us
            &&& a.active.len() == 6 && a.stats.len() == 6
            &&& forall|c: int|
                0 <= c < 6 ==> {
                    let s = r.stats[c];
                    let t = #[trigger] a.stats[c];
                    &&& s.enqueued == t.enqueued && s.cancelled == t.cancelled && s.released
                        == t.released && s.release_outcomes == t.release_outcomes
                    &&& s.max_queued == t.max_queued && s.cache_hits == t.cache_hits
                    &&& s.filesystem_operations == t.filesystem_operations
                        && s.filesystem_total_us == t.filesystem_total_us && s.filesystem_max_us
                        == t.filesystem_max_us
                    &&& a.active[c] >= r.active[c]
                    &&& t.granted < u64::MAX ==> t.granted - s.granted == a.active[c] - r.active[c]
                }
            &&& r.playback_leases > 0 || r.playback_hysteresis_until_us > now ==> {
                let before = r.active[2] + r.active[3] + r.active[4] + r.active[5];
                let b = a.active[2] + a.active[3] + a.active[4] + a.active[5];
                b <= before || b <= own_limits(m.policy, k.kind).playback_bulk_limit
            }
        }),
{
    let limits = m.policy.limits_of(k.kind);
    let sw = swept(r, m.requests);
    assert(sw.fits(limits));
    lemma_grants_effect(limits, m.policy.priority_burst, sw, m.requests, now);
}

/// Beginning a playback adds one to the playbacks of its root, whatever kind of root it is; from
/// then on its bulk work is held back at every time, and no bulk permit is given beyond the limit
/// during playback.
pub proof fn playback_begins_on_every_root(m: CoordinatorModel, k: RootKey, now: u64, later: u64)
    requires
        m.within_limits(),
        playbacks(m, k) < usize::MAX,
    ensures
        ({
            let after = m.playback_begun(k, now);
            &&& playbacks(after, k) == playbacks(m, k) + 1
            &&& holds_back(after, k, later)
            &&& after.roots[k].throttled(later)
            &&& bulk_permits(after, k) <= bulk_permits(m, k) || bulk_permits(after, k)
                <= own_limits(m.policy, k.kind).playback_bulk_limit
        }),
{
    let r = m.root_or_fresh(k);
    let b = RootModel {
        playback_leases: (r.playback_leases + 1) as usize,
        playback_hysteresis_until_us: 0,
        ..r
    };
    assert(m.roots.contains_key(k) ==> m.roots[k].fits(m.policy.limits_of(k.kind)));
    assert(b.fits(m.policy.limits_of(k.kind)));
    lemma_settle_effect(m, k, b, now);
}

/// Ending one of several playbacks takes one away; ending the last one holds bulk work back for the
/// configured time more, and no longer.
pub proof fn playback_ends_one_by_one(m: CoordinatorModel, k: RootKey, now: u64, later: u64)
    requires
        m.within_limits(),
        playbacks(m, k) > 0,
    ensures
        ({
            let after = m.playback_ended(k, now);
            &&& playbacks(after, k) == playbacks(m, k) - 1
            &&& playbacks(m, k) > 1 ==> holds_back(after, k, later)
            &&& playbacks(m, k) == 1 && now + m.policy.playback_hysteresis_us <= u64::MAX ==> (
            holds_back(after, k, later) <==> later < now + m.policy.playback_hysteresis_us)
            &&& after.roots[k].throttled(later) == holds_back(after, k, later)
        }),
{
    let r = m.roots[k];
    assert(r.fits(m.policy.limits_of(k.kind)));
    let leases = (r.playback_leases - 1) as usize;
    let b = RootModel {
        playback_leases: leases,
        playback_hysteresis_until_us: if leases == 0 {
            crate::media_io::sat(now, m.policy.playback_hysteresis_us)
        } else {
            r.playback_hysteresis_until_us
        },
        ..r
    };
    lemma_settle_effect(m, k, b, now);
}

/// How a call changes the number of playbacks of a root.
pub open spec fn playback_step(call: CoordinatorCall, k: RootKey) -> int {
    match call {
        CoordinatorCall::BeginPlayback { root, .. } => if root == k {
            1
        } else {
            0
        },
        CoordinatorCall::EndPlayback { root, .. } => if root == k {
            -1
        } else {
            0
        },
        _ => 0,
    }
}

/// The time of a call, for those that have one.
pub open spec fn call_time(call: CoordinatorCall) -> u64 {
    match call {
        CoordinatorCall::Enqueue { now, .. } => now,
        CoordinatorCall::Acquire { .. } => 0,
        CoordinatorCall::Cancel { now, .. } => now,
        CoordinatorCall::GiveUp { now, .. } => now,
        CoordinatorCall::Release { now, .. } => now,
        CoordinatorCall::BeginPlayback { now, .. } => now,
        CoordinatorCall::EndPlayback { now, .. } => now,
        CoordinatorCall::Refresh { now, .. } => now,
        CoordinatorCall::Wake { now, .. } => now,
        CoordinatorCall::Count { .. } => 0,
    }
}

/// Whether a call only names roots that the coordinator knows, where it has to.
pub open spec fn names_known_roots(m: CoordinatorModel, call: CoordinatorCall) -> bool {
    call matches CoordinatorCall::Refresh { order, now } ==> forall|i: int|
        0 <= i < order.len() ==> m.roots.contains_key(#[trigger] order[i])
}

/// What any call does to the playbacks and the bulk permits of any root: only beginning and ending
/// a playback of that root changes their number; and as long as playback holds its bulk work back
/// after the call, the call has given no bulk permit beyond the limit during playback.
proof fn lemma_call_effect(m: CoordinatorModel, call: CoordinatorCall, k: RootKey)
    requires
        m.within_limits(),
        names_known_roots(m, call),
        0 <= playbacks(m, k) + playback_step(call, k) <= usize::MAX,
    ensures
        ({
            let after = after_call(m, call);
            &&& after.within_limits()
            &&& after.policy == m.policy
            &&& playbacks(after, k) == playbacks(m, k) + playback_step(call, k)
            &&& holds_back(after, k, call_time(call)) ==> bulk_permits(after, k) <= bulk_permits(
                m,
                k,
            ) || bulk_permits(after, k) <= own_limits(m.policy, k.kind).playback_bulk_limit
        }),
{
    match call {
        CoordinatorCall::Enqueue { root, class, now } => {
            let j = crate::media_io_runs::joined(m, root, class, now);
            let w = crate::media_io_runs::with_request(m);
            assert(after_call(m, call) == w.settle(root, j, now));
            lemma_settled_call(m, w, root, j, now, k);
        },
        CoordinatorCall::Acquire { id } => {
            lemma_same_roots(m, after_call(m, call));
        },
        CoordinatorCall::Cancel { root, id, class, now } => {
            lemma_cancel_effect(m, root, id, class, now, k);
        },
        CoordinatorCall::GiveUp { root, id, class, now } => {
            lemma_cancel_effect(m, root, id, class, now, k);
            lemma_same_roots(m.cancelled(root, id, class, now), after_call(m, call));
        },
        CoordinatorCall::Release { root, class, outcome, now } => {
            if m.roots.contains_key(root) {
                let f = crate::media_io::freed(m.roots[root], class, outcome);
                lemma_freed_fits(m, root, class, outcome);
                lemma_settled_call(m, m, root, f, now, k);
            }
        },
        CoordinatorCall::BeginPlayback { root, now } => {
            let r = m.root_or_fresh(root);
            let b = RootModel {
                playback_leases: if r.playback_leases == usize::MAX {
                    usize::MAX
                } else {
                    (r.playback_leases + 1) as usize
                },
                playback_hysteresis_until_us: 0,
                ..r
            };
            lemma_settled_call(m, m, root, b, now, k);
        },
        CoordinatorCall::EndPlayback { root, now } => {
            if m.roots.contains_key(root) {
                let r = m.roots[root];
                let leases = if r.playback_leases == 0 {
                    0
                } else {
                    (r.playback_leases - 1) as usize
                };
                let b = RootModel {
                    playback_leases: leases,
                    playback_hysteresis_until_us: if leases == 0 {
                        crate::media_io::sat(now, m.policy.playback_hysteresis_us)
                    } else {
                        r.playback_hysteresis_until_us
                    },
                    ..r
                };
                lemma_settled_call(m, m, root, b, now, k);
            }
        },
        CoordinatorCall::Refresh { order, now } => {
            lemma_refresh_effect(m, order, now, k);
        },
        CoordinatorCall::Wake { root, now } => {
            if m.roots.contains_key(root) {
                lemma_settled_call(m, m, root, m.roots[root], now, k);
            }
        },
        CoordinatorCall::Count { root, class, stats } => {
            let after = after_call(m, call);
            assert forall|x: RootKey| #[trigger] after.roots.contains_key(x) implies after.roots[x].fits(
                after.policy.limits_of(x.kind),
            ) by {
                if m.roots.contains_key(x) {
                    assert(m.roots[x].fits(m.policy.limits_of(x.kind)));
                }
            }
        },
    }
}

proof fn lemma_same_roots(m: CoordinatorModel, after: CoordinatorModel)
    requires
        m.within_limits(),
        after.roots == m.roots,
        after.policy == m.policy,
    ensures
        after.within_limits(),
{
    assert forall|x: RootKey| #[trigger] after.roots.contains_key(x) implies after.roots[x].fits(
        after.policy.limits_of(x.kind),
    ) by {
        assert(m.roots.contains_key(x));
    }
}

proof fn lemma_freed_fits(m: CoordinatorModel, k: RootKey, class: WorkClass, outcome: PermitOutcome)
    requires
        m.within_limits(),
        m.roots.contains_key(k),
    ensures
        crate::media_io::freed(m.roots[k], class, outcome).fits(m.policy.limits_of(k.kind)),
{
    assert(m.roots[k].fits(m.policy.limits_of(k.kind)));
}

/// What settling root `root` as `r` does to any root `k`, where `r` takes no more permits than the
/// root had.
proof fn lemma_settled_call(
    m: CoordinatorModel,
    w: CoordinatorModel,
    root: RootKey,
    r: RootModel,
    now: u64,
    k: RootKey,
)
    requires
        m.within_limits(),
        w.policy == m.policy,
        w.roots == m.roots,
        r.active.len() == 6,
        r.stats.len() == 6,
        forall|c: int|
            0 <= c < 6 ==> (#[trigger] r.active[c]) <= m.root_or_fresh(root).active[c],
    ensures
        ({
            let after = w.settle(root, r, now);
            &&& after.within_limits()
            &&& after.policy == m.policy
            &&& k == root ==> playbacks(after, k) == r.playback_leases
            &&& k != root ==> playbacks(after, k) == playbacks(m, k)
            &&& holds_back(after, k, now) ==> bulk_permits(after, k) <= bulk_permits(m, k)
                || bulk_permits(after, k) <= own_limits(m.policy, k.kind).playback_bulk_limit
        }),
{
    let before = m.root_or_fresh(root);
    assert(before.fits(m.policy.limits_of(root.kind))) by {
        if m.roots.contains_key(root) {
            assert(m.roots[root].fits(m.policy.limits_of(root.kind)));
        }
    }
    assert(r.active[0] <= before.active[0] && r.active[1] <= before.active[1] && r.active[2]
        <= before.active[2] && r.active[3] <= before.active[3] && r.active[4] <= before.active[4]
        && r.active[5] <= before.active[5]);
    assert(r.fits(m.policy.limits_of(root.kind)));
    lemma_settle_effect(w, root, r, now);
    let after = w.settle(root, r, now);
    let limits = m.policy.limits_of(root.kind);
    let sw = swept(r, w.requests);
    assert(sw.fits(limits));
    crate::media_io::scheduling_obeys_the_limits(
        limits,
        m.policy.priority_burst,
        sw,
        w.requests,
        now,
    );
    assert forall|x: RootKey| #[trigger] after.roots.contains_key(x) implies after.roots[x].fits(
        after.policy.limits_of(x.kind),
    ) by {
        if x != root {
            assert(m.roots.contains_key(x));
        }
    }
}

proof fn lemma_cancel_effect(
    m: CoordinatorModel,
    root: RootKey,
    id: u64,
    class: WorkClass,
    now: u64,
    k: RootKey,
)
    requires
        m.within_limits(),
    ensures
        ({
            let after = m.cancelled(root, id, class, now);
            &&& after.within_limits()
            &&& after.policy == m.policy
            &&& playbacks(after, k) == playbacks(m, k)
            &&& holds_back(after, k, now) ==> bulk_permits(after, k) <= bulk_permits(m, k)
                || bulk_permits(after, k) <= own_limits(m.policy, k.kind).playback_bulk_limit
        }),
{
    if m.cancellable(root, id) {
        let c = crate::media_io_runs::cancelled_root(m, root, id, class);
        let w = crate::media_io_runs::with_cancelled(m, id);
        assert(m.roots[root].fits(m.policy.limits_of(root.kind)));
        assert(m.cancelled(root, id, class, now) == w.settle(root, c, now));
        lemma_settled_call(m, w, root, c, now, k);
    }
}

proof fn lemma_refresh_effect(m: CoordinatorModel, order: Seq<RootKey>, now: u64, k: RootKey)
    requires
        m.within_limits(),
        forall|i: int| 0 <= i < order.len() ==> m.roots.contains_key(#[trigger] order[i]),
    ensures
        ({
            let after = m.refreshed(order, now);
            &&& after.within_limits()
            &&& after.policy == m.policy
            &&& forall|x: RootKey|
                m.roots.contains_key(x) ==> #[trigger] after.roots.contains_key(x)
            &&& playbacks(after, k) == playbacks(m, k)
            &&& holds_back(after, k, now) == holds_back(m, k, now)
            &&& holds_back(after, k, now) ==> bulk_permits(after, k) <= bulk_permits(m, k)
                || bulk_permits(after, k) <= own_limits(m.policy, k.kind).playback_bulk_limit
        }),
    decreases order.len(),
{
    if order.len() > 0 {
        let front = order.drop_last();
        assert forall|i: int| 0 <= i < front.len() implies m.roots.contains_key(
            #[trigger] front[i],
        ) by {
            assert(front[i] == order[i]);
        }
        lemma_refresh_effect(m, front, now, k);
        let before = m.refreshed(front, now);
        let root = order.last();
        assert(m.roots.contains_key(order[order.len() - 1]));
        assert(before.roots.contains_key(root));
        lemma_settled_call(before, before, root, before.roots[root], now, k);
        lemma_settle_effect(before, root, before.roots[root], now);
    }
}

/// What a call gives while playback holds the bulk work of a root back: no bulk permit beyond the
/// limit during playback. Whatever else the call does, the playbacks of the root stay as many as
/// have begun and not ended.
pub proof fn playback_holds_bulk_work_back(m: CoordinatorModel, call: CoordinatorCall, k: RootKey)
    requires
        m.within_limits(),
        names_known_roots(m, call),
        0 <= playbacks(m, k) + playback_step(call, k) <= usize::MAX,
    ensures
        ({
            let after = after_call(m, call);
            &&& playbacks(after, k) == playbacks(m, k) + playback_step(call, k)
            &&& playbacks(after, k) > 0 ==> bulk_permits(after, k) <= bulk_permits(m, k)
                || bulk_permits(after, k) <= own_limits(m.policy, k.kind).playback_bulk_limit
        }),
{
    lemma_call_effect(m, call, k);
}

/// The playbacks of a root that a run of calls begins, less those that it ends.
pub open spec fn playbacks_left(calls: Seq<CoordinatorCall>, k: RootKey) -> int
    decreases calls.len(),
{
    if calls.len() == 0 {
        0
    } else {
        playbacks_left(calls.drop_last(), k) + playback_step(calls.last(), k)
    }
}

/// Over any run of calls in which no more playbacks of a root end than have begun, the root has as
/// many playbacks as have begun and not ended; until all have ended, its bulk work is held back at
/// every time.
pub proof fn playback_lasts_until_all_have_ended(
    m: CoordinatorModel,
    calls: Seq<CoordinatorCall>,
    k: RootKey,
    later: u64,
)
    requires
        m.within_limits(),
        forall|n: int|
            0 <= n <= calls.len() ==> 0 <= playbacks(m, k) + #[trigger] playbacks_left(
                calls.take(n),
                k,
            ) <= usize::MAX,
        forall|n: int|
            0 <= n < calls.len() ==> names_known_roots(
                after_calls(m, calls.take(n)),
                #[trigger] calls[n],
            ),
    ensures
        after_calls(m, calls).within_limits(),
        after_calls(m, calls).policy == m.policy,
        playbacks(after_calls(m, calls), k) == playbacks(m, k) + playbacks_left(calls, k),
        playbacks(m, k) + playbacks_left(calls, k) > 0 ==> holds_back(
            after_calls(m, calls),
            k,
            later,
        ) && after_calls(m, calls).roots[k].throttled(later),
    decreases calls.len(),
{
    assert(calls.take(calls.len() as int) =~= calls);
    if calls.len() > 0 {
        let front = calls.drop_last();
        let n = calls.len() - 1;
        assert(front =~= calls.take(n));
        assert forall|i: int| 0 <= i <= front.len() implies 0 <= playbacks(m, k)
            + #[trigger] playbacks_left(front.take(i), k) <= usize::MAX by {
            assert(front.take(i) =~= calls.take(i));
        }
        assert forall|i: int| 0 <= i < front.len() implies names_known_roots(
            after_calls(m, front.take(i)),
            #[trigger] front[i],
        ) by {
            assert(front.take(i) =~= calls.take(i));
            assert(front[i] == calls[i]);
        }
        playback_lasts_until_all_have_ended(m, front, k, later);
        lemma_calls_split(m, calls);
        assert(calls[n] == calls.last());
        assert(0 <= playbacks(m, k) + playbacks_left(calls.take(n + 1), k) <= usize::MAX);
        assert(calls.take(n + 1) =~= calls);
        lemma_call_effect(after_calls(m, front), calls.last(), k);
    }
}

proof fn lemma_calls_split(m: CoordinatorModel, calls: Seq<CoordinatorCall>)
    requires
        calls.len() > 0,
    ensures
        after_calls(m, calls) == after_call(after_calls(m, calls.drop_last()), calls.last()),
    decreases calls.len(),
{
    if calls.len() == 1 {
        assert(calls.drop_last() =~= Seq::<CoordinatorCall>::empty());
        assert(calls.drop_first() =~= Seq::<CoordinatorCall>::empty());
        reveal_with_fuel(after_calls, 2);
    } else {
        lemma_calls_split(after_call(m, calls[0]), calls.drop_first());
        assert(calls.drop_first().drop_last() =~= calls.drop_last().drop_first());
        assert(calls.drop_last()[0] == calls[0]);
    }
}

/// Whether one more request of a class could be granted on a root: a permit is free, and what is
/// reserved for the other kind of work, or the limit during playback, is not touched.
pub open spec fn has_room(m: CoordinatorModel, k: RootKey, now: u64, class: WorkClass) -> bool {
    let limits = own_limits(m.policy, k.kind);
    let a = m.roots[k].active;
    let urgent = a[0] + a[1];
    let bulk = bulk_permits(m, k);
    &&& urgent + bulk < limits.total
    &&& if class is Playback || class is Visible {
        urgent + limits.bulk_reserved < limits.total
    } else {
        &&& bulk + limits.interactive_reserved < limits.total
        &&& holds_back(m, k, now) ==> bulk < limits.playback_bulk_limit
    }
}

/// Whether a call has the queue of a root looked through.
pub open spec fn looks_at(m: CoordinatorModel, call: CoordinatorCall, k: RootKey) -> bool {
    match call {
        CoordinatorCall::Enqueue { root, .. } => root == k,
        CoordinatorCall::Acquire { .. } => false,
        CoordinatorCall::Cancel { root, id, .. } => root == k && m.cancellable(root, id),
        CoordinatorCall::GiveUp { .. } => false,
        CoordinatorCall::Release { root, .. } => root == k && m.roots.contains_key(k),
        CoordinatorCall::BeginPlayback { root, .. } => root == k,
        CoordinatorCall::EndPlayback { root, .. } => root == k && m.roots.contains_key(k),
        CoordinatorCall::Refresh { order, .. } => order.len() > 0 && order.last() == k,
        CoordinatorCall::Wake { root, .. } => root == k && m.roots.contains_key(k),
        CoordinatorCall::Count { .. } => false,
    }
}

proof fn lemma_nothing_waits_settled(w: CoordinatorModel, k: RootKey, r: RootModel, now: u64)
    requires
        w.policy.is_sane(),
        r.fits(w.policy.limits_of(k.kind)),
    ensures
        ({
            let after = w.settle(k, r, now);
            forall|j: int|
                0 <= j < after.roots[k].queue.len() ==> !has_room(
                    after,
                    k,
                    now,
                    (#[trigger] after.roots[k].queue[j]).class,
                )
        }),
{
    let limits = w.policy.limits_of(k.kind);
    let sw = swept(r, w.requests);
    assert(sw.fits(limits));
    crate::media_io::scheduling_takes_what_is_due(
        limits,
        w.policy.priority_burst,
        sw,
        w.requests,
        now,
    );
    let after = w.settle(k, r, now);
    let a = after.roots[k];
    assert forall|j: int| 0 <= j < a.queue.len() implies !has_room(
        after,
        k,
        now,
        (#[trigger] a.queue[j]).class,
    ) by {
        assert(!crate::media_io::can_be_granted(limits, a, now, a.queue[j].class));
    }
}

/// Capacity never lies idle: after any call that has the queue of a root looked through, nothing
/// waits there that there is room for. So what a permit gives back, what a playback or its
/// aftermath no longer holds back, and what a cancelled request leaves goes to whoever waits.
#[verifier::spinoff_prover]
#[verifier::rlimit(60)]
pub proof fn capacity_is_handed_on(m: CoordinatorModel, call: CoordinatorCall, k: RootKey)
    requires
        m.policy.is_sane(),
        m.within_limits(),
        names_known_roots(m, call),
        looks_at(m, call, k),
    ensures
        ({
            let after = after_call(m, call);
            forall|j: int|
                0 <= j < after.roots[k].queue.len() ==> !has_room(
                    after,
                    k,
                    call_time(call),
                    (#[trigger] after.roots[k].queue[j]).class,
                )
        }),
{
    assert(m.roots.contains_key(k) ==> m.roots[k].fits(m.policy.limits_of(k.kind)));
    match call {
        CoordinatorCall::Enqueue { root, class, now } => {
            let j = crate::media_io_runs::joined(m, root, class, now);
            let w = crate::media_io_runs::with_request(m);
            assert(after_call(m, call) == w.settle(root, j, now));
            lemma_nothing_waits_settled(w, root, j, now);
        },
        CoordinatorCall::Cancel { root, id, class, now } => {
            let c = crate::media_io_runs::cancelled_root(m, root, id, class);
            let w = crate::media_io_runs::with_cancelled(m, id);
            assert(m.cancelled(root, id, class, now) == w.settle(root, c, now));
            lemma_nothing_waits_settled(w, root, c, now);
        },
        CoordinatorCall::Release { root, class, outcome, now } => {
            lemma_nothing_waits_settled(
                m,
                root,
                crate::media_io::freed(m.roots[root], class, outcome),
                now,
            );
        },
        CoordinatorCall::BeginPlayback { root, now } => {
            let r = m.root_or_fresh(root);
            let b = RootModel {
                playback_leases: if r.playback_leases == usize::MAX {
                    usize::MAX
                } else {
                    (r.playback_leases + 1) as usize
                },
                playback_hysteresis_until_us: 0,
                ..r
            };
            lemma_nothing_waits_settled(m, root, b, now);
        },
        CoordinatorCall::EndPlayback { root, now } => {
            let r = m.roots[root];
            let leases = if r.playback_leases == 0 {
                0
            } else {
                (r.playback_leases - 1) as usize
            };
            let b = RootModel {
                playback_leases: leases,
                playback_hysteresis_until_us: if leases == 0 {
                    crate::media_io::sat(now, m.policy.playback_hysteresis_us)
                } else {
                    r.playback_hysteresis_until_us
                },
                ..r
            };
            lemma_nothing_waits_settled(m, root, b, now);
        },
        CoordinatorCall::Refresh { order, now } => {
            let front = order.drop_last();
            assert forall|i: int| 0 <= i < front.len() implies m.roots.contains_key(
                #[trigger] front[i],
            ) by {
                assert(front[i] == order[i]);
            }
            lemma_refresh_effect(m, front, now, k);
            let before = m.refreshed(front, now);
            assert(m.roots.contains_key(order[order.len() - 1]));
            assert(before.roots.contains_key(k));
            assert(before.roots[k].fits(before.policy.limits_of(k.kind)));
            lemma_nothing_waits_settled(before, k, before.roots[k], now);
        },
        CoordinatorCall::Wake { root, now } => {
            lemma_nothing_waits_settled(m, root, m.roots[root], now);
        },
        _ => {},
    }
}

/// A request that stays pending through granting stays in the queue as it is; what leaves no trace
/// in the queue has left it for good.
proof fn lemma_pending_stays(
    limits: RootLimits,
    burst: u32,
    r: RootModel,
    requests: Map<u64, RequestStatus>,
    now: u64,
    e: QueueEntry,
)
    requires
        r.fits(limits),
    ensures
        ({
            let after = grants(limits, burst, r, requests, now);
            &&& r.queue.contains(e) && requests.contains_key(e.id) && after.1[e.id]
                == RequestStatus::Pending ==> after.0.queue.contains(e)
            &&& after.0.queue.contains(e) ==> r.queue.contains(e)
            &&& after.1.contains_key(e.id) == requests.contains_key(e.id)
            &&& requests.contains_key(e.id) && after.1[e.id] != requests[e.id] ==> requests[e.id]
                == RequestStatus::Pending && after.1[e.id] == RequestStatus::Granted
        }),
    decreases r.queue.len(),
{
    crate::media_io::next_grant_is_urgent_or_fair(limits, burst, r, now);
    match next_entry(limits, burst, r, now) {
        Some(i) => if r.active_total() < limits.total && 0 <= i < r.queue.len() {
            let x = r.queue[i];
            let q = r.queue.remove(i);
            if r.queue.contains(e) && e != x {
                let j = r.queue.index_of(e);
                if j < i {
                    assert(q[j] == e);
                } else {
                    assert(q[j - 1] == e);
                }
            }
            if q.contains(e) {
                let j = q.index_of(e);
                if j < i {
                    assert(r.queue[j] == e);
                } else {
                    assert(r.queue[j + 1] == e);
                }
            }
            if requests.contains_key(x.id) && requests[x.id] == RequestStatus::Pending {
                crate::media_io::grant_stays_within_limits(limits, burst, r, now);
                lemma_pending_stays(
                    limits,
                    burst,
                    granted(r, i, now),
                    requests.insert(x.id, RequestStatus::Granted),
                    now,
                    e,
                );
            } else {
                lemma_pending_stays(limits, burst, discarded(r, i), requests, now, e);
            }
        },
        None => {},
    }
}

/// A new request is one of the root and the class that were asked for, with the next number. It is
/// granted, or it waits, at its time and behind whoever came before; it is counted once, under its
/// class and no other. A new request makes no other request of the root vanish.
pub proof fn requests_are_taken_as_asked(
    m: CoordinatorModel,
    k: RootKey,
    class: WorkClass,
    now: u64,
    other: WorkClass,
)
    requires
        m.within_limits(),
    ensures
        ({
            let after = m.enqueued(k, class, now);
            let id = m.next_request_id;
            let e = QueueEntry { id, sequence: m.next_sequence, class, enqueued_us: now };
            let before = if m.roots.contains_key(k) {
                m.roots[k].stats[other.place()].enqueued
            } else {
                0
            };
            let counted = after.roots[k].stats[other.place()].enqueued;
            &&& after.roots.contains_key(k)
            &&& after.requests.contains_key(id)
            &&& after.requests[id] == RequestStatus::Granted || (after.requests[id]
                == RequestStatus::Pending && after.roots[k].queue.contains(e))
            &&& forall|x: QueueEntry| #[trigger]
                after.roots[k].queue.contains(x) ==> x == e || (m.roots.contains_key(k)
                    && m.roots[k].queue.contains(x))
            &&& other == class && before < u64::MAX ==> counted == before + 1
            &&& other != class ==> counted == before
            &&& m.next_request_id < u64::MAX ==> after.next_request_id == m.next_request_id + 1
            &&& m.next_sequence < u64::MAX ==> after.next_sequence == m.next_sequence + 1
        }),
{
    let r = m.root_or_fresh(k);
    let j = crate::media_io_runs::joined(m, k, class, now);
    let w = crate::media_io_runs::with_request(m);
    let limits = m.policy.limits_of(k.kind);
    assert(m.roots.contains_key(k) ==> m.roots[k].fits(limits));
    assert(m.enqueued(k, class, now) == w.settle(k, j, now));
    lemma_settle_effect(w, k, j, now);
    let e = QueueEntry {
        id: m.next_request_id,
        sequence: m.next_sequence,
        class,
        enqueued_us: now,
    };
    let sw = swept(j, w.requests);
    assert(sw.fits(limits));
    let known = |x: QueueEntry| w.requests.contains_key(x.id);
    assert(j.queue.last() == e);
    assert(known(e));
    assert(sw.queue.contains(e)) by {
        j.queue.lemma_filter_contains(known, j.queue.len() - 1);
        assert(j.queue[j.queue.len() - 1] == e);
    }
    lemma_pending_stays(limits, m.policy.priority_burst, sw, w.requests, now, e);
    let after = m.enqueued(k, class, now);
    assert forall|x: QueueEntry| #[trigger] after.roots[k].queue.contains(x) implies x == e || (
    m.roots.contains_key(k) && m.roots[k].queue.contains(x)) by {
        lemma_pending_stays(limits, m.policy.priority_burst, sw, w.requests, now, x);
        assert(sw.queue.contains(x));
        j.queue.lemma_filter_contains_rev(known, x);
        let p = j.queue.index_of(x);
        if p < r.queue.len() {
            assert(r.queue[p] == x);
        }
    }
    assert(other.place() == class.place() ==> other == class);
    assert(0 <= other.place() < 6);
    assert(after.roots[k].stats[other.place()].enqueued == j.stats[other.place()].enqueued);
}

/// A permit that ends gives back one permit of its class, and is counted once, under its class and
/// as what it ended.
pub proof fn permits_end_as_they_do(
    m: CoordinatorModel,
    k: RootKey,
    class: WorkClass,
    outcome: PermitOutcome,
    now: u64,
    other: WorkClass,
)
    requires
        m.within_limits(),
        m.roots.contains_key(k),
        m.roots[k].active[class.place()] > 0,
    ensures
        ({
            let s = m.roots[k].stats[other.place()];
            let t = m.released(k, class, outcome, now).roots[k].stats[other.place()];
            let a = m.roots[k].active[other.place()];
            let b = m.released(k, class, outcome, now).roots[k].active[other.place()];
            let o = s.release_outcomes;
            let p = t.release_outcomes;
            &&& t.granted < u64::MAX && other == class ==> a - 1 + (t.granted - s.granted) == b
            &&& t.granted < u64::MAX && other != class ==> a + (t.granted - s.granted) == b
            &&& other != class ==> p == o && t.released == s.released
            &&& other == class && s.released < u64::MAX ==> t.released == s.released + 1
            &&& other == class && o.success < u64::MAX ==> p.success == o.success + (if outcome
                is Success {
                1int
            } else {
                0
            })
            &&& other == class && o.error < u64::MAX ==> p.error == o.error + (if outcome is Error {
                1int
            } else {
                0
            })
            &&& other == class && o.cancelled < u64::MAX ==> p.cancelled == o.cancelled + (
            if outcome is Cancelled {
                1int
            } else {
                0
            })
            &&& other == class && o.stale < u64::MAX ==> p.stale == o.stale + (if outcome is Stale {
                1int
            } else {
                0
            })
            &&& other == class && o.worker_shutdown < u64::MAX ==> p.worker_shutdown
                == o.worker_shutdown + (if outcome is WorkerShutdown {
                1int
            } else {
                0
            })
            &&& other == class && o.dropped < u64::MAX ==> p.dropped == o.dropped + (if outcome
                is Dropped {
                1int
            } else {
                0
            })
            &&& t.enqueued == s.enqueued && t.cancelled == s.cancelled
        }),
{
    let f = crate::media_io::freed(m.roots[k], class, outcome);
    lemma_freed_fits(m, k, class, outcome);
    assert(m.roots[k].fits(m.policy.limits_of(k.kind)));
    lemma_settle_effect(m, k, f, now);
    assert(other.place() == class.place() ==> other == class);
    assert(0 <= other.place() < 6);
    let a = m.released(k, class, outcome, now).roots[k];
    assert(a.stats[other.place()].released == f.stats[other.place()].released);
}

/// A grant takes the request out of the queue and gives one permit of its class; the time that it
/// waited is added up, and the longest wait kept.
pub proof fn grants_are_measured(r: RootModel, i: int, now: u64, other: WorkClass)
    requires
        0 <= i < r.queue.len(),
        r.active.len() == 6,
        r.stats.len() == 6,
        r.active[r.queue[i].class.place()] < usize::MAX,
    ensures
        ({
            let e = r.queue[i];
            let g = granted(r, i, now);
            let s = r.stats[other.place()];
            let t = g.stats[other.place()];
            let waited = if now >= e.enqueued_us {
                now - e.enqueued_us
            } else {
                0
            };
            &&& g.queue == r.queue.remove(i)
            &&& other == e.class ==> {
                &&& g.active[other.place()] == r.active[other.place()] + 1
                &&& s.granted < u64::MAX ==> t.granted == s.granted + 1
                &&& s.queue_wait_total_us + waited <= u64::MAX ==> t.queue_wait_total_us
                    == s.queue_wait_total_us + waited
                &&& t.queue_wait_max_us >= s.queue_wait_max_us && t.queue_wait_max_us >= waited
                &&& t.queue_wait_max_us == s.queue_wait_max_us || t.queue_wait_max_us == waited
            }
            &&& other != e.class ==> g.active[other.place()] == r.active[other.place()] && t == s
        }),
{
    assert(other.place() == r.queue[i].class.place() ==> other == r.queue[i].class);
}

/// Who waits for a request that is still queued sleeps at most until the aftermath of playback
/// ends, and without a limit where there is none; who holds a grant gets the permit of the root and
/// the class asked for.
pub proof fn waiting_ends_with_the_aftermath(
    request: IoRequest,
    m: CoordinatorModel,
    after: CoordinatorModel,
    now: u64,
    r: WaitTurn,
)
    requires
        m.requests.contains_key(request.id_of()),
        request.waited(m, after, now, r),
    ensures
        m.requests[request.id_of()] == RequestStatus::Pending ==> after == m && match r {
            WaitTurn::ParkFor(us) => {
                &&& us > 0
                &&& now + us <= u64::MAX
                &&& m.roots.contains_key(request.root_of())
                &&& now + us == m.roots[request.root_of()].playback_hysteresis_until_us
            },
            WaitTurn::Park => !m.roots.contains_key(request.root_of())
                || m.roots[request.root_of()].playback_hysteresis_until_us <= now,
            _ => false,
        },
        m.requests[request.id_of()] == RequestStatus::Granted ==> {
            &&& r is Acquired
            &&& r->Acquired_0.root_of() == request.root_of()
            &&& r->Acquired_0.class_of() == request.class_of()
            &&& after.requests[request.id_of()] == RequestStatus::Consumed
            &&& after.roots == m.roots
            &&& forall|x: u64| #![trigger after.requests.contains_key(x)]
                x != request.id_of() ==> after.requests.contains_key(x) == m.requests.contains_key(
                    x,
                ) && after.requests[x] == m.requests[x]
        },
{
}

/// Playback and visible thumbnails are interactive and come first, in that order; then come rows,
/// scans, prefetching and sweeps. No two classes share a place.
pub proof fn classes_have_their_order(a: WorkClass, b: WorkClass)
    ensures
        a.interactive() <==> a is Playback || a is Visible,
        a.interactive() && !b.interactive() ==> a.place() < b.place(),
        a is Playback && !(b is Playback) ==> a.place() < b.place(),
        a is Metadata && b is Scan || a is Scan && b is Prefetch || a is Prefetch && b is Background
            ==> a.place() < b.place(),
        a.place() == b.place() ==> a == b,
        0 <= a.place() < 6,
        WorkClass::all_spec()[a.place()] == a,
        WorkClass::all_spec().len() == 6,
{
}

/// A policy is kept as it is where it makes sense; where it does not, at least one request goes at
/// a time, each side keeps at least one lane, and bulk work keeps one under playback.
pub proof fn policies_are_kept_or_mended(p: IoPolicy, kind: RootKind)
    ensures
        ({
            let l = own_limits(p, kind);
            let s = own_limits(p.sane(), kind);
            &&& s.total >= 1 && s.interactive_reserved < s.total && s.bulk_reserved < s.total
            &&& 1 <= s.playback_bulk_limit <= s.total
            &&& l.total >= 1 ==> s.total == l.total
            &&& s.total == l.total || s.total == 1
            &&& l.interactive_reserved < s.total ==> s.interactive_reserved
                == l.interactive_reserved
            &&& l.interactive_reserved >= s.total ==> s.interactive_reserved == s.total - 1
            &&& l.bulk_reserved < s.total ==> s.bulk_reserved == l.bulk_reserved
            &&& l.bulk_reserved >= s.total ==> s.bulk_reserved == s.total - 1
            &&& 1 <= l.playback_bulk_limit <= s.total ==> s.playback_bulk_limit
                == l.playback_bulk_limit
            &&& l.playback_bulk_limit > s.total ==> s.playback_bulk_limit == s.total
            &&& l.playback_bulk_limit == 0 ==> s.playback_bulk_limit == 1
        }),
        p.limits_of(kind) == own_limits(p, kind),
        p.sane().playback_hysteresis_us == p.playback_hysteresis_us,
        p.priority_burst >= 1 ==> p.sane().priority_burst == p.priority_burst,
        p.sane().priority_burst >= 1,
{
}

/// Unless told otherwise, twelve requests go at a time on a local root, four on a remote one and two
/// on an unknown one, so that doubt never floods a network; bulk work goes on held back for three
/// quarters of a second after playback, and four grants in a row make a run.
pub proof fn standard_limits_are_conservative(kind: RootKind)
    ensures
        ({
            let p = crate::media_io::standard_policy();
            let l = own_limits(p, kind);
            &&& p == p.sane()
            &&& kind is Local ==> l.total == 12 && l.interactive_reserved == 2
                && l.playback_bulk_limit == 2
            &&& kind is Remote ==> l.total == 4 && l.interactive_reserved == 1
                && l.playback_bulk_limit == 1
            &&& kind is Unknown ==> l.total == 2 && l.interactive_reserved == 1
                && l.playback_bulk_limit == 1
            &&& l.bulk_reserved == 1
            &&& p.playback_hysteresis_us == 750_000
            &&& p.priority_burst == 4
        }),
{
}

/// A report on a root says how many playbacks it has and whether and how long they hold bulk work
/// back, how many bulk permits there may be, and of each class what is queued, active and counted.
pub proof fn reports_tell_the_state(
    d: RootDiagnostics,
    k: RootKey,
    m: CoordinatorModel,
    now: u64,
    class: WorkClass,
)
    requires
        m.policy.is_sane(),
        m.roots.contains_key(k),
        d.reports(k, m.policy.limits_of(k.kind), m.roots[k], now),
    ensures
        ({
            let limits = own_limits(m.policy, k.kind);
            let r = m.roots[k];
            let s = r.stats[class.place()];
            let c = d.classes@[class.place()];
            &&& d.root@ == k && d.limits == limits
            &&& d.playback_leases == r.playback_leases
            &&& d.playback_throttled == holds_back(m, k, now)
            &&& r.playback_hysteresis_until_us > now ==> d.hysteresis_remaining_us + now
                == r.playback_hysteresis_until_us
            &&& r.playback_hysteresis_until_us <= now ==> d.hysteresis_remaining_us == 0
            &&& d.effective_bulk_limit <= limits.total - limits.interactive_reserved
            &&& holds_back(m, k, now) ==> d.effective_bulk_limit <= limits.playback_bulk_limit
            &&& d.effective_bulk_limit == limits.total - limits.interactive_reserved || (holds_back(
                m,
                k,
                now,
            ) && d.effective_bulk_limit == limits.playback_bulk_limit)
            &&& d.classes@.len() == 6
            &&& c.class == class
            &&& r.queue.len() <= usize::MAX ==> c.queued == r.queue.filter(
                |e: QueueEntry| e.class == class,
            ).len()
            &&& c.active == r.active[class.place()]
            &&& c.enqueued == s.enqueued && c.granted == s.granted && c.cancelled == s.cancelled
                && c.released == s.released
            &&& c.max_queued == s.max_queued && c.queue_wait_total_us == s.queue_wait_total_us
                && c.queue_wait_max_us == s.queue_wait_max_us && c.cache_hits == s.cache_hits
            &&& c.filesystem_operations == s.filesystem_operations && c.filesystem_total_us
                == s.filesystem_total_us && c.filesystem_max_us == s.filesystem_max_us
            &&& c.release_outcomes == s.release_outcomes
        }),
{
    let r = m.roots[k];
    classes_have_their_order(class, class);
    assert(d.classes@[class.place()] == class_report(r, class));
    let f = |e: QueueEntry| e.class == class;
    r.queue.lemma_filter_len(f);
}

/// A run of grants of one class is counted from its first; a grant of another class begins a new
/// run. The playbacks of the root do not change with a grant.
pub proof fn runs_of_one_class_are_counted(r: RootModel, i: int, now: u64)
    requires
        0 <= i < r.queue.len(),
    ensures
        ({
            let c = r.queue[i].class.place();
            let g = granted(r, i, now);
            &&& g.last_priority == Some(c as u8)
            &&& r.last_priority != Some(c as u8) ==> g.priority_streak == 1
            &&& r.last_priority == Some(c as u8) && r.priority_streak < u32::MAX
                ==> g.priority_streak == r.priority_streak + 1
            &&& g.priority_streak >= 1
            &&& g.playback_leases == r.playback_leases
            &&& g.playback_hysteresis_until_us == r.playback_hysteresis_until_us
        }),
{
}

/// A permit is handed out once: taking it changes the state of its request and nothing else.
pub proof fn permits_are_taken_once(m: CoordinatorModel, id: u64, other: u64)
    ensures
        ({
            let a = m.acquired(id);
            let had = m.requests.contains_key(id) && m.requests[id] == RequestStatus::Granted;
            &&& had ==> a.requests[id] == RequestStatus::Consumed
            &&& !had ==> a == m
            &&& a.acquired(id) == a
            &&& other != id ==> (a.requests.contains_key(other) <==> m.requests.contains_key(other))
                && a.requests[other] == m.requests[other]
            &&& a.roots == m.roots && a.policy == m.policy
        }),
{
}

} // verus!
