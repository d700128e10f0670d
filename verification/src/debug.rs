//! The log of what the program did: a ring of recent events and how they are read back.

use crate::order::{is_stable_order, keyed_before, stable_order};
use crate::outside::now_rfc3339;
use crate::text::{
    ascii_upper, cat3, str_eq, text_order_is_total, text_order_is_transitive, text_rank, texts,
    to_ascii_uppercase, Rank,
};
use std::collections::VecDeque;
use vstd::prelude::*;

verus! {

#[derive(Debug)]
pub struct DebugEvent {
    pub ts: String,
    pub level: String,
    pub source: String,
    pub message: String,
    /// What else is known, in JSON.
    pub payload: String,
}

#[verifier::ext_equal]
pub ghost struct EventModel {
    pub ts: Seq<char>,
    pub level: Seq<char>,
    pub source: Seq<char>,
    pub message: Seq<char>,
    pub payload: Seq<char>,
}

impl View for DebugEvent {
    type V = EventModel;

    open spec fn view(&self) -> EventModel {
        EventModel {
            ts: self.ts@,
            level: self.level@,
            source: self.source@,
            message: self.message@,
            payload: self.payload@,
        }
    }
}

impl Clone for DebugEvent {
    fn clone(&self) -> (r: Self)
        ensures
            r@ == self@,
    {
        DebugEvent {
            ts: self.ts.clone(),
            level: self.level.clone(),
            source: self.source.clone(),
            message: self.message.clone(),
            payload: self.payload.clone(),
        }
    }
}

pub open spec fn events_of(v: Seq<DebugEvent>) -> Seq<EventModel> {
    v.map_values(|e: DebugEvent| e@)
}

#[derive(Debug)]
pub struct DebugBus {
    pub path: String,
    pub max_events: usize,
    pub events: VecDeque<DebugEvent>,
}

/// A ring after one more event: where it is full, the oldest event goes.
pub open spec fn ring_after(events: Seq<EventModel>, max: nat, e: EventModel) -> Seq<EventModel> {
    if events.len() >= max && events.len() > 0 {
        events.drop_first().push(e)
    } else {
        events.push(e)
    }
}

/// A ring never grows beyond its size, or beyond one event where that is nothing.
pub proof fn rings_keep_their_size(events: Seq<EventModel>, max: nat, e: EventModel)
    requires
        events.len() <= max || events.len() <= 1,
    ensures
        ring_after(events, max, e).len() <= max || ring_after(events, max, e).len() <= 1,
        ring_after(events, max, e).last() == e,
{
}

/// Events of a list, each once, at its first place.
pub open spec fn distinct(s: Seq<EventModel>) -> Seq<EventModel>
    decreases s.len(),
{
    if s.len() == 0 {
        Seq::empty()
    } else {
        let d = distinct(s.drop_last());
        if d.contains(s.last()) {
            d
        } else {
            d.push(s.last())
        }
    }
}

/// Each event stands once in the list of distinct ones.
pub proof fn distinct_keeps_the_events(s: Seq<EventModel>)
    ensures
        distinct(s).no_duplicates(),
        forall|e: EventModel| #[trigger] distinct(s).contains(e) <==> s.contains(e),
    decreases s.len(),
{
    if s.len() > 0 {
        let d = distinct(s.drop_last());
        distinct_keeps_the_events(s.drop_last());
        assert forall|e: EventModel| #[trigger] distinct(s).contains(e) <==> s.contains(e) by {
            assert(d.contains(e) <==> s.drop_last().contains(e));
            if s.drop_last().contains(e) {
                assert(s[s.drop_last().index_of(e)] == e);
            }
            if s.contains(e) && e != s.last() {
                assert(s.drop_last()[s.index_of(e)] == e);
            }
            if e == s.last() {
                assert(s[s.len() - 1] == e);
                if !d.contains(e) {
                    assert(distinct(s)[d.len() as int] == e);
                }
            }
            if d.contains(e) && !d.contains(s.last()) {
                assert(distinct(s)[d.index_of(e)] == e);
            }
            if distinct(s).contains(e) && !d.contains(e) {
                let k = distinct(s).index_of(e);
                if k < d.len() {
                    assert(d[k] == e);
                }
            }
        }
    }
}

pub open spec fn times(s: Seq<EventModel>) -> Seq<Seq<char>> {
    s.map_values(|e: EventModel| e.ts)
}

pub open spec fn in_places(s: Seq<EventModel>, order: Seq<usize>) -> Seq<EventModel> {
    order.map_values(|i: usize| s[i as int])
}

/// The last `limit` items of a list.
pub open spec fn last_of(s: Seq<EventModel>, limit: nat) -> Seq<EventModel> {
    if s.len() > limit {
        s.skip(s.len() - limit)
    } else {
        s
    }
}

/// Whether a list is the recent history of all events: oldest first, each once, and no more than
/// the limit.
pub open spec fn is_history(all: Seq<EventModel>, limit: nat, r: Seq<EventModel>) -> bool {
    exists|order: Seq<usize>| #[trigger]
        is_stable_order(order, times(all)) && r == last_of(distinct(in_places(all, order)), limit)
}

fn same_event(a: &DebugEvent, b: &DebugEvent) -> (r: bool)
    ensures
        r == (a@ == b@),
{
    str_eq(a.ts.as_str(), b.ts.as_str()) && str_eq(a.level.as_str(), b.level.as_str()) && str_eq(
        a.source.as_str(),
        b.source.as_str(),
    ) && str_eq(a.message.as_str(), b.message.as_str()) && str_eq(
        a.payload.as_str(),
        b.payload.as_str(),
    )
}

spec fn no_later(x: Seq<char>, y: Seq<char>) -> bool {
    text_rank(x, y) == Rank::Less || x == y
}

proof fn lemma_no_later(x: Seq<char>, y: Seq<char>, z: Seq<char>)
    requires
        no_later(x, y),
        no_later(y, z),
    ensures
        no_later(x, z),
        x != y ==> x != z,
{
    if text_rank(x, y) == Rank::Less && text_rank(y, z) == Rank::Less {
        text_order_is_transitive(x, y, z);
        text_order_is_total(x, z);
    }
    text_order_is_total(x, y);
    text_order_is_total(y, x);
}

/// Whether an event is among those kept, which are in the order of their times.
fn is_kept(kept: &Vec<DebugEvent>, e: &DebugEvent) -> (r: bool)
    requires
        forall|i: int, j: int|
            0 <= i <= j < kept@.len() ==> no_later(
                (#[trigger] kept@[i])@.ts,
                (#[trigger] kept@[j])@.ts,
            ),
        forall|i: int| 0 <= i < kept@.len() ==> no_later((#[trigger] kept@[i])@.ts, e@.ts),
    ensures
        r == events_of(kept@).contains(e@),
{
    let ghost all = events_of(kept@);
    let mut i: usize = kept.len();
    while i > 0
        invariant
            i <= kept@.len(),
            all == events_of(kept@),
            forall|a: int, b: int|
                0 <= a <= b < kept@.len() ==> no_later(
                    (#[trigger] kept@[a])@.ts,
                    (#[trigger] kept@[b])@.ts,
                ),
            forall|a: int| 0 <= a < kept@.len() ==> no_later((#[trigger] kept@[a])@.ts, e@.ts),
            forall|k: int| i <= k < kept@.len() ==> (#[trigger] kept@[k])@ != e@,
        decreases i,
    {
        i -= 1;
        if !str_eq(kept[i].ts.as_str(), e.ts.as_str()) {
            proof {
                assert forall|k: int| 0 <= k < all.len() implies all[k] != e@ by {
                    if k <= i {
                        assert(no_later(kept@[k]@.ts, kept@[i as int]@.ts));
                        assert(no_later(kept@[i as int]@.ts, e@.ts));
                        lemma_no_later(kept@[k]@.ts, kept@[i as int]@.ts, e@.ts);
                        if kept@[k]@.ts == e@.ts {
                            lemma_antisymmetric(e@.ts, kept@[i as int]@.ts);
                        }
                    } else {
                        assert(kept@[k]@ != e@);
                    }
                }
            }
            return false;
        }
        if same_event(&kept[i], e) {
            assert(all[i as int] == e@);
            return true;
        }
    }
    assert forall|k: int| 0 <= k < all.len() implies all[k] != e@ by {
        assert(kept@[k]@ != e@);
    }
    false
}

proof fn lemma_antisymmetric(x: Seq<char>, y: Seq<char>)
    requires
        no_later(x, y),
        no_later(y, x),
    ensures
        x == y,
{
    text_order_is_total(x, y);
    text_order_is_total(y, x);
}

impl DebugBus {
    pub open spec fn ring(&self) -> Seq<EventModel> {
        events_of(self.events@)
    }

    /// A log that goes to a file and keeps its last events.
    pub fn new(path: String, max_events: usize) -> (r: Self)
        ensures
            r.path == path,
            r.max_events == max_events,
            r.ring() == Seq::<EventModel>::empty(),
    {
        let events: VecDeque<DebugEvent> = VecDeque::new();
        assert(events_of(events@) =~= Seq::<EventModel>::empty());
        DebugBus { path, max_events, events }
    }

    /// Notes an event at the given time. The level is written in upper case.
    pub fn emit_at(
        &mut self,
        level: &str,
        source: &str,
        message: &str,
        payload: Option<String>,
        ts: String,
    ) -> (r: DebugEvent)
        ensures
            r@ == (EventModel {
                ts: ts@,
                level: ascii_upper(level@),
                source: source@,
                message: message@,
                payload: match payload {
                    Some(p) => p@,
                    None => "{}"@,
                },
            }),
            final(self).ring().last() == r@,
            old(self).ring().len() < old(self).max_events ==> final(self).ring().len()
                == old(self).ring().len() + 1,
            final(self).ring() == ring_after(old(self).ring(), old(self).max_events as nat, r@),
            final(self).path == old(self).path,
            final(self).max_events == old(self).max_events,
    {
        let event = DebugEvent {
            ts,
            level: to_ascii_uppercase(level),
            source: source.to_owned(),
            message: message.to_owned(),
            payload: match payload {
                Some(p) => p,
                None => "{}".to_owned(),
            },
        };
        let ghost before = self.events@;
        if self.events.len() >= self.max_events {
            let _ = self.events.pop_front();
        }
        let ghost popped = self.events@;
        self.events.push_back(event.clone());
        proof {
            let ring = events_of(before);
            if before.len() >= self.max_events && before.len() > 0 {
                assert(events_of(popped) =~= ring.drop_first());
            } else {
                assert(events_of(popped) =~= ring);
            }
            assert(events_of(self.events@) =~= events_of(popped).push(event@));
        }
        event
    }

    /// Notes an event at the time of the machine.
    pub fn emit(&mut self, level: &str, source: &str, message: &str, payload: Option<String>) -> (r:
        DebugEvent)
        ensures
            r@.level == ascii_upper(level@),
            r@.source == source@,
            r@.message == message@,
            r@.payload == match payload {
                Some(p) => p@,
                None => "{}"@,
            },
            final(self).ring() == ring_after(old(self).ring(), old(self).max_events as nat, r@),
            final(self).path == old(self).path,
            final(self).max_events == old(self).max_events,
    {
        let ts = now_rfc3339();
        self.emit_at(level, source, message, payload, ts)
    }

    /// Notes that a command was applied, or was not.
    pub fn record_applied_action(
        &mut self,
        command_id: &str,
        intent: &str,
        applied: bool,
        message: &str,
        payload: String,
    ) -> (r: DebugEvent)
        ensures
            r@.level == if applied {
                ascii_upper("INFO"@)
            } else {
                ascii_upper("WARN"@)
            },
            r@.source == "ModelAction"@,
            r@.message == "applied="@ + (if applied {
                "true"@
            } else {
                "false"@
            }) + " intent="@ + intent@ + " id="@ + command_id@ + " :: "@ + message@,
            r@.payload == payload@,
            final(self).ring() == ring_after(old(self).ring(), old(self).max_events as nat, r@),
            final(self).path == old(self).path,
            final(self).max_events == old(self).max_events,
    {
        let level = if applied {
            "INFO"
        } else {
            "WARN"
        };
        let word = if applied {
            "true"
        } else {
            "false"
        };
        let mut text = cat3("applied=", word, " intent=");
        text.append(intent);
        text.append(" id=");
        text.append(command_id);
        text.append(" :: ");
        text.append(message);
        self.emit(level, "ModelAction", text.as_str(), Some(payload))
    }

    /// The recent events, oldest first, each once: those of the ring and those that were read from
    /// the file.
    pub fn combined_recent(&self, limit: usize, logged: &Vec<DebugEvent>) -> (r: Vec<DebugEvent>)
        ensures
            is_history(self.ring() + events_of(logged@), limit as nat, events_of(r@)),
    {
        let mut merged: Vec<DebugEvent> = Vec::new();
        let mut keys: Vec<String> = Vec::new();
        let n: usize = self.events.len();
        let m: usize = logged.len();
        let ghost all = self.ring() + events_of(logged@);
        let mut i: usize = 0;
        while i < n
            invariant
                i <= n,
                n == self.events@.len(),
                merged@.len() == i,
                keys@.len() == i,
                forall|k: int| 0 <= k < i ==> (#[trigger] merged@[k])@ == self.events@[k]@,
                forall|k: int| 0 <= k < i ==> (#[trigger] keys@[k])@ == self.events@[k]@.ts,
            decreases n - i,
        {
            merged.push(self.events[i].clone());
            keys.push(self.events[i].ts.clone());
            i += 1;
        }
        let mut j: usize = 0;
        while j < m
            invariant
                j <= m,
                m == logged@.len(),
                n == self.events@.len(),
                merged@.len() == n + j,
                keys@.len() == n + j,
                forall|k: int| 0 <= k < n ==> (#[trigger] merged@[k])@ == self.events@[k]@,
                forall|k: int| 0 <= k < n ==> (#[trigger] keys@[k])@ == self.events@[k]@.ts,
                forall|k: int| n <= k < n + j ==> (#[trigger] merged@[k])@ == logged@[k - n]@,
                forall|k: int| n <= k < n + j ==> (#[trigger] keys@[k])@ == logged@[k - n]@.ts,
            decreases m - j,
        {
            merged.push(logged[j].clone());
            keys.push(logged[j].ts.clone());
            j += 1;
        }
        proof {
            assert(events_of(merged@) =~= all);
            assert(texts(keys@) =~= times(all));
        }
        let order = stable_order(&keys);
        let ghost sorted = in_places(all, order@);
        let total: usize = merged.len();
        let mut kept: Vec<DebugEvent> = Vec::new();
        let mut k: usize = 0;
        proof {
            assert(sorted.take(0) =~= Seq::<EventModel>::empty());
            assert(events_of(kept@) =~= distinct(sorted.take(0)));
        }
        while k < total
            invariant
                k <= total,
                total == merged@.len(),
                total == order@.len(),
                events_of(merged@) == all,
                texts(keys@) == times(all),
                keys@.len() == total,
                is_stable_order(order@, times(all)),
                sorted == in_places(all, order@),
                events_of(kept@) == distinct(sorted.take(k as int)),
                forall|a: int, b: int|
                    0 <= a <= b < kept@.len() ==> no_later(
                        (#[trigger] kept@[a])@.ts,
                        (#[trigger] kept@[b])@.ts,
                    ),
                forall|a: int, b: int|
                    0 <= a < kept@.len() && k <= b < total ==> no_later(
                        (#[trigger] kept@[a])@.ts,
                        (#[trigger] sorted[b]).ts,
                    ),
            decreases total - k,
        {
            let at: usize = order[k];
            assert(times(all).len() == total);
            let ghost here = sorted[k as int];
            assert(events_of(merged@)[at as int] == merged@[at as int]@);
            assert(here == merged@[at as int]@);
            let ghost before = events_of(kept@);
            proof {
                assert(sorted.take(k + 1).drop_last() =~= sorted.take(k as int));
                assert(sorted.take(k + 1).last() == here);
                assert forall|a: int| 0 <= a < kept@.len() implies no_later(
                    (#[trigger] kept@[a])@.ts,
                    merged@[at as int]@.ts,
                ) by {
                    assert(no_later(kept@[a]@.ts, sorted[k as int].ts));
                }
            }
            if !is_kept(&kept, &merged[at]) {
                let copy = merged[at].clone();
                proof {
                    assert forall|b: int| k < b < total implies no_later(
                        here.ts,
                        (#[trigger] sorted[b]).ts,
                    ) by {
                        assert(keyed_before(times(all), order@[k as int] as int, order@[b] as int));
                        assert(times(all)[order@[k as int] as int] == here.ts);
                        assert(times(all)[order@[b] as int] == sorted[b].ts);
                    }
                }
                kept.push(copy);
                assert(events_of(kept@) =~= before.push(here));
            }
            k += 1;
        }
        assert(sorted.take(total as int) =~= sorted);
        let ghost full = events_of(kept@);
        let len: usize = kept.len();
        if len <= limit {
            assert(is_stable_order(order@, times(all)));
            return kept;
        }
        let mut out: Vec<DebugEvent> = Vec::new();
        let start: usize = len - limit;
        let mut p: usize = start;
        while p < len
            invariant
                start <= p <= len,
                len == kept@.len(),
                out@.len() == p - start,
                forall|q: int| 0 <= q < out@.len() ==> (#[trigger] out@[q])@ == kept@[start + q]@,
            decreases len - p,
        {
            out.push(kept[p].clone());
            p += 1;
        }
        assert(events_of(out@) =~= full.skip(start as int));
        assert(is_stable_order(order@, times(all)));
        out
    }
}

} // verus!
