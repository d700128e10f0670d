//! Root-aware arbitration for media filesystem work.
//!
//! Enqueuing a request never waits for filesystem capacity. Each media root has its own queue and
//! its own limits; a request is granted when the limits of its root admit it, by priority with a
//! bounded run, and a permit returns its capacity when it is finished.

use crate::text::{Rank, text_rank, rank_text};
use std::collections::HashMap;
use vstd::prelude::*;

verus! {

broadcast use vstd::std_specs::hash::group_hash_axioms;

/// A configured media root. The generation participates in the identity, so a remapped drive
/// cannot inherit permits from its predecessor.
#[derive(Debug)]
pub struct RootIdentity {
    pub key: String,
    pub generation: u64,
    pub kind: RootKind,
}

/// Remote and unknown roots use conservative limits.
#[derive(Clone, Copy, Debug, PartialEq, Eq, Structural, Hash)]
pub enum RootKind {
    Local,
    Remote,
    Unknown,
}

impl RootKind {
    pub open spec fn place(self) -> int {
        match self {
            RootKind::Local => 0,
            RootKind::Remote => 1,
            RootKind::Unknown => 2,
        }
    }

    pub fn index(self) -> (r: u8)
        ensures
            r == self.place(),
    {
        match self {
            RootKind::Local => 0,
            RootKind::Remote => 1,
            RootKind::Unknown => 2,
        }
    }
}

/// What tells one root from another.
pub ghost struct RootKey {
    pub key: Seq<char>,
    pub generation: u64,
    pub kind: RootKind,
}

impl View for RootIdentity {
    type V = RootKey;

    open spec fn view(&self) -> RootKey {
        RootKey { key: self.key@, generation: self.generation, kind: self.kind }
    }
}

impl Clone for RootIdentity {
    fn clone(&self) -> (r: Self)
        ensures
            r@ == self@,
    {
        RootIdentity { key: self.key.clone(), generation: self.generation, kind: self.kind }
    }
}

impl RootIdentity {
    pub fn new(key: &str, generation: u64, kind: RootKind) -> (r: Self)
        ensures
            r@ == (RootKey { key: key@, generation, kind }),
    {
        RootIdentity { key: key.to_owned(), generation, kind }
    }

    /// Whether two identities name the same root.
    pub fn same(&self, other: &RootIdentity) -> (r: bool)
        ensures
            r == (self@ == other@),
    {
        self.key == other.key && self.generation == other.generation && self.kind == other.kind
    }
}

/// The order in which roots are reported: by key, then generation, then kind.
pub open spec fn root_rank(a: RootKey, b: RootKey) -> Rank {
    match text_rank(a.key, b.key) {
        Rank::Equal => if a.generation < b.generation {
            Rank::Less
        } else if a.generation > b.generation {
            Rank::Greater
        } else if a.kind.place() < b.kind.place() {
            Rank::Less
        } else if a.kind.place() > b.kind.place() {
            Rank::Greater
        } else {
            Rank::Equal
        },
        other => other,
    }
}

fn rank_roots(a: &RootIdentity, b: &RootIdentity) -> (r: Rank)
    ensures
        r == root_rank(a@, b@),
{
    match rank_text(a.key.as_str(), b.key.as_str()) {
        Rank::Equal => if a.generation < b.generation {
            Rank::Less
        } else if a.generation > b.generation {
            Rank::Greater
        } else if a.kind.index() < b.kind.index() {
            Rank::Less
        } else if a.kind.index() > b.kind.index() {
            Rank::Greater
        } else {
            Rank::Equal
        },
        other => other,
    }
}

/// The root order is a total order.
pub proof fn root_order_is_total(a: RootKey, b: RootKey)
    ensures
        root_rank(a, b) == Rank::Equal <==> a == b,
        root_rank(a, b) == Rank::Less <==> root_rank(b, a) == Rank::Greater,
{
    crate::text::text_order_is_total(a.key, b.key);
    crate::text::text_order_is_total(b.key, a.key);
}

/// The root order is transitive.
pub proof fn root_order_is_transitive(a: RootKey, b: RootKey, c: RootKey)
    requires
        root_rank(a, b) == Rank::Less,
        root_rank(b, c) == Rank::Less,
    ensures
        root_rank(a, c) == Rank::Less,
{
    crate::text::text_order_is_total(a.key, b.key);
    crate::text::text_order_is_total(b.key, c.key);
    if text_rank(a.key, b.key) == Rank::Less && text_rank(b.key, c.key) == Rank::Less {
        crate::text::text_order_is_transitive(a.key, b.key, c.key);
    }
}

/// Work classes, from most latency-sensitive to least. Fairness is applied across these
/// priorities after a bounded run of higher-priority work.
#[derive(Clone, Copy, Debug, PartialEq, Eq, Structural, Hash)]
pub enum WorkClass {
    Playback,
    Visible,
    /// Filesystem work that a visible row is waiting on.
    Metadata,
    Scan,
    Prefetch,
    /// Whole-folder sweeps that no visible row is waiting on.
    Background,
}

pub const CLASS_COUNT: usize = 6;

impl WorkClass {
    /// The position of the class in the order of latency sensitivity.
    pub open spec fn place(self) -> int {
        match self {
            WorkClass::Playback => 0,
            WorkClass::Visible => 1,
            WorkClass::Metadata => 2,
            WorkClass::Scan => 3,
            WorkClass::Prefetch => 4,
            WorkClass::Background => 5,
        }
    }

    pub open spec fn interactive(self) -> bool {
        self == WorkClass::Playback || self == WorkClass::Visible
    }

    pub fn index(self) -> (r: usize)
        ensures
            r == self.place(),
            r < CLASS_COUNT,
    {
        match self {
            WorkClass::Playback => 0,
            WorkClass::Visible => 1,
            WorkClass::Metadata => 2,
            WorkClass::Scan => 3,
            WorkClass::Prefetch => 4,
            WorkClass::Background => 5,
        }
    }

    pub fn is_interactive(self) -> (r: bool)
        ensures
            r == self.interactive(),
    {
        matches!(self, WorkClass::Playback | WorkClass::Visible)
    }

    pub fn priority(self) -> (r: u8)
        ensures
            r == self.place(),
    {
        match self {
            WorkClass::Playback => 0,
            WorkClass::Visible => 1,
            WorkClass::Metadata => 2,
            WorkClass::Scan => 3,
            WorkClass::Prefetch => 4,
            WorkClass::Background => 5,
        }
    }

    /// Every class, most latency-sensitive first.
    pub open spec fn all_spec() -> Seq<WorkClass> {
        seq![
            WorkClass::Playback,
            WorkClass::Visible,
            WorkClass::Metadata,
            WorkClass::Scan,
            WorkClass::Prefetch,
            WorkClass::Background,
        ]
    }

    pub fn all() -> (r: [WorkClass; 6])
        ensures
            r@ == WorkClass::all_spec(),
    {
        let r = [
            WorkClass::Playback,
            WorkClass::Visible,
            WorkClass::Metadata,
            WorkClass::Scan,
            WorkClass::Prefetch,
            WorkClass::Background,
        ];
        assert(r@ =~= WorkClass::all_spec());
        r
    }
}

/// Per-root concurrency limits.
#[derive(Clone, Copy, Debug, PartialEq, Eq, Structural)]
pub struct RootLimits {
    pub total: usize,
    /// Capacity that bulk work leaves available for interactive work.
    pub interactive_reserved: usize,
    /// Capacity that interactive work leaves available for bulk work.
    pub bulk_reserved: usize,
    /// The most bulk requests at once while playback is active or its hysteresis lasts.
    pub playback_bulk_limit: usize,
}

pub open spec fn min_usize(a: usize, b: usize) -> usize {
    if a <= b {
        a
    } else {
        b
    }
}

impl RootLimits {
    /// At least one request in all, at most all but one reserved either way, and at least one
    /// bulk request under playback.
    pub open spec fn sane(self) -> RootLimits {
        let total = if self.total == 0 {
            1
        } else {
            self.total
        };
        RootLimits {
            total,
            interactive_reserved: min_usize(self.interactive_reserved, (total - 1) as usize),
            bulk_reserved: min_usize(self.bulk_reserved, (total - 1) as usize),
            playback_bulk_limit: if self.playback_bulk_limit < 1 {
                1
            } else {
                min_usize(self.playback_bulk_limit, total)
            },
        }
    }

    pub open spec fn is_sane(self) -> bool {
        &&& self.total >= 1
        &&& self.interactive_reserved < self.total
        &&& self.bulk_reserved < self.total
        &&& 1 <= self.playback_bulk_limit <= self.total
    }

    fn sanitized(self) -> (r: RootLimits)
        ensures
            r == self.sane(),
            r.is_sane(),
    {
        let total: usize = if self.total < 1 {
            1
        } else {
            self.total
        };
        let most: usize = total - 1;
        RootLimits {
            total,
            interactive_reserved: if self.interactive_reserved <= most {
                self.interactive_reserved
            } else {
                most
            },
            bulk_reserved: if self.bulk_reserved <= most {
                self.bulk_reserved
            } else {
                most
            },
            playback_bulk_limit: if self.playback_bulk_limit < 1 {
                1
            } else if self.playback_bulk_limit <= total {
                self.playback_bulk_limit
            } else {
                total
            },
        }
    }
}

/// Coordinator policy. The defaults do not depend on the number of processors, so that a large
/// workstation cannot flood a remote root.
#[derive(Clone, Copy, Debug, PartialEq, Eq, Structural)]
pub struct IoPolicy {
    pub local: RootLimits,
    pub remote: RootLimits,
    pub unknown: RootLimits,
    /// How long bulk work stays throttled after playback ends, in microseconds.
    pub playback_hysteresis_us: u64,
    /// Number of consecutive grants at one priority before an older lower-priority request gets
    /// a turn.
    pub priority_burst: u32,
}

/// Twelve requests at once on a local root, four on a remote one, two on an unknown one.
pub open spec fn standard_policy() -> IoPolicy {
    IoPolicy {
        local: RootLimits {
            total: 12,
            interactive_reserved: 2,
            bulk_reserved: 1,
            playback_bulk_limit: 2,
        },
        remote: RootLimits {
            total: 4,
            interactive_reserved: 1,
            bulk_reserved: 1,
            playback_bulk_limit: 1,
        },
        unknown: RootLimits {
            total: 2,
            interactive_reserved: 1,
            bulk_reserved: 1,
            playback_bulk_limit: 1,
        },
        playback_hysteresis_us: 750_000,
        priority_burst: 4,
    }
}

impl Default for IoPolicy {
    fn default() -> (r: Self)
        ensures
            r == standard_policy(),
    {
        IoPolicy {
            local: RootLimits {
                total: 12,
                interactive_reserved: 2,
                bulk_reserved: 1,
                playback_bulk_limit: 2,
            },
            remote: RootLimits {
                total: 4,
                interactive_reserved: 1,
                bulk_reserved: 1,
                playback_bulk_limit: 1,
            },
            unknown: RootLimits {
                total: 2,
                interactive_reserved: 1,
                bulk_reserved: 1,
                playback_bulk_limit: 1,
            },
            playback_hysteresis_us: 750_000,
            priority_burst: 4,
        }
    }
}

impl IoPolicy {
    pub open spec fn sane(self) -> IoPolicy {
        IoPolicy {
            local: self.local.sane(),
            remote: self.remote.sane(),
            unknown: self.unknown.sane(),
            playback_hysteresis_us: self.playback_hysteresis_us,
            priority_burst: if self.priority_burst < 1 {
                1
            } else {
                self.priority_burst
            },
        }
    }

    pub open spec fn is_sane(self) -> bool {
        self.local.is_sane() && self.remote.is_sane() && self.unknown.is_sane()
            && self.priority_burst >= 1
    }

    pub open spec fn limits_of(self, kind: RootKind) -> RootLimits {
        match kind {
            RootKind::Local => self.local,
            RootKind::Remote => self.remote,
            RootKind::Unknown => self.unknown,
        }
    }

    fn sanitized(self) -> (r: IoPolicy)
        ensures
            r == self.sane(),
            r.is_sane(),
    {
        IoPolicy {
            local: self.local.sanitized(),
            remote: self.remote.sanitized(),
            unknown: self.unknown.sanitized(),
            playback_hysteresis_us: self.playback_hysteresis_us,
            priority_burst: if self.priority_burst < 1 {
                1
            } else {
                self.priority_burst
            },
        }
    }

    pub fn limits(&self, kind: RootKind) -> (r: RootLimits)
        ensures
            r == self.limits_of(kind),
    {
        match kind {
            RootKind::Local => self.local,
            RootKind::Remote => self.remote,
            RootKind::Unknown => self.unknown,
        }
    }
}

/// What has become of a request.
#[derive(Clone, Copy, Debug, PartialEq, Eq, Structural)]
pub enum RequestStatus {
    Pending,
    Granted,
    Consumed,
    Cancelled,
}

/// A request that waits for capacity.
#[derive(Clone, Copy, Debug, PartialEq, Eq, Structural)]
pub struct QueueEntry {
    pub id: u64,
    pub sequence: u64,
    pub class: WorkClass,
    pub enqueued_us: u64,
}

/// How often permits of one class ended in each way.
#[derive(Clone, Copy, Debug, PartialEq, Eq, Structural)]
pub struct ReleaseOutcomeDiagnostics {
    pub success: u64,
    pub error: u64,
    pub cancelled: u64,
    pub stale: u64,
    pub worker_shutdown: u64,
    pub dropped: u64,
}

/// The counters of one work class on one root.
#[derive(Clone, Copy, Debug, PartialEq, Eq, Structural)]
pub struct ClassStats {
    pub enqueued: u64,
    pub granted: u64,
    pub cancelled: u64,
    pub released: u64,
    pub max_queued: usize,
    pub queue_wait_total_us: u64,
    pub queue_wait_max_us: u64,
    pub cache_hits: u64,
    pub filesystem_operations: u64,
    pub filesystem_total_us: u64,
    pub filesystem_max_us: u64,
    pub release_outcomes: ReleaseOutcomeDiagnostics,
}

/// How a permit ended.
#[derive(Clone, Copy, Debug, PartialEq, Eq, Structural)]
pub enum PermitOutcome {
    Success,
    Error,
    Cancelled,
    Stale,
    WorkerShutdown,
    Dropped,
}

/// The sum, or the greatest value where the sum does not fit.
pub open spec fn sat(a: u64, b: u64) -> u64 {
    if a + b > u64::MAX {
        u64::MAX
    } else {
        (a + b) as u64
    }
}

pub open spec fn max_u64(a: u64, b: u64) -> u64 {
    if a >= b {
        a
    } else {
        b
    }
}

pub open spec fn empty_stats() -> ClassStats {
    ClassStats {
        enqueued: 0,
        granted: 0,
        cancelled: 0,
        released: 0,
        max_queued: 0,
        queue_wait_total_us: 0,
        queue_wait_max_us: 0,
        cache_hits: 0,
        filesystem_operations: 0,
        filesystem_total_us: 0,
        filesystem_max_us: 0,
        release_outcomes: ReleaseOutcomeDiagnostics {
            success: 0,
            error: 0,
            cancelled: 0,
            stale: 0,
            worker_shutdown: 0,
            dropped: 0,
        },
    }
}

impl ReleaseOutcomeDiagnostics {
    /// One more permit that ended as `outcome`.
    pub open spec fn counted(self, outcome: PermitOutcome) -> ReleaseOutcomeDiagnostics {
        match outcome {
            PermitOutcome::Success => ReleaseOutcomeDiagnostics {
                success: sat(self.success, 1),
                ..self
            },
            PermitOutcome::Error => ReleaseOutcomeDiagnostics { error: sat(self.error, 1), ..self },
            PermitOutcome::Cancelled => ReleaseOutcomeDiagnostics {
                cancelled: sat(self.cancelled, 1),
                ..self
            },
            PermitOutcome::Stale => ReleaseOutcomeDiagnostics { stale: sat(self.stale, 1), ..self },
            PermitOutcome::WorkerShutdown => ReleaseOutcomeDiagnostics {
                worker_shutdown: sat(self.worker_shutdown, 1),
                ..self
            },
            PermitOutcome::Dropped => ReleaseOutcomeDiagnostics {
                dropped: sat(self.dropped, 1),
                ..self
            },
        }
    }

    fn count(self, outcome: PermitOutcome) -> (r: ReleaseOutcomeDiagnostics)
        ensures
            r == self.counted(outcome),
    {
        let mut r = self;
        match outcome {
            PermitOutcome::Success => r.success = r.success.saturating_add(1),
            PermitOutcome::Error => r.error = r.error.saturating_add(1),
            PermitOutcome::Cancelled => r.cancelled = r.cancelled.saturating_add(1),
            PermitOutcome::Stale => r.stale = r.stale.saturating_add(1),
            PermitOutcome::WorkerShutdown => r.worker_shutdown = r.worker_shutdown.saturating_add(
                1,
            ),
            PermitOutcome::Dropped => r.dropped = r.dropped.saturating_add(1),
        }
        r
    }
}

fn no_stats() -> (r: ClassStats)
    ensures
        r == empty_stats(),
{
    ClassStats {
        enqueued: 0,
        granted: 0,
        cancelled: 0,
        released: 0,
        max_queued: 0,
        queue_wait_total_us: 0,
        queue_wait_max_us: 0,
        cache_hits: 0,
        filesystem_operations: 0,
        filesystem_total_us: 0,
        filesystem_max_us: 0,
        release_outcomes: ReleaseOutcomeDiagnostics {
            success: 0,
            error: 0,
            cancelled: 0,
            stale: 0,
            worker_shutdown: 0,
            dropped: 0,
        },
    }
}

/// The state of one root: its queue in order of arrival, the number of active permits and the
/// counters of each class, playback, and the run of grants at one priority.
#[verifier::ext_equal]
pub ghost struct RootModel {
    pub queue: Seq<QueueEntry>,
    pub active: Seq<usize>,
    pub stats: Seq<ClassStats>,
    pub playback_leases: usize,
    pub playback_hysteresis_until_us: u64,
    pub last_priority: Option<u8>,
    pub priority_streak: u32,
}

pub open spec fn fresh_root() -> RootModel {
    RootModel {
        queue: Seq::empty(),
        active: seq![0usize, 0, 0, 0, 0, 0],
        stats: seq![
            empty_stats(),
            empty_stats(),
            empty_stats(),
            empty_stats(),
            empty_stats(),
            empty_stats(),
        ],
        playback_leases: 0,
        playback_hysteresis_until_us: 0,
        last_priority: None,
        priority_streak: 0,
    }
}

impl RootModel {
    pub open spec fn active_interactive(self) -> int {
        self.active[0] + self.active[1]
    }

    pub open spec fn active_bulk(self) -> int {
        self.active[2] + self.active[3] + self.active[4] + self.active[5]
    }

    pub open spec fn active_total(self) -> int {
        self.active_interactive() + self.active_bulk()
    }

    /// One counter and one permit count per class, no more permits than the limit, and on neither
    /// side more than what is not reserved for the other.
    pub open spec fn fits(self, limits: RootLimits) -> bool {
        &&& self.active.len() == CLASS_COUNT
        &&& self.stats.len() == CLASS_COUNT
        &&& self.active_total() <= limits.total
        &&& self.active_interactive() <= interactive_limit(limits)
        &&& self.active_bulk() <= bulk_limit(limits, false)
    }

    /// Whether bulk work is held back for the sake of playback.
    pub open spec fn throttled(self, now: u64) -> bool {
        self.playback_leases > 0 || now < self.playback_hysteresis_until_us
    }

    pub open spec fn queued(self, class: WorkClass) -> nat {
        self.queue.filter(|e: QueueEntry| e.class == class).len()
    }
}

/// The most bulk permits at once.
pub open spec fn bulk_limit(limits: RootLimits, throttled: bool) -> usize {
    let open = if limits.total < limits.interactive_reserved {
        0
    } else {
        (limits.total - limits.interactive_reserved) as usize
    };
    min_usize(
        open,
        if throttled {
            limits.playback_bulk_limit
        } else {
            limits.total
        },
    )
}

/// The most interactive permits at once.
pub open spec fn interactive_limit(limits: RootLimits) -> usize {
    if limits.total < limits.bulk_reserved {
        0
    } else {
        (limits.total - limits.bulk_reserved) as usize
    }
}

/// Whether the reservations let a request of this class in now.
pub open spec fn admitted(limits: RootLimits, r: RootModel, now: u64, class: WorkClass) -> bool {
    if class.interactive() {
        r.active_interactive() < interactive_limit(limits)
    } else {
        r.active_bulk() < bulk_limit(limits, r.throttled(now))
    }
}

/// The best priority among the first `n` entries whose class is admitted.
pub open spec fn best_priority(limits: RootLimits, r: RootModel, now: u64, n: nat) -> Option<u8>
    decreases n,
{
    if n == 0 {
        None
    } else {
        let best = best_priority(limits, r, now, (n - 1) as nat);
        let class = r.queue[n - 1].class;
        if admitted(limits, r, now, class) && (best is None || class.place() < best->0) {
            Some(class.place() as u8)
        } else {
            best
        }
    }
}

/// The earliest of the first `n` entries that satisfy `ok`, by sequence number.
pub open spec fn earliest(q: Seq<QueueEntry>, ok: spec_fn(QueueEntry) -> bool, n: nat) -> Option<
    int,
>
    decreases n,
{
    if n == 0 {
        None
    } else {
        let first = earliest(q, ok, (n - 1) as nat);
        if ok(q[n - 1]) && (first is None || q[n - 1].sequence < q[first->0].sequence) {
            Some(n - 1)
        } else {
            first
        }
    }
}

/// Admitted entries at exactly this priority.
pub open spec fn at_priority(limits: RootLimits, r: RootModel, now: u64, p: u8) -> spec_fn(
    QueueEntry,
) -> bool {
    |e: QueueEntry| admitted(limits, r, now, e.class) && e.class.place() == p
}

/// Admitted entries of lower urgency.
pub open spec fn below_priority(limits: RootLimits, r: RootModel, now: u64, p: u8) -> spec_fn(
    QueueEntry,
) -> bool {
    |e: QueueEntry| admitted(limits, r, now, e.class) && e.class.place() > p
}

/// Whether the run of grants at priority `p` is used up.
pub open spec fn run_exhausted(r: RootModel, burst: u32, p: u8) -> bool {
    r.last_priority == Some(p) && r.priority_streak >= burst
}

/// The entry that is granted next: the earliest at the best priority, or, when that priority has
/// used up its run, the earliest of lower urgency.
pub open spec fn next_entry(limits: RootLimits, burst: u32, r: RootModel, now: u64) -> Option<
    int,
> {
    let n = r.queue.len();
    match best_priority(limits, r, now, n) {
        None => None,
        Some(p) => {
            let fair = earliest(r.queue, below_priority(limits, r, now, p), n);
            if run_exhausted(r, burst, p) && fair is Some {
                fair
            } else {
                earliest(r.queue, at_priority(limits, r, now, p), n)
            }
        },
    }
}

/// The root after its entry `i` has left the queue without a grant.
pub open spec fn discarded(r: RootModel, i: int) -> RootModel {
    RootModel { queue: r.queue.remove(i), ..r }
}

/// The root after its entry `i` has been granted.
pub open spec fn granted(r: RootModel, i: int, now: u64) -> RootModel {
    let e = r.queue[i];
    let c = e.class.place();
    let s = r.stats[c];
    let waited = if now >= e.enqueued_us {
        (now - e.enqueued_us) as u64
    } else {
        0
    };
    let same = r.last_priority == Some(c as u8);
    RootModel {
        queue: r.queue.remove(i),
        active: r.active.update(c, (r.active[c] + 1) as usize),
        stats: r.stats.update(
            c,
            ClassStats {
                granted: sat(s.granted, 1),
                queue_wait_total_us: sat(s.queue_wait_total_us, waited),
                queue_wait_max_us: max_u64(s.queue_wait_max_us, waited),
                ..s
            },
        ),
        last_priority: Some(c as u8),
        priority_streak: if same {
            if r.priority_streak == u32::MAX {
                u32::MAX
            } else {
                (r.priority_streak + 1) as u32
            }
        } else {
            1
        },
        ..r
    }
}

/// The root and the requests after every grant that the limits admit.
pub open spec fn grants(
    limits: RootLimits,
    burst: u32,
    r: RootModel,
    requests: Map<u64, RequestStatus>,
    now: u64,
) -> (RootModel, Map<u64, RequestStatus>)
    decreases r.queue.len(),
{
    match next_entry(limits, burst, r, now) {
        Some(i) => if r.active_total() < limits.total && 0 <= i < r.queue.len() {
            let id = r.queue[i].id;
            if requests.contains_key(id) && requests[id] == RequestStatus::Pending {
                grants(
                    limits,
                    burst,
                    granted(r, i, now),
                    requests.insert(id, RequestStatus::Granted),
                    now,
                )
            } else {
                grants(limits, burst, discarded(r, i), requests, now)
            }
        } else {
            (r, requests)
        },
        None => (r, requests),
    }
}

/// The root without the entries whose request is no longer known.
pub open spec fn swept(r: RootModel, requests: Map<u64, RequestStatus>) -> RootModel {
    RootModel { queue: r.queue.filter(|e: QueueEntry| requests.contains_key(e.id)), ..r }
}

/// The root and the requests after scheduling.
pub open spec fn scheduled(
    policy: IoPolicy,
    kind: RootKind,
    r: RootModel,
    requests: Map<u64, RequestStatus>,
    now: u64,
) -> (RootModel, Map<u64, RequestStatus>) {
    grants(policy.limits_of(kind), policy.priority_burst, swept(r, requests), requests, now)
}

pub struct RootState {
    queue: Vec<QueueEntry>,
    active: Vec<usize>,
    stats: Vec<ClassStats>,
    playback_leases: usize,
    playback_hysteresis_until_us: u64,
    last_priority: Option<u8>,
    priority_streak: u32,
}

impl View for RootState {
    type V = RootModel;

    closed spec fn view(&self) -> RootModel {
        RootModel {
            queue: self.queue@,
            active: self.active@,
            stats: self.stats@,
            playback_leases: self.playback_leases,
            playback_hysteresis_until_us: self.playback_hysteresis_until_us,
            last_priority: self.last_priority,
            priority_streak: self.priority_streak,
        }
    }
}

impl Default for RootState {
    fn default() -> (r: Self)
        ensures
            r@ == fresh_root(),
    {
        let r = RootState {
            queue: Vec::new(),
            active: vec![0, 0, 0, 0, 0, 0],
            stats: vec![no_stats(), no_stats(), no_stats(), no_stats(), no_stats(), no_stats()],
            playback_leases: 0,
            playback_hysteresis_until_us: 0,
            last_priority: None,
            priority_streak: 0,
        };
        assert(r@ =~= fresh_root());
        r
    }
}

impl RootState {
    fn active_interactive(&self, limits: RootLimits) -> (r: usize)
        requires
            self@.fits(limits),
        ensures
            r == self@.active_interactive(),
    {
        self.active[0] + self.active[1]
    }

    fn active_bulk(&self, limits: RootLimits) -> (r: usize)
        requires
            self@.fits(limits),
        ensures
            r == self@.active_bulk(),
    {
        self.active[2] + self.active[3] + self.active[4] + self.active[5]
    }

    fn queued(&self, class: WorkClass) -> (r: usize)
        ensures
            r == self@.queued(class),
    {
        let n: usize = self.queue.len();
        let mut i: usize = 0;
        let mut count: usize = 0;
        let ghost f = |e: QueueEntry| e.class == class;
        proof {
            reveal(Seq::filter);
            assert(self.queue@.take(0).filter(f) =~= Seq::<QueueEntry>::empty());
        }
        while i < n
            invariant
                i <= n,
                n == self.queue@.len(),
                f == (|e: QueueEntry| e.class == class),
                count == self.queue@.take(i as int).filter(f).len(),
                count <= i,
            decreases n - i,
        {
            proof {
                reveal(Seq::filter);
                assert(self.queue@.take(i + 1).drop_last() =~= self.queue@.take(i as int));
            }
            if self.queue[i].class == class {
                count += 1;
            }
            i += 1;
        }
        assert(self.queue@.take(n as int) =~= self.queue@);
        count
    }
}

fn is_playback_throttled(root: &RootState, now: u64) -> (r: bool)
    ensures
        r == root@.throttled(now),
{
    root.playback_leases > 0 || now < root.playback_hysteresis_until_us
}

fn effective_bulk_limit(limits: RootLimits, throttled: bool) -> (r: usize)
    ensures
        r == bulk_limit(limits, throttled),
{
    let open: usize = limits.total.saturating_sub(limits.interactive_reserved);
    let cap: usize = if throttled {
        limits.playback_bulk_limit
    } else {
        limits.total
    };
    if open <= cap {
        open
    } else {
        cap
    }
}

/// The entry of the queue to grant next.
fn select_entry(limits: RootLimits, burst: u32, root: &RootState, now: u64) -> (r: Option<usize>)
    requires
        root@.fits(limits),
    ensures
        match r {
            Some(i) => i < root@.queue.len() && next_entry(limits, burst, root@, now) == Some(
                i as int,
            ),
            None => next_entry(limits, burst, root@, now) is None,
        },
{
    let active_interactive: usize = root.active_interactive(limits);
    let active_bulk: usize = root.active_bulk(limits);
    let bulk: usize = effective_bulk_limit(limits, is_playback_throttled(root, now));
    let interactive: usize = limits.total.saturating_sub(limits.bulk_reserved);
    let open_interactive = active_interactive < interactive;
    let open_bulk = active_bulk < bulk;
    let ghost m = root@;
    assert forall|class: WorkClass| #[trigger]
        admitted(limits, m, now, class) == (if class.interactive() {
            open_interactive
        } else {
            open_bulk
        }) by {}
    let n: usize = root.queue.len();
    let mut best: Option<u8> = None;
    let mut i: usize = 0;
    while i < n
        invariant
            i <= n,
            n == root.queue@.len(),
            m == root@,
            best == best_priority(limits, m, now, i as nat),
            forall|class: WorkClass| #[trigger]
                admitted(limits, m, now, class) == (if class.interactive() {
                    open_interactive
                } else {
                    open_bulk
                }),
        decreases n - i,
    {
        let class = root.queue[i].class;
        let open = if class.is_interactive() {
            open_interactive
        } else {
            open_bulk
        };
        assert(open == admitted(limits, m, now, class));
        if open {
            let p: u8 = class.priority();
            let better = match best {
                None => true,
                Some(b) => p < b,
            };
            if better {
                best = Some(p);
            }
        }
        i += 1;
    }
    let p: u8 = match best {
        None => return None,
        Some(p) => p,
    };
    let exhausted = match root.last_priority {
        Some(last) => last == p && root.priority_streak >= burst,
        None => false,
    };
    let ghost at = at_priority(limits, m, now, p);
    let ghost below = below_priority(limits, m, now, p);
    let mut first: Option<usize> = None;
    let mut fair: Option<usize> = None;
    let mut j: usize = 0;
    while j < n
        invariant
            j <= n,
            n == root.queue@.len(),
            m == root@,
            at == at_priority(limits, m, now, p),
            below == below_priority(limits, m, now, p),
            match first {
                Some(k) => k < j && earliest(m.queue, at, j as nat) == Some(k as int),
                None => earliest(m.queue, at, j as nat) is None,
            },
            match fair {
                Some(k) => k < j && earliest(m.queue, below, j as nat) == Some(k as int),
                None => earliest(m.queue, below, j as nat) is None,
            },
            forall|class: WorkClass| #[trigger]
                admitted(limits, m, now, class) == (if class.interactive() {
                    open_interactive
                } else {
                    open_bulk
                }),
        decreases n - j,
    {
        let e = root.queue[j];
        let open = if e.class.is_interactive() {
            open_interactive
        } else {
            open_bulk
        };
        assert(open == admitted(limits, m, now, e.class));
        assert(m.queue[j as int] == e);
        let q: u8 = e.class.priority();
        if open && q == p {
            let better = match first {
                None => true,
                Some(k) => e.sequence < root.queue[k].sequence,
            };
            if better {
                first = Some(j);
            }
        }
        if open && q > p {
            let better = match fair {
                None => true,
                Some(k) => e.sequence < root.queue[k].sequence,
            };
            if better {
                fair = Some(j);
            }
        }
        j += 1;
    }
    if exhausted && fair.is_some() {
        fair
    } else {
        first
    }
}

/// Drops the entries whose request is no longer known.
fn sweep(root: &mut RootState, requests: &HashMap<u64, RequestStatus>)
    ensures
        final(root)@ == swept(old(root)@, requests@),
{
    let n: usize = root.queue.len();
    let mut kept: Vec<QueueEntry> = Vec::new();
    let mut i: usize = 0;
    let ghost f = |e: QueueEntry| requests@.contains_key(e.id);
    proof {
        reveal(Seq::filter);
        assert(root.queue@.take(0).filter(f) =~= Seq::<QueueEntry>::empty());
    }
    while i < n
        invariant
            i <= n,
            n == root.queue@.len(),
            f == (|e: QueueEntry| requests@.contains_key(e.id)),
            kept@ == root.queue@.take(i as int).filter(f),
            root@ == old(root)@,
        decreases n - i,
    {
        proof {
            reveal(Seq::filter);
            assert(root.queue@.take(i + 1).drop_last() =~= root.queue@.take(i as int));
        }
        let e = root.queue[i];
        if requests.contains_key(&e.id) {
            kept.push(e);
        }
        i += 1;
    }
    assert(root.queue@.take(n as int) =~= root.queue@);
    root.queue = kept;
    assert(root@ =~= swept(old(root)@, requests@));
}

/// Takes entry `i` out of the queue and counts it as active.
fn grant(root: &mut RootState, i: usize, now: u64)
    requires
        i < old(root)@.queue.len(),
        old(root)@.active.len() == CLASS_COUNT,
        old(root)@.stats.len() == CLASS_COUNT,
        old(root)@.active[old(root)@.queue[i as int].class.place()] < usize::MAX,
    ensures
        final(root)@ == granted(old(root)@, i as int, now),
{
    let e = root.queue.remove(i);
    let c: usize = e.class.index();
    let count: usize = root.active[c] + 1;
    root.active.set(c, count);
    let mut s = root.stats[c];
    s.granted = s.granted.saturating_add(1);
    let waited: u64 = now.saturating_sub(e.enqueued_us);
    s.queue_wait_total_us = s.queue_wait_total_us.saturating_add(waited);
    if waited > s.queue_wait_max_us {
        s.queue_wait_max_us = waited;
    }
    root.stats.set(c, s);
    let p: u8 = e.class.priority();
    let same = match root.last_priority {
        Some(last) => last == p,
        None => false,
    };
    if same {
        root.priority_streak = root.priority_streak.saturating_add(1);
    } else {
        root.last_priority = Some(p);
        root.priority_streak = 1;
    }
    assert(root@ =~= granted(old(root)@, i as int, now));
}

/// Granting the next entry keeps the root within its limits.
pub proof fn grant_stays_within_limits(limits: RootLimits, burst: u32, r: RootModel, now: u64)
    requires
        r.fits(limits),
        r.active_total() < limits.total,
        next_entry(limits, burst, r, now) is Some,
    ensures
        ({
            let i = next_entry(limits, burst, r, now)->0;
            let g = granted(r, i, now);
            &&& 0 <= i < r.queue.len()
            &&& admitted(limits, r, now, r.queue[i].class)
            &&& g.fits(limits)
            &&& g.active_total() == r.active_total() + 1
        }),
{
    let n = r.queue.len();
    let p = best_priority(limits, r, now, n)->0;
    lemma_earliest(r.queue, at_priority(limits, r, now, p), n);
    lemma_earliest(r.queue, below_priority(limits, r, now, p), n);
}

/// `earliest` finds an entry that satisfies the condition and that no other such entry precedes.
pub proof fn lemma_earliest(q: Seq<QueueEntry>, ok: spec_fn(QueueEntry) -> bool, n: nat)
    requires
        n <= q.len(),
    ensures
        match earliest(q, ok, n) {
            Some(i) => {
                &&& 0 <= i < n
                &&& ok(q[i])
                &&& forall|j: int| 0 <= j < n && ok(#[trigger] q[j]) ==> q[i].sequence <= q[j].sequence
            },
            None => forall|j: int| 0 <= j < n ==> !ok(#[trigger] q[j]),
        },
    decreases n,
{
    if n > 0 {
        lemma_earliest(q, ok, (n - 1) as nat);
    }
}

/// Grants every request that the limits of the root admit.
pub fn schedule_root(
    policy: &IoPolicy,
    kind: RootKind,
    root: &mut RootState,
    requests: &mut HashMap<u64, RequestStatus>,
    now: u64,
)
    requires
        old(root)@.fits(policy.limits_of(kind)),
    ensures
        (final(root)@, final(requests)@) == scheduled(
            *policy,
            kind,
            old(root)@,
            old(requests)@,
            now,
        ),
        final(root)@.fits(policy.limits_of(kind)),
{
    let ghost before = old(root)@;
    let ghost known = old(requests)@;
    sweep(root, requests);
    let limits = policy.limits(kind);
    let burst: u32 = policy.priority_burst;
    let ghost goal = scheduled(*policy, kind, before, known, now);
    loop
        invariant
            root@.fits(limits),
            limits == policy.limits_of(kind),
            burst == policy.priority_burst,
            grants(limits, burst, root@, requests@, now) == goal,
        ensures
            (root@, requests@) == goal,
            root@.fits(limits),
        decreases root@.queue.len(),
    {
        let total: usize = root.active_interactive(limits) + root.active_bulk(limits);
        if total >= limits.total {
            break;
        }
        let i: usize = match select_entry(limits, burst, root, now) {
            None => break,
            Some(i) => i,
        };
        proof {
            grant_stays_within_limits(limits, burst, root@, now);
        }
        let id: u64 = root.queue[i].id;
        let pending = match requests.get(&id) {
            Some(RequestStatus::Pending) => true,
            _ => false,
        };
        if pending {
            requests.insert(id, RequestStatus::Granted);
            grant(root, i, now);
        } else {
            let ghost r0 = root@;
            let _e = root.queue.remove(i);
            assert(root@ =~= discarded(r0, i as int));
        }
    }
}

/// A monotonic time source, in microseconds.
pub trait CoordinatorClock {
    /// Whether the clock may show this time.
    spec fn shows(&self, now: u64) -> bool;

    fn now_micros(&self) -> (r: u64)
        ensures
            self.shows(r),
    ;
}

/// A deterministic clock that moves only when told to.
pub struct ManualClock {
    micros: u64,
}

impl ManualClock {
    pub closed spec fn reading(&self) -> u64 {
        self.micros
    }

    pub fn new(initial_us: u64) -> (r: Self)
        ensures
            r.reading() == initial_us,
    {
        ManualClock { micros: initial_us }
    }

    pub fn advance(&mut self, amount_us: u64)
        ensures
            final(self).reading() == (old(self).reading() + amount_us) % 0x1_0000_0000_0000_0000,
    {
        self.micros = self.micros.wrapping_add(amount_us);
    }
}

impl CoordinatorClock for ManualClock {
    /// A clock that moves only when told to shows its reading.
    open spec fn shows(&self, now: u64) -> bool {
        now == self.reading()
    }

    fn now_micros(&self) -> (r: u64)
        ensures
            r == self.reading(),
    {
        self.micros
    }
}

#[verifier::external_type_specification]
#[verifier::external_body]
pub struct ExInstant(std::time::Instant);

/// Calls `std::time::Instant::now`. The instant is opaque and nothing is claimed of it.
#[verifier::external_body]
fn instant_now() -> std::time::Instant {
    std::time::Instant::now()
}

/// Calls `std::time::Instant::elapsed`. How much time has passed is up to the machine.
#[verifier::external_body]
fn elapsed_since(origin: &std::time::Instant) -> std::time::Duration {
    origin.elapsed()
}

/// Calls `std::time::Duration::as_micros`, here on a span that only the machine knows.
#[verifier::external_body]
fn whole_micros(span: &std::time::Duration) -> u128 {
    span.as_micros()
}

/// The clock of the machine, counted from the creation of the value.
pub struct SystemClock {
    origin: std::time::Instant,
}

impl Default for SystemClock {
    fn default() -> Self {
        SystemClock { origin: instant_now() }
    }
}

impl CoordinatorClock for SystemClock {
    /// Which time it is, only the machine knows.
    open spec fn shows(&self, now: u64) -> bool {
        true
    }

    fn now_micros(&self) -> u64 {
        let span = elapsed_since(&self.origin);
        duration_micros_saturating(whole_micros(&span))
    }
}

/// A count of microseconds, or the greatest one that fits.
pub fn duration_micros_saturating(micros: u128) -> (r: u64)
    ensures
        r == if micros <= u64::MAX {
            micros as u64
        } else {
            u64::MAX
        },
{
    if micros <= 0xffff_ffff_ffff_ffff {
        micros as u64
    } else {
        u64::MAX
    }
}

/// The state of the coordinator: each known root, each known request, and the next numbers.
#[verifier::ext_equal]
pub ghost struct CoordinatorModel {
    pub policy: IoPolicy,
    pub next_request_id: u64,
    pub next_sequence: u64,
    pub roots: Map<RootKey, RootModel>,
    pub requests: Map<u64, RequestStatus>,
}

/// The number after `n`, beginning anew after the last.
pub open spec fn following(n: u64) -> u64 {
    if n == u64::MAX {
        0
    } else {
        (n + 1) as u64
    }
}

impl CoordinatorModel {
    /// Every root stays within its limits.
    pub open spec fn within_limits(self) -> bool {
        forall|k: RootKey| #[trigger]
            self.roots.contains_key(k) ==> self.roots[k].fits(self.policy.limits_of(k.kind))
    }

    pub open spec fn root_or_fresh(self, k: RootKey) -> RootModel {
        if self.roots.contains_key(k) {
            self.roots[k]
        } else {
            fresh_root()
        }
    }

    /// Root `k` becomes `r` and is scheduled.
    pub open spec fn settle(self, k: RootKey, r: RootModel, now: u64) -> CoordinatorModel {
        let s = scheduled(self.policy, k.kind, r, self.requests, now);
        CoordinatorModel { roots: self.roots.insert(k, s.0), requests: s.1, ..self }
    }

    /// A new request joins the end of the queue of root `k`.
    pub open spec fn enqueued(self, k: RootKey, class: WorkClass, now: u64) -> CoordinatorModel {
        let r = self.root_or_fresh(k);
        let c = class.place();
        let joined = RootModel {
            queue: r.queue.push(
                QueueEntry {
                    id: self.next_request_id,
                    sequence: self.next_sequence,
                    class,
                    enqueued_us: now,
                },
            ),
            ..r
        };
        let s = r.stats[c];
        let counted = RootModel {
            stats: r.stats.update(
                c,
                ClassStats {
                    enqueued: sat(s.enqueued, 1),
                    max_queued: if joined.queued(class) > s.max_queued {
                        joined.queued(class) as usize
                    } else {
                        s.max_queued
                    },
                    ..s
                },
            ),
            ..joined
        };
        CoordinatorModel {
            next_request_id: following(self.next_request_id),
            next_sequence: following(self.next_sequence),
            requests: self.requests.insert(self.next_request_id, RequestStatus::Pending),
            ..self
        }.settle(k, counted, now)
    }

    /// One more playback on root `k`.
    pub open spec fn playback_begun(self, k: RootKey, now: u64) -> CoordinatorModel {
        let r = self.root_or_fresh(k);
        self.settle(
            k,
            RootModel {
                playback_leases: if r.playback_leases == usize::MAX {
                    usize::MAX
                } else {
                    (r.playback_leases + 1) as usize
                },
                playback_hysteresis_until_us: 0,
                ..r
            },
            now,
        )
    }

    /// One playback fewer on root `k`; the last one starts the hysteresis.
    pub open spec fn playback_ended(self, k: RootKey, now: u64) -> CoordinatorModel {
        if self.roots.contains_key(k) {
            let r = self.roots[k];
            let leases = if r.playback_leases == 0 {
                0
            } else {
                (r.playback_leases - 1) as usize
            };
            self.settle(
                k,
                RootModel {
                    playback_leases: leases,
                    playback_hysteresis_until_us: if leases == 0 {
                        sat(now, self.policy.playback_hysteresis_us)
                    } else {
                        r.playback_hysteresis_until_us
                    },
                    ..r
                },
                now,
            )
        } else {
            self
        }
    }

    /// A permit of root `k` ends and its capacity is handed on.
    pub open spec fn released(
        self,
        k: RootKey,
        class: WorkClass,
        outcome: PermitOutcome,
        now: u64,
    ) -> CoordinatorModel {
        if self.roots.contains_key(k) {
            self.settle(k, freed(self.roots[k], class, outcome), now)
        } else {
            self
        }
    }

    /// Whether request `id` of root `k` can still be cancelled.
    pub open spec fn cancellable(self, k: RootKey, id: u64) -> bool {
        &&& self.roots.contains_key(k)
        &&& self.requests.contains_key(id)
        &&& match self.requests[id] {
            RequestStatus::Pending => position(self.roots[k].queue, id) is Some,
            RequestStatus::Granted => true,
            _ => false,
        }
    }

    /// Request `id` leaves the queue, or gives its granted capacity back.
    pub open spec fn cancelled(
        self,
        k: RootKey,
        id: u64,
        class: WorkClass,
        now: u64,
    ) -> CoordinatorModel {
        if !self.cancellable(k, id) {
            self
        } else {
            let r = self.roots[k];
            let c = class.place();
            let after = if self.requests[id] == RequestStatus::Pending {
                let s = r.stats[c];
                RootModel {
                    queue: r.queue.remove(position(r.queue, id)->0),
                    stats: r.stats.update(
                        c,
                        ClassStats {
                            cancelled: sat(s.cancelled, 1),
                            release_outcomes: s.release_outcomes.counted(PermitOutcome::Cancelled),
                            ..s
                        },
                    ),
                    ..r
                }
            } else {
                let f = freed(r, class, PermitOutcome::Cancelled);
                let s = f.stats[c];
                RootModel {
                    stats: f.stats.update(c, ClassStats { cancelled: sat(s.cancelled, 1), ..s }),
                    ..f
                }
            };
            CoordinatorModel {
                requests: self.requests.insert(id, RequestStatus::Cancelled),
                ..self
            }.settle(k, after, now)
        }
    }

    /// Request `id` hands its permit out, if it was granted.
    pub open spec fn acquired(self, id: u64) -> CoordinatorModel {
        if self.requests.contains_key(id) && self.requests[id] == RequestStatus::Granted {
            CoordinatorModel {
                requests: self.requests.insert(id, RequestStatus::Consumed),
                ..self
            }
        } else {
            self
        }
    }

    /// Request `id` is cancelled if it still can be, and forgotten.
    pub open spec fn given_up(
        self,
        k: RootKey,
        id: u64,
        class: WorkClass,
        now: u64,
    ) -> CoordinatorModel {
        let m = self.cancelled(k, id, class, now);
        CoordinatorModel { requests: m.requests.remove(id), ..m }
    }

    /// Root `k` is scheduled at time `now`, where it is known.
    pub open spec fn woken(self, k: RootKey, now: u64) -> CoordinatorModel {
        if self.roots.contains_key(k) {
            self.settle(k, self.roots[k], now)
        } else {
            self
        }
    }

    /// The roots `order[0]`, `order[1]`, ... scheduled one after the other.
    pub open spec fn refreshed(self, order: Seq<RootKey>, now: u64) -> CoordinatorModel
        decreases order.len(),
    {
        if order.len() == 0 {
            self
        } else {
            let before = self.refreshed(order.drop_last(), now);
            before.settle(order.last(), before.roots[order.last()], now)
        }
    }

    /// The counters of one class of root `k` become `s`.
    pub open spec fn with_stats(self, k: RootKey, class: WorkClass, s: ClassStats) -> CoordinatorModel {
        let r = self.root_or_fresh(k);
        CoordinatorModel {
            roots: self.roots.insert(
                k,
                RootModel { stats: r.stats.update(class.place(), s), ..r },
            ),
            ..self
        }
    }
}

/// The place of the first entry of request `id`.
pub open spec fn position(q: Seq<QueueEntry>, id: u64) -> Option<int>
    decreases q.len(),
{
    if q.len() == 0 {
        None
    } else if q[0].id == id {
        Some(0)
    } else {
        match position(q.drop_first(), id) {
            Some(i) => Some(i + 1),
            None => None,
        }
    }
}

/// The root after a permit of this class has ended as `outcome`.
pub open spec fn freed(r: RootModel, class: WorkClass, outcome: PermitOutcome) -> RootModel {
    let c = class.place();
    let s = r.stats[c];
    RootModel {
        active: r.active.update(
            c,
            if r.active[c] == 0 {
                0
            } else {
                (r.active[c] - 1) as usize
            },
        ),
        stats: r.stats.update(
            c,
            ClassStats {
                released: sat(s.released, 1),
                release_outcomes: s.release_outcomes.counted(outcome),
                ..s
            },
        ),
        ..r
    }
}

struct RootEntry {
    identity: RootIdentity,
    state: RootState,
}

spec fn keys(entries: Seq<RootEntry>) -> Seq<RootKey> {
    entries.map_values(|e: RootEntry| e.identity@)
}

/// Strictly increasing in the root order.
pub open spec fn in_root_order(keys: Seq<RootKey>) -> bool {
    forall|i: int, j: int|
        0 <= i < j < keys.len() ==> root_rank(#[trigger] keys[i], #[trigger] keys[j]) == Rank::Less
}

spec fn roots_map(entries: Seq<RootEntry>) -> Map<RootKey, RootModel> {
    Map::new(
        |k: RootKey| keys(entries).contains(k),
        |k: RootKey| entries[keys(entries).index_of(k)].state@,
    )
}

proof fn lemma_lookup(entries: Seq<RootEntry>, i: int)
    requires
        in_root_order(keys(entries)),
        0 <= i < entries.len(),
    ensures
        roots_map(entries).contains_key(entries[i].identity@),
        roots_map(entries)[entries[i].identity@] == entries[i].state@,
        forall|j: int|
            0 <= j < entries.len() && (#[trigger] entries[j]).identity@ == entries[i].identity@
                ==> j == i,
{
    let ks = keys(entries);
    let k = entries[i].identity@;
    assert(ks[i] == k);
    assert(ks.contains(k));
    let j = ks.index_of(k);
    assert(ks[j] == k);
    root_order_is_total(k, k);
    assert forall|j: int|
        0 <= j < entries.len() && (#[trigger] entries[j]).identity@ == k implies j == i by {
        assert(ks[j] == k);
        if j < i {
            assert(root_rank(ks[j], ks[i]) == Rank::Less);
        } else if i < j {
            assert(root_rank(ks[i], ks[j]) == Rank::Less);
        }
    }
    assert(entries[j].identity@ == k);
}

proof fn lemma_replace(entries: Seq<RootEntry>, i: int, e: RootEntry)
    requires
        in_root_order(keys(entries)),
        0 <= i < entries.len(),
        e.identity@ == entries[i].identity@,
    ensures
        keys(entries.update(i, e)) == keys(entries),
        roots_map(entries.update(i, e)) == roots_map(entries).insert(e.identity@, e.state@),
{
    let after = entries.update(i, e);
    assert(keys(after) =~= keys(entries));
    lemma_lookup(entries, i);
    lemma_lookup(after, i);
    assert(roots_map(after) =~= roots_map(entries).insert(e.identity@, e.state@)) by {
        assert forall|k: RootKey| roots_map(after).contains_key(k) && k != e.identity@ implies
            roots_map(after)[k] == roots_map(entries)[k] by {
            let j = keys(after).index_of(k);
            assert(keys(after)[j] == k);
            assert(j != i);
        }
    }
}

proof fn lemma_insert(entries: Seq<RootEntry>, p: int, e: RootEntry)
    requires
        in_root_order(keys(entries)),
        0 <= p <= entries.len(),
        forall|j: int|
            0 <= j < p ==> root_rank((#[trigger] entries[j]).identity@, e.identity@) == Rank::Less,
        p < entries.len() ==> root_rank(entries[p].identity@, e.identity@) == Rank::Greater,
    ensures
        in_root_order(keys(entries.insert(p, e))),
        roots_map(entries.insert(p, e)) == roots_map(entries).insert(e.identity@, e.state@),
        !roots_map(entries).contains_key(e.identity@),
{
    let after = entries.insert(p, e);
    let k = e.identity@;
    let ks = keys(entries);
    let ka = keys(after);
    assert forall|j: int| p <= j < entries.len() implies root_rank(k, #[trigger] ks[j])
        == Rank::Less by {
        root_order_is_total(k, ks[p]);
        root_order_is_total(ks[p], k);
        if j > p {
            assert(root_rank(ks[p], ks[j]) == Rank::Less);
            root_order_is_transitive(k, ks[p], ks[j]);
        }
    }
    assert forall|i: int, j: int| 0 <= i < j < ka.len() implies root_rank(
        #[trigger] ka[i],
        #[trigger] ka[j],
    ) == Rank::Less by {
        if i < p {
            assert(ka[i] == ks[i]);
            assert(root_rank(entries[i].identity@, k) == Rank::Less);
        } else if i > p {
            assert(ka[i] == ks[i - 1]);
        }
        if j < p {
            assert(ka[j] == ks[j]);
        } else if j > p {
            assert(ka[j] == ks[j - 1]);
        }
    }
    assert(after[p] == e);
    lemma_lookup(after, p);
    assert(!ks.contains(k)) by {
        if ks.contains(k) {
            let j = ks.index_of(k);
            assert(ks[j] == k);
            root_order_is_total(k, k);
            if j < p {
                assert(root_rank(entries[j].identity@, k) == Rank::Less);
            }
        }
    }
    assert(roots_map(after) =~= roots_map(entries).insert(k, e.state@)) by {
        assert forall|x: RootKey| roots_map(after).contains_key(x) <==> #[trigger]
            roots_map(entries).insert(k, e.state@).contains_key(x) by {
            if ks.contains(x) {
                let j = ks.index_of(x);
                assert(ks[j] == x);
                if j < p {
                    assert(ka[j] == x);
                } else {
                    assert(ka[j + 1] == x);
                }
            }
            if ka.contains(x) && x != k {
                let j = ka.index_of(x);
                assert(ka[j] == x);
                if j < p {
                    assert(ks[j] == x);
                } else {
                    assert(j != p);
                    assert(ks[j - 1] == x);
                }
            }
        }
        assert forall|x: RootKey| roots_map(after).contains_key(x) && x != k implies roots_map(
            after,
        )[x] == roots_map(entries)[x] by {
            let j = ka.index_of(x);
            assert(ka[j] == x);
            if j < p {
                assert(ks[j] == x);
                lemma_lookup(entries, j);
            } else {
                assert(j != p);
                assert(ks[j - 1] == x);
                lemma_lookup(entries, j - 1);
            }
        }
    }
}

/// Arbitrates the filesystem work of all media roots.
pub struct MediaIoCoordinator<C> {
    policy: IoPolicy,
    clock: C,
    next_request_id: u64,
    next_sequence: u64,
    roots: Vec<RootEntry>,
    requests: HashMap<u64, RequestStatus>,
}

impl<C> View for MediaIoCoordinator<C> {
    type V = CoordinatorModel;

    closed spec fn view(&self) -> CoordinatorModel {
        CoordinatorModel {
            policy: self.policy,
            next_request_id: self.next_request_id,
            next_sequence: self.next_sequence,
            roots: roots_map(self.roots@),
            requests: self.requests@,
        }
    }
}

/// A queued request.
#[derive(Debug)]
pub struct IoRequest {
    id: u64,
    root: RootIdentity,
    class: WorkClass,
}

/// Capacity that a worker holds until it finishes.
#[derive(Debug)]
pub struct IoPermit {
    root: RootIdentity,
    class: WorkClass,
}

/// Playback that holds back the bulk work of its root until it finishes.
#[derive(Debug)]
pub struct PlaybackLease {
    root: RootIdentity,
}

#[derive(Clone, Copy, Debug, PartialEq, Eq, Structural)]
pub enum WaitError {
    Pending,
    Cancelled,
    AlreadyAcquired,
    CoordinatorDropped,
}

impl WaitError {
    pub fn message(self) -> (r: &'static str)
        ensures
            r@ == match self {
                WaitError::Pending => "I/O request is still pending"@,
                WaitError::Cancelled => "I/O request was cancelled"@,
                WaitError::AlreadyAcquired => "I/O request permit was already acquired"@,
                WaitError::CoordinatorDropped => "I/O coordinator was dropped"@,
            },
    {
        match self {
            WaitError::Pending => "I/O request is still pending",
            WaitError::Cancelled => "I/O request was cancelled",
            WaitError::AlreadyAcquired => "I/O request permit was already acquired",
            WaitError::CoordinatorDropped => "I/O coordinator was dropped",
        }
    }
}

/// What a waiting worker does next.
#[derive(Debug)]
pub enum WaitTurn {
    Acquired(IoPermit),
    Refused(WaitError),
    /// Sleep until the coordinator changes.
    Park,
    /// Sleep until the coordinator changes or this many microseconds have passed.
    ParkFor(u64),
}

impl<C> MediaIoCoordinator<C> {
    /// The policy is sane, the roots are in order, and every root stays within its limits.
    pub closed spec fn wf(&self) -> bool {
        &&& self.policy.is_sane()
        &&& in_root_order(keys(self.roots@))
        &&& self@.within_limits()
    }

    /// The clock that the coordinator reads.
    pub closed spec fn time_source(&self) -> C {
        self.clock
    }

    pub fn clock_mut(&mut self) -> (r: &mut C)
        ensures
            *r == old(self).time_source(),
            final(self).time_source() == *final(r),
            final(self)@ == old(self)@,
            final(self).order() == old(self).order(),
            old(self).wf() ==> final(self).wf(),
    {
        &mut self.clock
    }

    /// The known roots in the order in which they are reported.
    pub closed spec fn order(&self) -> Seq<RootKey> {
        keys(self.roots@)
    }

    /// The reported order holds each known root once, in the root order.
    pub proof fn order_lists_the_roots(&self)
        requires
            self.wf(),
        ensures
            in_root_order(self.order()),
            forall|k: RootKey| self.order().contains(k) <==> #[trigger] self@.roots.contains_key(k),
            self@.policy.is_sane(),
            self@.within_limits(),
    {
    }

    pub fn with_clock(policy: IoPolicy, clock: C) -> (r: Self)
        ensures
            r.wf(),
            r.time_source() == clock,
            r@ == (CoordinatorModel {
                policy: policy.sane(),
                next_request_id: 0,
                next_sequence: 0,
                roots: Map::empty(),
                requests: Map::empty(),
            }),
    {
        let r = MediaIoCoordinator {
            policy: policy.sanitized(),
            clock,
            next_request_id: 0,
            next_sequence: 0,
            roots: Vec::new(),
            requests: HashMap::new(),
        };
        assert(r@.roots =~= Map::<RootKey, RootModel>::empty());
        assert(r@.requests =~= Map::<u64, RequestStatus>::empty());
        r
    }

    /// The place of a root, or the place where it belongs.
    fn find(&self, root: &RootIdentity) -> (r: (usize, bool))
        requires
            self.wf(),
        ensures
            r.1 == self@.roots.contains_key(root@),
            r.0 <= self.roots@.len(),
            r.1 ==> r.0 < self.roots@.len() && self.roots@[r.0 as int].identity@ == root@,
            !r.1 ==> forall|j: int|
                0 <= j < r.0 ==> root_rank((#[trigger] self.roots@[j]).identity@, root@)
                    == Rank::Less,
            !r.1 && r.0 < self.roots@.len() ==> root_rank(
                self.roots@[r.0 as int].identity@,
                root@,
            ) == Rank::Greater,
    {
        let n: usize = self.roots.len();
        let mut i: usize = 0;
        let ghost ks = keys(self.roots@);
        while i < n
            invariant
                i <= n,
                n == self.roots@.len(),
                self.wf(),
                ks == keys(self.roots@),
                forall|j: int|
                    0 <= j < i ==> root_rank((#[trigger] self.roots@[j]).identity@, root@)
                        == Rank::Less,
            decreases n - i,
        {
            match rank_roots(&self.roots[i].identity, root) {
                Rank::Less => {},
                Rank::Equal => {
                    proof {
                        root_order_is_total(self.roots@[i as int].identity@, root@);
                        lemma_lookup(self.roots@, i as int);
                    }
                    return (i, true);
                },
                Rank::Greater => {
                    proof {
                        self.lemma_absent(root@, i as int);
                    }
                    return (i, false);
                },
            }
            i += 1;
        }
        proof {
            self.lemma_absent(root@, n as int);
        }
        (n, false)
    }

    proof fn lemma_absent(&self, k: RootKey, p: int)
        requires
            self.wf(),
            0 <= p <= self.roots@.len(),
            forall|j: int|
                0 <= j < p ==> root_rank((#[trigger] self.roots@[j]).identity@, k) == Rank::Less,
            p < self.roots@.len() ==> root_rank(self.roots@[p].identity@, k) == Rank::Greater,
        ensures
            !self@.roots.contains_key(k),
    {
        let ks = keys(self.roots@);
        if ks.contains(k) {
            let j = ks.index_of(k);
            assert(ks[j] == k);
            assert(self.roots@[j].identity@ == k);
            root_order_is_total(k, k);
            if j > p {
                assert(root_rank(ks[p], ks[j]) == Rank::Less);
            }
        }
    }

    /// The place of a root, which is added in its fresh state when it is not known yet.
    fn slot(&mut self, root: &RootIdentity) -> (i: usize)
        requires
            old(self).wf(),
        ensures
            final(self).wf(),
            i < final(self).roots@.len(),
            final(self).roots@[i as int].identity@ == root@,
            final(self).roots@[i as int].state@ == old(self)@.root_or_fresh(root@),
            final(self)@ == (CoordinatorModel {
                roots: old(self)@.roots.insert(root@, old(self)@.root_or_fresh(root@)),
                ..old(self)@
            }),
            final(self).time_source() == old(self).time_source(),
    {
        let (i, found) = self.find(root);
        if found {
            proof {
                lemma_lookup(self.roots@, i as int);
                assert(self@.roots =~= self@.roots.insert(root@, self@.roots[root@]));
            }
        } else {
            let ghost before = self@;
            let entry = RootEntry { identity: root.clone(), state: RootState::default() };
            proof {
                lemma_insert(self.roots@, i as int, entry);
            }
            self.roots.insert(i, entry);
            proof {
                assert(self@ =~= CoordinatorModel {
                    roots: before.roots.insert(root@, fresh_root()),
                    ..before
                });
                assert(fresh_root().fits(self.policy.limits_of(root@.kind)));
            }
        }
        i
    }

    /// Schedules the root at place `i`.
    fn schedule_at(&mut self, i: usize, now: u64)
        requires
            old(self).policy.is_sane(),
            in_root_order(keys(old(self).roots@)),
            old(self)@.within_limits(),
            i < old(self).roots@.len(),
        ensures
            final(self).wf(),
            final(self)@ == old(self)@.settle(
                old(self).roots@[i as int].identity@,
                old(self).roots@[i as int].state@,
                now,
            ),
            final(self).time_source() == old(self).time_source(),
            final(self).order() == old(self).order(),
    {
        let ghost entries = self.roots@;
        let ghost before = self@;
        let ghost k = self.roots@[i as int].identity@;
        let kind = self.roots[i].identity.kind;
        let policy = self.policy;
        proof {
            lemma_lookup(entries, i as int);
            assert(before.roots.contains_key(k));
            assert(before.roots[k].fits(policy.limits_of(k.kind)));
        }
        let slot = &mut self.roots[i];
        schedule_root(&policy, kind, &mut slot.state, &mut self.requests, now);
        proof {
            let e = self.roots@[i as int];
            assert(self.roots@ =~= entries.update(i as int, e));
            lemma_replace(entries, i as int, e);
            assert(self@ =~= before.settle(k, entries[i as int].state@, now));
        }
    }
}

impl<C> MediaIoCoordinator<C> {
    /// Enqueues at time `now`, without waiting for capacity.
    pub fn enqueue_at(&mut self, root: RootIdentity, class: WorkClass, now: u64) -> (r: IoRequest)
        requires
            old(self).wf(),
        ensures
            final(self).wf(),
            final(self)@ == old(self)@.enqueued(root@, class, now),
            final(self).time_source() == old(self).time_source(),
            r.id_of() == old(self)@.next_request_id,
            r.root_of() == root@,
            r.class_of() == class,
    {
        let ghost m0 = self@;
        let i: usize = self.slot(&root);
        let id: u64 = self.next_request_id;
        let sequence: u64 = self.next_sequence;
        self.next_request_id = self.next_request_id.wrapping_add(1);
        self.next_sequence = self.next_sequence.wrapping_add(1);
        self.requests.insert(id, RequestStatus::Pending);
        let ghost entries = self.roots@;
        let ghost r0 = self.roots@[i as int].state@;
        let c: usize = class.index();
        proof {
            lemma_lookup(entries, i as int);
            assert(r0.fits(self.policy.limits_of(root@.kind)));
        }
        let slot = &mut self.roots[i];
        slot.state.queue.push(QueueEntry { id, sequence, class, enqueued_us: now });
        let count: usize = slot.state.queued(class);
        let mut stats = slot.state.stats[c];
        stats.enqueued = stats.enqueued.saturating_add(1);
        if count > stats.max_queued {
            stats.max_queued = count;
        }
        slot.state.stats.set(c, stats);
        proof {
            let e = self.roots@[i as int];
            assert(self.roots@ =~= entries.update(i as int, e));
            lemma_replace(entries, i as int, e);
            let joined = RootModel {
                queue: r0.queue.push(QueueEntry { id, sequence, class, enqueued_us: now }),
                ..r0
            };
            assert(e.state@ =~= RootModel { stats: r0.stats.update(c as int, stats), ..joined });
            assert(e.state@.fits(self.policy.limits_of(root@.kind)));
            self.lemma_within(m0, root@, e.state@);
        }
        let ghost m1 = self@;
        self.schedule_at(i, now);
        proof {
            let want = m0.enqueued(root@, class, now);
            assert(self@.roots =~= want.roots);
            assert(self@ =~= want);
        }
        IoRequest { id, root, class }
    }

    /// Changing one root to a state that fits keeps all roots within their limits.
    proof fn lemma_within(&self, m: CoordinatorModel, k: RootKey, r: RootModel)
        requires
            m.within_limits(),
            self@.policy == m.policy,
            self@.roots == m.roots.insert(k, r) || self@.roots == m.roots.insert(
                k,
                m.root_or_fresh(k),
            ).insert(k, r),
            r.fits(m.policy.limits_of(k.kind)),
        ensures
            self@.within_limits(),
    {
        assert forall|x: RootKey| #[trigger] self@.roots.contains_key(x) implies self@.roots[x].fits(
            self@.policy.limits_of(x.kind),
        ) by {
            if x != k {
                assert(m.roots.contains_key(x));
            }
        }
    }

    /// Marks playback active for a root at time `now`.
    pub fn begin_playback_at(&mut self, root: RootIdentity, now: u64) -> (r: PlaybackLease)
        requires
            old(self).wf(),
        ensures
            final(self).wf(),
            final(self)@ == old(self)@.playback_begun(root@, now),
            final(self).time_source() == old(self).time_source(),
            r.root_of() == root@,
    {
        let ghost m0 = self@;
        let i: usize = self.slot(&root);
        let ghost entries = self.roots@;
        let ghost r0 = self.roots@[i as int].state@;
        proof {
            lemma_lookup(entries, i as int);
            assert(r0.fits(self.policy.limits_of(root@.kind)));
        }
        let slot = &mut self.roots[i];
        slot.state.playback_leases = slot.state.playback_leases.saturating_add(1);
        slot.state.playback_hysteresis_until_us = 0;
        proof {
            let e = self.roots@[i as int];
            assert(self.roots@ =~= entries.update(i as int, e));
            lemma_replace(entries, i as int, e);
            self.lemma_within(m0, root@, e.state@);
        }
        self.schedule_at(i, now);
        proof {
            let want = m0.playback_begun(root@, now);
            assert(self@.roots =~= want.roots);
            assert(self@ =~= want);
        }
        PlaybackLease { root }
    }

    /// Re-evaluates every root at time `now`.
    pub fn refresh_at(&mut self, now: u64)
        requires
            old(self).wf(),
        ensures
            final(self).wf(),
            final(self)@ == old(self)@.refreshed(old(self).order(), now),
            final(self).time_source() == old(self).time_source(),
            final(self).order() == old(self).order(),
    {
        let ghost m0 = self@;
        let ghost order = self.order();
        let n: usize = self.roots.len();
        let mut i: usize = 0;
        assert(order.take(0) =~= Seq::<RootKey>::empty());
        while i < n
            invariant
                i <= n,
                n == self.roots@.len(),
                self.wf(),
                order == self.order(),
                self@ == m0.refreshed(order.take(i as int), now),
                self.time_source() == old(self).time_source(),
            decreases n - i,
        {
            proof {
                lemma_lookup(self.roots@, i as int);
                assert(order[i as int] == self.roots@[i as int].identity@);
                assert(order.take(i + 1).drop_last() =~= order.take(i as int));
                assert(order.take(i + 1).last() == order[i as int]);
            }
            self.schedule_at(i, now);
            i += 1;
        }
        assert(order.take(n as int) =~= order);
    }

    /// Replaces the counters of one class of one root.
    fn store_stats(&mut self, i: usize, class: WorkClass, stats: ClassStats)
        requires
            old(self).wf(),
            i < old(self).roots@.len(),
        ensures
            final(self).wf(),
            final(self)@ == old(self)@.with_stats(
                old(self).roots@[i as int].identity@,
                class,
                stats,
            ),
            final(self).time_source() == old(self).time_source(),
    {
        let ghost m0 = self@;
        let ghost entries = self.roots@;
        let ghost k = entries[i as int].identity@;
        proof {
            lemma_lookup(entries, i as int);
            assert(m0.roots[k].fits(self.policy.limits_of(k.kind)));
        }
        let c: usize = class.index();
        let slot = &mut self.roots[i];
        slot.state.stats.set(c, stats);
        proof {
            let e = self.roots@[i as int];
            assert(self.roots@ =~= entries.update(i as int, e));
            lemma_replace(entries, i as int, e);
            let r0 = entries[i as int].state@;
            assert(e.state@ =~= RootModel { stats: r0.stats.update(c as int, stats), ..r0 });
            self.lemma_within(m0, k, e.state@);
            assert(self@ =~= m0.with_stats(k, class, stats));
        }
    }

    /// Ends the coordinator: no request is known any more, so that everyone who waits is refused.
    pub fn shut_down(&mut self)
        requires
            old(self).wf(),
        ensures
            final(self).wf(),
            final(self)@ == (CoordinatorModel { requests: Map::empty(), ..old(self)@ }),
            final(self).time_source() == old(self).time_source(),
    {
        let ghost m0 = self@;
        self.requests = HashMap::new();
        proof {
            assert(self@ =~= CoordinatorModel { requests: Map::empty(), ..m0 });
            assert forall|k: RootKey| #[trigger] self@.roots.contains_key(k) implies self@.roots[k].fits(
                self@.policy.limits_of(k.kind),
            ) by {
                assert(m0.roots.contains_key(k));
            }
        }
    }

    /// Records a cache hit against the work class that avoided filesystem work.
    pub fn record_cache_hit(&mut self, root: &RootIdentity, class: WorkClass)
        requires
            old(self).wf(),
        ensures
            final(self).wf(),
            final(self)@ == ({
                let s = old(self)@.root_or_fresh(root@).stats[class.place()];
                old(self)@.with_stats(
                    root@,
                    class,
                    ClassStats { cache_hits: sat(s.cache_hits, 1), ..s },
                )
            }),
            final(self).time_source() == old(self).time_source(),
    {
        let ghost m0 = self@;
        let i: usize = self.slot(root);
        proof {
            lemma_lookup(self.roots@, i as int);
            assert(self@.roots.contains_key(root@));
        }
        let mut stats = self.roots[i].state.stats[class.index()];
        stats.cache_hits = stats.cache_hits.saturating_add(1);
        self.store_stats(i, class, stats);
        assert(self@.roots =~= m0.with_stats(root@, class, stats).roots);
        assert(self@ =~= m0.with_stats(root@, class, stats));
    }

    /// Attributes a completed filesystem operation to a root and work class.
    pub fn record_filesystem_duration(
        &mut self,
        root: &RootIdentity,
        class: WorkClass,
        duration_us: u64,
    )
        requires
            old(self).wf(),
        ensures
            final(self).wf(),
            final(self)@ == ({
                let s = old(self)@.root_or_fresh(root@).stats[class.place()];
                old(self)@.with_stats(
                    root@,
                    class,
                    ClassStats {
                        filesystem_operations: sat(s.filesystem_operations, 1),
                        filesystem_total_us: sat(s.filesystem_total_us, duration_us),
                        filesystem_max_us: max_u64(s.filesystem_max_us, duration_us),
                        ..s
                    },
                )
            }),
            final(self).time_source() == old(self).time_source(),
    {
        let ghost m0 = self@;
        let i: usize = self.slot(root);
        proof {
            lemma_lookup(self.roots@, i as int);
            assert(self@.roots.contains_key(root@));
        }
        let mut stats = self.roots[i].state.stats[class.index()];
        stats.filesystem_operations = stats.filesystem_operations.saturating_add(1);
        stats.filesystem_total_us = stats.filesystem_total_us.saturating_add(duration_us);
        if duration_us > stats.filesystem_max_us {
            stats.filesystem_max_us = duration_us;
        }
        self.store_stats(i, class, stats);
        assert(self@.roots =~= m0.with_stats(root@, class, stats).roots);
        assert(self@ =~= m0.with_stats(root@, class, stats));
    }

    /// Whether `d` is the report on every root at time `now`, in the root order.
    pub open spec fn described_by(&self, d: IoDiagnostics, now: u64) -> bool {
        &&& d.roots@.len() == self.order().len()
        &&& forall|i: int|
            0 <= i < d.roots@.len() ==> (#[trigger] d.roots@[i]).reports(
                self.order()[i],
                self@.policy.limits_of(self.order()[i].kind),
                self@.roots[self.order()[i]],
                now,
            )
    }

    /// What the coordinator reports at time `now`.
    pub fn diagnostics_at(&self, now: u64) -> (r: IoDiagnostics)
        requires
            self.wf(),
        ensures
            self.described_by(r, now),
    {
        let n: usize = self.roots.len();
        let mut roots: Vec<RootDiagnostics> = Vec::new();
        let mut i: usize = 0;
        while i < n
            invariant
                i <= n,
                n == self.roots@.len(),
                self.wf(),
                roots@.len() == i,
                forall|j: int|
                    0 <= j < i ==> (#[trigger] roots@[j]).reports(
                        self.order()[j],
                        self@.policy.limits_of(self.order()[j].kind),
                        self@.roots[self.order()[j]],
                        now,
                    ),
            decreases n - i,
        {
            proof {
                lemma_lookup(self.roots@, i as int);
                assert(self.order()[i as int] == self.roots@[i as int].identity@);
                assert(self@.roots.contains_key(self.order()[i as int]));
            }
            let e = &self.roots[i];
            let limits = self.policy.limits(e.identity.kind);
            let throttled = is_playback_throttled(&e.state, now);
            let d = RootDiagnostics {
                root: e.identity.clone(),
                limits,
                playback_leases: e.state.playback_leases,
                playback_throttled: throttled,
                hysteresis_remaining_us: e.state.playback_hysteresis_until_us.saturating_sub(now),
                effective_bulk_limit: effective_bulk_limit(limits, throttled),
                classes: class_reports(&e.state, limits),
            };
            roots.push(d);
            i += 1;
        }
        IoDiagnostics { roots }
    }

    /// Returns the capacity of one permit of `root` at time `now`.
    fn release_at(&mut self, root: &RootIdentity, class: WorkClass, outcome: PermitOutcome, now: u64)
        requires
            old(self).wf(),
        ensures
            final(self).wf(),
            final(self)@ == old(self)@.released(root@, class, outcome, now),
            final(self).time_source() == old(self).time_source(),
    {
        let (i, found) = self.find(root);
        if !found {
            return;
        }
        let ghost m0 = self@;
        let ghost entries = self.roots@;
        let ghost r0 = entries[i as int].state@;
        proof {
            lemma_lookup(entries, i as int);
            assert(m0.roots[root@].fits(self.policy.limits_of(root@.kind)));
        }
        let slot = &mut self.roots[i];
        release_active(&mut slot.state, class, outcome);
        proof {
            let e = self.roots@[i as int];
            assert(self.roots@ =~= entries.update(i as int, e));
            lemma_replace(entries, i as int, e);
            self.lemma_within(m0, root@, e.state@);
        }
        self.schedule_at(i, now);
        proof {
            let want = m0.released(root@, class, outcome, now);
            assert(self@.roots =~= want.roots);
            assert(self@ =~= want);
        }
    }

    /// Ends one playback of `root` at time `now`.
    fn end_playback_at(&mut self, root: &RootIdentity, now: u64)
        requires
            old(self).wf(),
        ensures
            final(self).wf(),
            final(self)@ == old(self)@.playback_ended(root@, now),
            final(self).time_source() == old(self).time_source(),
    {
        let (i, found) = self.find(root);
        if !found {
            return;
        }
        let ghost m0 = self@;
        let ghost entries = self.roots@;
        proof {
            lemma_lookup(entries, i as int);
            assert(m0.roots[root@].fits(self.policy.limits_of(root@.kind)));
        }
        let hysteresis: u64 = self.policy.playback_hysteresis_us;
        let slot = &mut self.roots[i];
        slot.state.playback_leases = slot.state.playback_leases.saturating_sub(1);
        if slot.state.playback_leases == 0 {
            slot.state.playback_hysteresis_until_us = now.saturating_add(hysteresis);
        }
        proof {
            let e = self.roots@[i as int];
            assert(self.roots@ =~= entries.update(i as int, e));
            lemma_replace(entries, i as int, e);
            self.lemma_within(m0, root@, e.state@);
        }
        self.schedule_at(i, now);
        proof {
            let want = m0.playback_ended(root@, now);
            assert(self@.roots =~= want.roots);
            assert(self@ =~= want);
        }
    }

    /// Cancels request `id` of `root` at time `now`; whether there was anything to cancel.
    fn cancel_at(&mut self, root: &RootIdentity, id: u64, class: WorkClass, now: u64) -> (r: bool)
        requires
            old(self).wf(),
        ensures
            final(self).wf(),
            r == old(self)@.cancellable(root@, id),
            final(self)@ == old(self)@.cancelled(root@, id, class, now),
            final(self).time_source() == old(self).time_source(),
    {
        let (i, found) = self.find(root);
        if !found {
            return false;
        }
        let status = match self.requests.get(&id) {
            Some(status) => *status,
            None => return false,
        };
        let ghost m0 = self@;
        let ghost entries = self.roots@;
        let ghost r0 = entries[i as int].state@;
        let c: usize = class.index();
        proof {
            lemma_lookup(entries, i as int);
            assert(m0.roots[root@].fits(self.policy.limits_of(root@.kind)));
        }
        match status {
            RequestStatus::Pending => {
                let at: usize = match queue_position(&self.roots[i].state.queue, id) {
                    Some(at) => at,
                    None => return false,
                };
                let slot = &mut self.roots[i];
                let _e = slot.state.queue.remove(at);
                let mut stats = slot.state.stats[c];
                stats.cancelled = stats.cancelled.saturating_add(1);
                stats.release_outcomes = stats.release_outcomes.count(PermitOutcome::Cancelled);
                slot.state.stats.set(c, stats);
                proof {
                    assert(slot.state@ =~= RootModel {
                        queue: r0.queue.remove(at as int),
                        stats: r0.stats.update(c as int, stats),
                        ..r0
                    });
                }
            },
            RequestStatus::Granted => {
                let slot = &mut self.roots[i];
                release_active(&mut slot.state, class, PermitOutcome::Cancelled);
                let mut stats = slot.state.stats[c];
                stats.cancelled = stats.cancelled.saturating_add(1);
                let ghost f = slot.state@;
                slot.state.stats.set(c, stats);
                proof {
                    assert(slot.state@ =~= RootModel {
                        stats: f.stats.update(c as int, stats),
                        ..f
                    });
                }
            },
            _ => {
                return false;
            },
        }
        self.requests.insert(id, RequestStatus::Cancelled);
        proof {
            let e = self.roots@[i as int];
            assert(self.roots@ =~= entries.update(i as int, e));
            lemma_replace(entries, i as int, e);
            self.lemma_within(m0, root@, e.state@);
        }
        self.schedule_at(i, now);
        proof {
            let want = m0.cancelled(root@, id, class, now);
            assert(self@.roots =~= want.roots);
            assert(self@ =~= want);
        }
        true
    }
}

fn queue_position(q: &Vec<QueueEntry>, id: u64) -> (r: Option<usize>)
    ensures
        match r {
            Some(i) => i < q@.len() && position(q@, id) == Some(i as int),
            None => position(q@, id) is None,
        },
{
    let n: usize = q.len();
    let mut i: usize = 0;
    assert(q@.skip(0) =~= q@);
    while i < n
        invariant
            i <= n,
            n == q@.len(),
            position(q@, id) == (match position(q@.skip(i as int), id) {
                Some(k) => Some(k + i),
                None => None,
            }),
        decreases n - i,
    {
        if q[i].id == id {
            return Some(i);
        }
        assert(q@.skip(i as int).drop_first() =~= q@.skip(i + 1));
        i += 1;
    }
    None
}

fn release_active(root: &mut RootState, class: WorkClass, outcome: PermitOutcome)
    requires
        old(root)@.active.len() == CLASS_COUNT,
        old(root)@.stats.len() == CLASS_COUNT,
    ensures
        final(root)@ == freed(old(root)@, class, outcome),
{
    let c: usize = class.index();
    let left: usize = root.active[c].saturating_sub(1);
    root.active.set(c, left);
    let mut stats = root.stats[c];
    stats.released = stats.released.saturating_add(1);
    stats.release_outcomes = stats.release_outcomes.count(outcome);
    root.stats.set(c, stats);
    assert(root@ =~= freed(old(root)@, class, outcome));
}

/// The state of every root.
#[derive(Debug)]
pub struct IoDiagnostics {
    pub roots: Vec<RootDiagnostics>,
}

#[derive(Debug)]
pub struct RootDiagnostics {
    pub root: RootIdentity,
    pub limits: RootLimits,
    pub playback_leases: usize,
    pub playback_throttled: bool,
    pub hysteresis_remaining_us: u64,
    pub effective_bulk_limit: usize,
    pub classes: Vec<ClassDiagnostics>,
}

#[derive(Clone, Copy, Debug, PartialEq, Eq, Structural)]
pub struct ClassDiagnostics {
    pub class: WorkClass,
    pub queued: usize,
    pub active: usize,
    pub enqueued: u64,
    pub granted: u64,
    pub cancelled: u64,
    pub released: u64,
    pub max_queued: usize,
    pub queue_wait_total_us: u64,
    pub queue_wait_max_us: u64,
    pub cache_hits: u64,
    pub filesystem_operations: u64,
    pub filesystem_total_us: u64,
    pub filesystem_max_us: u64,
    pub release_outcomes: ReleaseOutcomeDiagnostics,
}

/// What is reported of one class of a root.
pub open spec fn class_report(r: RootModel, class: WorkClass) -> ClassDiagnostics {
    let s = r.stats[class.place()];
    ClassDiagnostics {
        class,
        queued: r.queued(class) as usize,
        active: r.active[class.place()],
        enqueued: s.enqueued,
        granted: s.granted,
        cancelled: s.cancelled,
        released: s.released,
        max_queued: s.max_queued,
        queue_wait_total_us: s.queue_wait_total_us,
        queue_wait_max_us: s.queue_wait_max_us,
        cache_hits: s.cache_hits,
        filesystem_operations: s.filesystem_operations,
        filesystem_total_us: s.filesystem_total_us,
        filesystem_max_us: s.filesystem_max_us,
        release_outcomes: s.release_outcomes,
    }
}

impl RootDiagnostics {
    /// Whether this is the report on root `k` in state `r` at time `now`.
    pub open spec fn reports(&self, k: RootKey, limits: RootLimits, r: RootModel, now: u64) -> bool {
        &&& self.root@ == k
        &&& self.limits == limits
        &&& self.playback_leases == r.playback_leases
        &&& self.playback_throttled == r.throttled(now)
        &&& self.hysteresis_remaining_us == if r.playback_hysteresis_until_us > now {
            r.playback_hysteresis_until_us - now
        } else {
            0
        }
        &&& self.effective_bulk_limit == bulk_limit(limits, r.throttled(now))
        &&& self.classes@ == WorkClass::all_spec().map_values(|c: WorkClass| class_report(r, c))
    }
}

fn report_class(root: &RootState, class: WorkClass, limits: RootLimits) -> (r: ClassDiagnostics)
    requires
        root@.fits(limits),
    ensures
        r == class_report(root@, class),
{
    let s = root.stats[class.index()];
    ClassDiagnostics {
        class,
        queued: root.queued(class),
        active: root.active[class.index()],
        enqueued: s.enqueued,
        granted: s.granted,
        cancelled: s.cancelled,
        released: s.released,
        max_queued: s.max_queued,
        queue_wait_total_us: s.queue_wait_total_us,
        queue_wait_max_us: s.queue_wait_max_us,
        cache_hits: s.cache_hits,
        filesystem_operations: s.filesystem_operations,
        filesystem_total_us: s.filesystem_total_us,
        filesystem_max_us: s.filesystem_max_us,
        release_outcomes: s.release_outcomes,
    }
}

fn class_reports(root: &RootState, limits: RootLimits) -> (r: Vec<ClassDiagnostics>)
    requires
        root@.fits(limits),
    ensures
        r@ == WorkClass::all_spec().map_values(|c: WorkClass| class_report(root@, c)),
{
    let all = WorkClass::all();
    let mut out: Vec<ClassDiagnostics> = Vec::new();
    let mut i: usize = 0;
    while i < 6
        invariant
            i <= 6,
            all@ == WorkClass::all_spec(),
            root@.fits(limits),
            out@.len() == i,
            forall|j: int|
                0 <= j < i ==> #[trigger] out@[j] == class_report(root@, WorkClass::all_spec()[j]),
        decreases 6 - i,
    {
        out.push(report_class(root, all[i], limits));
        i += 1;
    }
    assert(out@ =~= WorkClass::all_spec().map_values(|c: WorkClass| class_report(root@, c)));
    out
}

impl<C: CoordinatorClock> MediaIoCoordinator<C> {
    /// Enqueues without waiting for capacity.
    pub fn enqueue(&mut self, root: RootIdentity, class: WorkClass) -> (r: IoRequest)
        requires
            old(self).wf(),
        ensures
            final(self).wf(),
            final(self).time_source() == old(self).time_source(),
            exists|now: u64|
                old(self).time_source().shows(now) && final(self)@
                    == #[trigger] old(self)@.enqueued(root@, class, now),
            r.id_of() == old(self)@.next_request_id,
            r.root_of() == root@,
            r.class_of() == class,
    {
        let now: u64 = self.clock.now_micros();
        self.enqueue_at(root, class, now)
    }

    /// Marks playback active for a root.
    pub fn begin_playback(&mut self, root: RootIdentity) -> (r: PlaybackLease)
        requires
            old(self).wf(),
        ensures
            final(self).wf(),
            final(self).time_source() == old(self).time_source(),
            exists|now: u64|
                old(self).time_source().shows(now) && final(self)@
                    == #[trigger] old(self)@.playback_begun(root@, now),
            r.root_of() == root@,
    {
        let now: u64 = self.clock.now_micros();
        self.begin_playback_at(root, now)
    }

    /// Re-evaluates the time-based rules of every root.
    pub fn refresh(&mut self)
        requires
            old(self).wf(),
        ensures
            final(self).wf(),
            final(self).time_source() == old(self).time_source(),
            exists|now: u64|
                old(self).time_source().shows(now) && final(self)@
                    == #[trigger] old(self)@.refreshed(old(self).order(), now),
    {
        let now: u64 = self.clock.now_micros();
        self.refresh_at(now);
    }

    pub fn diagnostics(&self) -> (r: IoDiagnostics)
        requires
            self.wf(),
        ensures
            exists|now: u64|
                self.time_source().shows(now) && #[trigger] self.described_by(r, now),
    {
        let now: u64 = self.clock.now_micros();
        self.diagnostics_at(now)
    }
}

impl MediaIoCoordinator<SystemClock> {
    /// A coordinator on the clock of the machine, with the default limits.
    pub fn new() -> (r: Self)
        ensures
            r.wf(),
            r@ == (CoordinatorModel {
                policy: standard_policy(),
                next_request_id: 0,
                next_sequence: 0,
                roots: Map::empty(),
                requests: Map::empty(),
            }),
    {
        Self::with_policy(IoPolicy::default())
    }

    pub fn with_policy(policy: IoPolicy) -> (r: Self)
        ensures
            r.wf(),
            r@ == (CoordinatorModel {
                policy: policy.sane(),
                next_request_id: 0,
                next_sequence: 0,
                roots: Map::empty(),
                requests: Map::empty(),
            }),
    {
        Self::with_clock(policy, SystemClock::default())
    }
}

impl IoRequest {
    pub closed spec fn id_of(&self) -> u64 {
        self.id
    }

    pub closed spec fn root_of(&self) -> RootKey {
        self.root@
    }

    pub closed spec fn class_of(&self) -> WorkClass {
        self.class
    }

    pub fn root(&self) -> (r: &RootIdentity)
        ensures
            r@ == self.root_of(),
    {
        &self.root
    }

    pub fn class(&self) -> (r: WorkClass)
        ensures
            r == self.class_of(),
    {
        self.class
    }

    /// Cancels at time `now`, whether the request is queued or granted and not consumed.
    pub fn cancel_at<C>(&self, coordinator: &mut MediaIoCoordinator<C>, now: u64) -> (r: bool)
        requires
            old(coordinator).wf(),
        ensures
            final(coordinator).wf(),
            r == old(coordinator)@.cancellable(self.root_of(), self.id_of()),
            final(coordinator)@ == old(coordinator)@.cancelled(
                self.root_of(),
                self.id_of(),
                self.class_of(),
                now,
            ),
            final(coordinator).time_source() == old(coordinator).time_source(),
    {
        coordinator.cancel_at(&self.root, self.id, self.class, now)
    }

    /// Cancels whether the request is queued or granted and not consumed.
    pub fn cancel<C: CoordinatorClock>(&self, coordinator: &mut MediaIoCoordinator<C>) -> (r: bool)
        requires
            old(coordinator).wf(),
        ensures
            final(coordinator).wf(),
            r == old(coordinator)@.cancellable(self.root_of(), self.id_of()),
            final(coordinator).time_source() == old(coordinator).time_source(),
            exists|now: u64|
                old(coordinator).time_source().shows(now) && final(coordinator)@
                    == #[trigger] old(coordinator)@.cancelled(
                    self.root_of(),
                    self.id_of(),
                    self.class_of(),
                    now,
                ),
    {
        let now: u64 = coordinator.clock.now_micros();
        self.cancel_at(coordinator, now)
    }

    /// Gives the request up: cancels it if it still can be, and forgets it.
    pub fn discard<C: CoordinatorClock>(self, coordinator: &mut MediaIoCoordinator<C>)
        requires
            old(coordinator).wf(),
        ensures
            final(coordinator).wf(),
            final(coordinator).time_source() == old(coordinator).time_source(),
            exists|now: u64|
                old(coordinator).time_source().shows(now) && final(coordinator)@
                    == #[trigger] old(coordinator)@.given_up(
                    self.root_of(),
                    self.id_of(),
                    self.class_of(),
                    now,
                ),
    {
        let now: u64 = coordinator.clock.now_micros();
        let _cancelled = self.cancel_at(coordinator, now);
        let ghost m = coordinator@;
        coordinator.requests.remove(&self.id);
        assert(coordinator@ =~= old(coordinator)@.given_up(
            self.root_of(),
            self.id_of(),
            self.class_of(),
            now,
        ));
        proof {
            assert(coordinator@.within_limits()) by {
                assert forall|k: RootKey| #[trigger] coordinator@.roots.contains_key(k) implies
                    coordinator@.roots[k].fits(coordinator@.policy.limits_of(k.kind)) by {
                    assert(m.roots.contains_key(k));
                }
            }
        }
    }

    /// Polls without blocking. `Ok(None)` means that the request is still queued.
    pub fn try_acquire<C>(&self, coordinator: &mut MediaIoCoordinator<C>) -> (r: Result<
        Option<IoPermit>,
        WaitError,
    >)
        requires
            old(coordinator).wf(),
        ensures
            final(coordinator).wf(),
            final(coordinator).time_source() == old(coordinator).time_source(),
            final(coordinator).order() == old(coordinator).order(),
            ({
                let m = old(coordinator)@;
                let id = self.id_of();
                if !m.requests.contains_key(id) {
                    r == Err::<Option<IoPermit>, WaitError>(WaitError::CoordinatorDropped)
                        && final(coordinator)@ == m
                } else {
                    match m.requests[id] {
                        RequestStatus::Pending => r == Ok::<Option<IoPermit>, WaitError>(None)
                            && final(coordinator)@ == m,
                        RequestStatus::Cancelled => r == Err::<Option<IoPermit>, WaitError>(
                            WaitError::Cancelled,
                        ) && final(coordinator)@ == m,
                        RequestStatus::Consumed => r == Err::<Option<IoPermit>, WaitError>(
                            WaitError::AlreadyAcquired,
                        ) && final(coordinator)@ == m,
                        RequestStatus::Granted => {
                            &&& r matches Ok(Some(p)) && p.root_of() == self.root_of()
                                && p.class_of() == self.class_of()
                            &&& final(coordinator)@ == m.acquired(id)
                        },
                    }
                }
            }),
    {
        match consume_if_granted(coordinator, self) {
            Ok(permit) => Ok(Some(permit)),
            Err(WaitError::Pending) => Ok(None),
            Err(error) => Err(error),
        }
    }

    /// What one turn of waiting at time `now` comes to: a granted request gives its permit and is
    /// consumed, one that cannot be granted any more is refused with the reason, and one that is
    /// still queued sleeps, as long as the time-based rules may not change.
    pub open spec fn waited(
        &self,
        m: CoordinatorModel,
        after: CoordinatorModel,
        now: u64,
        r: WaitTurn,
    ) -> bool {
        let id = self.id_of();
        let k = self.root_of();
        if !m.requests.contains_key(id) {
            r == WaitTurn::Refused(WaitError::CoordinatorDropped) && after == m
        } else {
            match m.requests[id] {
                RequestStatus::Pending => {
                    &&& after == m
                    &&& if m.roots.contains_key(k) && m.roots[k].playback_hysteresis_until_us
                        > now {
                        r == WaitTurn::ParkFor(
                            (m.roots[k].playback_hysteresis_until_us - now) as u64,
                        )
                    } else {
                        r == WaitTurn::Park
                    }
                },
                RequestStatus::Cancelled => r == WaitTurn::Refused(WaitError::Cancelled) && after
                    == m,
                RequestStatus::Consumed => r == WaitTurn::Refused(WaitError::AlreadyAcquired)
                    && after == m,
                RequestStatus::Granted => {
                    &&& r matches WaitTurn::Acquired(p) && p.root_of() == self.root_of()
                        && p.class_of() == self.class_of()
                    &&& after == m.acquired(id)
                },
            }
        }
    }

    /// One turn of waiting at time `now`: the permit, the reason there will be none, or how to
    /// sleep until the next turn.
    pub fn wait_at<C>(&self, coordinator: &mut MediaIoCoordinator<C>, now: u64) -> (r: WaitTurn)
        requires
            old(coordinator).wf(),
        ensures
            final(coordinator).wf(),
            final(coordinator).time_source() == old(coordinator).time_source(),
            self.waited(old(coordinator)@, final(coordinator)@, now, r),
    {
        match consume_if_granted(coordinator, self) {
            Ok(permit) => WaitTurn::Acquired(permit),
            Err(WaitError::Pending) => {
                let (i, found) = coordinator.find(&self.root);
                if !found {
                    return WaitTurn::Park;
                }
                proof {
                    lemma_lookup(coordinator.roots@, i as int);
                }
                let deadline: u64 = coordinator.roots[i].state.playback_hysteresis_until_us;
                if deadline > now {
                    WaitTurn::ParkFor(deadline - now)
                } else {
                    WaitTurn::Park
                }
            },
            Err(error) => WaitTurn::Refused(error),
        }
    }

    /// One turn of waiting for a permit, for a background worker. A worker that slept for a
    /// limited time calls `woken` before its next turn.
    pub fn wait<C: CoordinatorClock>(&self, coordinator: &mut MediaIoCoordinator<C>) -> (r: WaitTurn)
        requires
            old(coordinator).wf(),
        ensures
            final(coordinator).wf(),
            final(coordinator).time_source() == old(coordinator).time_source(),
            exists|now: u64|
                old(coordinator).time_source().shows(now) && #[trigger] self.waited(
                    old(coordinator)@,
                    final(coordinator)@,
                    now,
                    r,
                ),
    {
        let now: u64 = coordinator.clock.now_micros();
        self.wait_at(coordinator, now)
    }

    /// Schedules the root of the request at time `now`.
    pub fn woken_at<C>(&self, coordinator: &mut MediaIoCoordinator<C>, now: u64)
        requires
            old(coordinator).wf(),
        ensures
            final(coordinator).wf(),
            final(coordinator).time_source() == old(coordinator).time_source(),
            final(coordinator)@ == old(coordinator)@.woken(self.root_of(), now),
    {
        let (i, found) = coordinator.find(&self.root);
        if found {
            proof {
                lemma_lookup(coordinator.roots@, i as int);
            }
            coordinator.schedule_at(i, now);
        }
    }
}

fn consume_if_granted<C>(coordinator: &mut MediaIoCoordinator<C>, request: &IoRequest) -> (r: Result<
    IoPermit,
    WaitError,
>)
    requires
        old(coordinator).wf(),
    ensures
        final(coordinator).wf(),
        final(coordinator).time_source() == old(coordinator).time_source(),
        final(coordinator).order() == old(coordinator).order(),
        ({
            let m = old(coordinator)@;
            let id = request.id_of();
            if !m.requests.contains_key(id) {
                r == Err::<IoPermit, WaitError>(WaitError::CoordinatorDropped)
                    && final(coordinator)@ == m
            } else {
                match m.requests[id] {
                    RequestStatus::Pending => r == Err::<IoPermit, WaitError>(WaitError::Pending)
                        && final(coordinator)@ == m,
                    RequestStatus::Cancelled => r == Err::<IoPermit, WaitError>(
                        WaitError::Cancelled,
                    ) && final(coordinator)@ == m,
                    RequestStatus::Consumed => r == Err::<IoPermit, WaitError>(
                        WaitError::AlreadyAcquired,
                    ) && final(coordinator)@ == m,
                    RequestStatus::Granted => {
                        &&& r matches Ok(p) && p.root_of() == request.root_of() && p.class_of()
                            == request.class_of()
                        &&& final(coordinator)@ == m.acquired(id)
                    },
                }
            }
        }),
{
    let status = match coordinator.requests.get(&request.id) {
        Some(status) => *status,
        None => return Err(WaitError::CoordinatorDropped),
    };
    match status {
        RequestStatus::Pending => Err(WaitError::Pending),
        RequestStatus::Cancelled => Err(WaitError::Cancelled),
        RequestStatus::Consumed => Err(WaitError::AlreadyAcquired),
        RequestStatus::Granted => {
            coordinator.requests.insert(request.id, RequestStatus::Consumed);
            proof {
                assert(coordinator@ =~= old(coordinator)@.acquired(request.id_of()));
                assert forall|k: RootKey| #[trigger] coordinator@.roots.contains_key(k) implies
                    coordinator@.roots[k].fits(coordinator@.policy.limits_of(k.kind)) by {
                    assert(old(coordinator)@.roots.contains_key(k));
                }
            }
            Ok(IoPermit { root: request.root.clone(), class: request.class })
        },
    }
}

impl IoPermit {
    pub closed spec fn root_of(&self) -> RootKey {
        self.root@
    }

    pub closed spec fn class_of(&self) -> WorkClass {
        self.class
    }

    pub fn root(&self) -> (r: &RootIdentity)
        ensures
            r@ == self.root_of(),
    {
        &self.root
    }

    pub fn class(&self) -> (r: WorkClass)
        ensures
            r == self.class_of(),
    {
        self.class
    }

    /// Ends the permit at time `now` and hands its capacity on.
    pub fn finish_at<C>(
        self,
        coordinator: &mut MediaIoCoordinator<C>,
        outcome: PermitOutcome,
        now: u64,
    )
        requires
            old(coordinator).wf(),
        ensures
            final(coordinator).wf(),
            final(coordinator).time_source() == old(coordinator).time_source(),
            final(coordinator)@ == old(coordinator)@.released(
                self.root_of(),
                self.class_of(),
                outcome,
                now,
            ),
    {
        coordinator.release_at(&self.root, self.class, outcome, now);
    }

    /// Ends the permit and hands its capacity on.
    pub fn finish<C: CoordinatorClock>(
        self,
        coordinator: &mut MediaIoCoordinator<C>,
        outcome: PermitOutcome,
    )
        requires
            old(coordinator).wf(),
        ensures
            final(coordinator).wf(),
            final(coordinator).time_source() == old(coordinator).time_source(),
            exists|now: u64|
                old(coordinator).time_source().shows(now) && final(coordinator)@
                    == #[trigger] old(coordinator)@.released(
                    self.root_of(),
                    self.class_of(),
                    outcome,
                    now,
                ),
    {
        let now: u64 = coordinator.clock.now_micros();
        self.finish_at(coordinator, outcome, now);
    }
}

impl PlaybackLease {
    pub closed spec fn root_of(&self) -> RootKey {
        self.root@
    }

    /// Ends the playback at time `now`.
    pub fn finish_at<C>(self, coordinator: &mut MediaIoCoordinator<C>, now: u64)
        requires
            old(coordinator).wf(),
        ensures
            final(coordinator).wf(),
            final(coordinator).time_source() == old(coordinator).time_source(),
            final(coordinator)@ == old(coordinator)@.playback_ended(self.root_of(), now),
    {
        coordinator.end_playback_at(&self.root, now);
    }

    /// Ends the playback.
    pub fn finish<C: CoordinatorClock>(self, coordinator: &mut MediaIoCoordinator<C>)
        requires
            old(coordinator).wf(),
        ensures
            final(coordinator).wf(),
            final(coordinator).time_source() == old(coordinator).time_source(),
            exists|now: u64|
                old(coordinator).time_source().shows(now) && final(coordinator)@
                    == #[trigger] old(coordinator)@.playback_ended(
                    self.root_of(),
                    now,
                ),
    {
        let now: u64 = coordinator.clock.now_micros();
        self.finish_at(coordinator, now);
    }
}

/// `best_priority` is the least priority number among the admitted entries, if there is one.
pub proof fn lemma_best_priority(limits: RootLimits, r: RootModel, now: u64, n: nat)
    requires
        n <= r.queue.len(),
    ensures
        match best_priority(limits, r, now, n) {
            Some(p) => {
                &&& exists|i: int|
                    0 <= i < n && #[trigger] admitted(limits, r, now, r.queue[i].class)
                        && r.queue[i].class.place() == p
                &&& forall|i: int|
                    0 <= i < n && #[trigger] admitted(limits, r, now, r.queue[i].class) ==> p
                        <= r.queue[i].class.place()
            },
            None => forall|i: int|
                0 <= i < n ==> !(#[trigger] admitted(limits, r, now, r.queue[i].class)),
        },
    decreases n,
{
    if n > 0 {
        lemma_best_priority(limits, r, now, (n - 1) as nat);
        assert(admitted(limits, r, now, r.queue[n - 1].class) == admitted(
            limits,
            r,
            now,
            r.queue[n - 1].class,
        ));
    }
}

/// The next grant goes to the most urgent admitted work, the earliest of its class first; only
/// when that urgency has used up its run does admitted work of lower urgency come first, and then
/// it always does.
pub proof fn next_grant_is_urgent_or_fair(limits: RootLimits, burst: u32, r: RootModel, now: u64)
    ensures
        match next_entry(limits, burst, r, now) {
            None => forall|j: int|
                0 <= j < r.queue.len() ==> !(#[trigger] admitted(limits, r, now, r.queue[j].class)),
            Some(i) => {
                let p = best_priority(limits, r, now, r.queue.len())->0;
                &&& 0 <= i < r.queue.len()
                &&& admitted(limits, r, now, r.queue[i].class)
                &&& forall|j: int|
                    0 <= j < r.queue.len() && (#[trigger] r.queue[j]).class == r.queue[i].class
                        ==> r.queue[i].sequence <= r.queue[j].sequence
                &&& if run_exhausted(r, burst, p) && exists|j: int|
                    0 <= j < r.queue.len() && #[trigger] admitted(limits, r, now, r.queue[j].class)
                        && r.queue[j].class.place() > p {
                    r.queue[i].class.place() > p
                } else {
                    &&& r.queue[i].class.place() == p
                    &&& forall|j: int|
                        0 <= j < r.queue.len() && #[trigger] admitted(
                            limits,
                            r,
                            now,
                            r.queue[j].class,
                        ) ==> p <= r.queue[j].class.place()
                }
            },
        },
{
    let n = r.queue.len();
    lemma_best_priority(limits, r, now, n);
    match best_priority(limits, r, now, n) {
        None => {},
        Some(p) => {
            let at = at_priority(limits, r, now, p);
            let below = below_priority(limits, r, now, p);
            lemma_earliest(r.queue, at, n);
            lemma_earliest(r.queue, below, n);
            let w = choose|i: int|
                0 <= i < n && #[trigger] admitted(limits, r, now, r.queue[i].class)
                    && r.queue[i].class.place() == p;
            assert(at(r.queue[w]));
            if exists|j: int|
                0 <= j < n && #[trigger] admitted(limits, r, now, r.queue[j].class)
                    && r.queue[j].class.place() > p {
                let j = choose|j: int|
                    0 <= j < n && #[trigger] admitted(limits, r, now, r.queue[j].class)
                        && r.queue[j].class.place() > p;
                assert(below(r.queue[j]));
            }
            let i = next_entry(limits, burst, r, now)->0;
            if run_exhausted(r, burst, p) && earliest(r.queue, below, n) is Some {
                assert(below(r.queue[i]));
                assert(admitted(limits, r, now, r.queue[i].class));
                assert forall|j: int| 0 <= j < n && (#[trigger] r.queue[j]).class
                    == r.queue[i].class implies r.queue[i].sequence <= r.queue[j].sequence by {
                    assert(below(r.queue[j]));
                }
            } else {
                assert(at(r.queue[i]));
                assert(admitted(limits, r, now, r.queue[i].class));
                assert forall|j: int| 0 <= j < n && (#[trigger] r.queue[j]).class
                    == r.queue[i].class implies r.queue[i].sequence <= r.queue[j].sequence by {
                    assert(at(r.queue[j]));
                }
            }
        },
    }
}

/// What scheduling does, whatever the queue holds: the root stays within its limits; neither side
/// takes more than its share beyond what it already had; nothing that the limits admit is left
/// waiting while there is capacity; and only pending requests of the queue change, to granted.
pub proof fn scheduling_obeys_the_limits(
    limits: RootLimits,
    burst: u32,
    r: RootModel,
    requests: Map<u64, RequestStatus>,
    now: u64,
)
    requires
        r.fits(limits),
    ensures
        ({
            let after = grants(limits, burst, r, requests, now);
            let bulk = bulk_limit(limits, r.throttled(now)) as int;
            let interactive = interactive_limit(limits) as int;
            &&& after.0.fits(limits)
            &&& after.0.throttled(now) == r.throttled(now)
            &&& after.0.active_bulk() <= r.active_bulk() || after.0.active_bulk() <= bulk
            &&& after.0.active_interactive() <= r.active_interactive()
                || after.0.active_interactive() <= interactive
            &&& after.0.active_total() == limits.total || forall|j: int|
                0 <= j < after.0.queue.len() ==> !(#[trigger] admitted(
                    limits,
                    after.0,
                    now,
                    after.0.queue[j].class,
                ))
            &&& forall|id: u64| #[trigger]
                after.1.contains_key(id) <==> requests.contains_key(id)
            &&& forall|id: u64| #[trigger]
                after.1.contains_key(id) && after.1[id] != requests[id] ==> {
                    &&& requests[id] == RequestStatus::Pending
                    &&& after.1[id] == RequestStatus::Granted
                    &&& position(r.queue, id) is Some
                }
        }),
    decreases r.queue.len(),
{
    next_grant_is_urgent_or_fair(limits, burst, r, now);
    match next_entry(limits, burst, r, now) {
        Some(i) => if r.active_total() < limits.total {
            let id = r.queue[i].id;
            grant_stays_within_limits(limits, burst, r, now);
            lemma_position(r.queue, i);
            if requests.contains_key(id) && requests[id] == RequestStatus::Pending {
                let g = granted(r, i, now);
                let marked = requests.insert(id, RequestStatus::Granted);
                scheduling_obeys_the_limits(limits, burst, g, marked, now);
                assert forall|x: u64| position(g.queue, x) is Some implies #[trigger] position(
                    r.queue,
                    x,
                ) is Some by {
                    lemma_position_after_removal(r.queue, i, x);
                }
                assert forall|x: u64| #[trigger]
                    grants(limits, burst, r, requests, now).1.contains_key(x) && grants(
                        limits,
                        burst,
                        r,
                        requests,
                        now,
                    ).1[x] != requests[x] implies position(r.queue, x) is Some by {
                    if x != id {
                        assert(marked.contains_key(x));
                        assert(position(g.queue, x) is Some);
                        lemma_position_after_removal(r.queue, i, x);
                    }
                }
            } else {
                let d = discarded(r, i);
                scheduling_obeys_the_limits(limits, burst, d, requests, now);
                assert forall|x: u64| position(d.queue, x) is Some implies #[trigger] position(
                    r.queue,
                    x,
                ) is Some by {
                    lemma_position_after_removal(r.queue, i, x);
                }
            }
        },
        None => {},
    }
}

/// Whether a request of this class can be granted now: a permit is free, and the reservations and
/// the limit during playback leave one to its kind of work.
pub open spec fn can_be_granted(limits: RootLimits, r: RootModel, now: u64, class: WorkClass) -> bool {
    let bulk = if r.throttled(now) && limits.playback_bulk_limit < limits.total
        - limits.interactive_reserved {
        limits.playback_bulk_limit as int
    } else {
        limits.total - limits.interactive_reserved
    };
    &&& r.active_total() < limits.total
    &&& if class.interactive() {
        r.active_interactive() < limits.total - limits.bulk_reserved
    } else {
        r.active_bulk() < bulk
    }
}

/// Whether entry `i` is the one to grant: the oldest of the best class that can be granted; but
/// where the last `burst` grants in a row were of that class and a lower class can be granted, the
/// oldest of all lower classes that can.
pub open spec fn is_due(limits: RootLimits, burst: u32, r: RootModel, now: u64, i: int) -> bool {
    let p = best_priority(limits, r, now, r.queue.len())->0;
    let lower = |e: QueueEntry| can_be_granted(limits, r, now, e.class) && e.class.place() > p;
    &&& 0 <= i < r.queue.len()
    &&& can_be_granted(limits, r, now, r.queue[i].class)
    &&& forall|j: int|
        0 <= j < r.queue.len() && can_be_granted(limits, r, now, (#[trigger] r.queue[j]).class) ==> p
            <= r.queue[j].class.place()
    &&& if r.last_priority == Some(p) && r.priority_streak >= burst && exists|j: int|
        0 <= j < r.queue.len() && lower(#[trigger] r.queue[j]) {
        &&& lower(r.queue[i])
        &&& forall|j: int|
            0 <= j < r.queue.len() && lower(#[trigger] r.queue[j]) ==> r.queue[i].sequence
                <= r.queue[j].sequence
    } else {
        &&& r.queue[i].class.place() == p
        &&& forall|j: int|
            0 <= j < r.queue.len() && (#[trigger] r.queue[j]).class.place() == p
                ==> r.queue[i].sequence <= r.queue[j].sequence
    }
}

/// Scheduling goes on, one request at a time and judging anew each time, until no request that
/// waits can be granted; the one that is due is taken, and granted if it is still pending. How many
/// grants in a row were of one class is counted along.
pub proof fn scheduling_takes_what_is_due(
    limits: RootLimits,
    burst: u32,
    r: RootModel,
    requests: Map<u64, RequestStatus>,
    now: u64,
)
    requires
        r.fits(limits),
    ensures
        ({
            let done = grants(limits, burst, r, requests, now);
            forall|j: int|
                0 <= j < done.0.queue.len() ==> !can_be_granted(
                    limits,
                    done.0,
                    now,
                    (#[trigger] done.0.queue[j]).class,
                )
        }),
        (forall|j: int|
            0 <= j < r.queue.len() ==> !can_be_granted(
                limits,
                r,
                now,
                (#[trigger] r.queue[j]).class,
            )) ==> grants(limits, burst, r, requests, now) == (r, requests),
        (exists|j: int|
            0 <= j < r.queue.len() && can_be_granted(
                limits,
                r,
                now,
                (#[trigger] r.queue[j]).class,
            )) ==> {
            let i = next_entry(limits, burst, r, now)->0;
            let e = r.queue[i];
            let g = granted(r, i, now);
            &&& is_due(limits, burst, r, now, i)
            &&& if requests.contains_key(e.id) && requests[e.id] == RequestStatus::Pending {
                &&& grants(limits, burst, r, requests, now) == grants(
                    limits,
                    burst,
                    g,
                    requests.insert(e.id, RequestStatus::Granted),
                    now,
                )
                &&& g.active[e.class.place()] == r.active[e.class.place()] + 1
                &&& g.last_priority == Some(e.class.place() as u8)
                &&& r.last_priority != g.last_priority ==> g.priority_streak == 1
                &&& r.last_priority == g.last_priority && r.priority_streak < u32::MAX
                    ==> g.priority_streak == r.priority_streak + 1
            } else {
                grants(limits, burst, r, requests, now) == grants(
                    limits,
                    burst,
                    discarded(r, i),
                    requests,
                    now,
                )
            }
        },
{
    let n = r.queue.len();
    let done = grants(limits, burst, r, requests, now);
    scheduling_obeys_the_limits(limits, burst, r, requests, now);
    assert forall|j: int| 0 <= j < done.0.queue.len() implies !can_be_granted(
        limits,
        done.0,
        now,
        (#[trigger] done.0.queue[j]).class,
    ) by {
        if done.0.active_total() < limits.total {
            assert(!admitted(limits, done.0, now, done.0.queue[j].class));
        }
    }
    next_grant_is_urgent_or_fair(limits, burst, r, now);
    lemma_best_priority(limits, r, now, n);
    if r.active_total() < limits.total {
        assert forall|class: WorkClass| #[trigger] can_be_granted(limits, r, now, class) == admitted(
            limits,
            r,
            now,
            class,
        ) by {}
        if exists|j: int|
            0 <= j < n && can_be_granted(limits, r, now, (#[trigger] r.queue[j]).class) {
            let j0 = choose|j: int|
                0 <= j < n && can_be_granted(limits, r, now, (#[trigger] r.queue[j]).class);
            assert(admitted(limits, r, now, r.queue[j0].class));
            let i = next_entry(limits, burst, r, now)->0;
            let p = best_priority(limits, r, now, n)->0;
            let at = at_priority(limits, r, now, p);
            let below = below_priority(limits, r, now, p);
            let lower = |e: QueueEntry|
                can_be_granted(limits, r, now, e.class) && e.class.place() > p;
            lemma_earliest(r.queue, at, n);
            lemma_earliest(r.queue, below, n);
            assert forall|j: int| 0 <= j < n && can_be_granted(
                limits,
                r,
                now,
                (#[trigger] r.queue[j]).class,
            ) implies p <= r.queue[j].class.place() by {
                assert(admitted(limits, r, now, r.queue[j].class));
            }
            assert forall|j: int| 0 <= j < n implies lower(#[trigger] r.queue[j]) == below(
                r.queue[j],
            ) by {
                assert(can_be_granted(limits, r, now, r.queue[j].class) == admitted(
                    limits,
                    r,
                    now,
                    r.queue[j].class,
                ));
            }
            assert(can_be_granted(limits, r, now, r.queue[i].class));
            if run_exhausted(r, burst, p) && earliest(r.queue, below, n) is Some {
                assert(below(r.queue[i]));
                assert(lower(r.queue[i]));
            } else {
                assert(at(r.queue[i]));
                let w = choose|k: int|
                    0 <= k < n && #[trigger] admitted(limits, r, now, r.queue[k].class)
                        && r.queue[k].class.place() == p;
                assert forall|j: int| 0 <= j < n && (#[trigger] r.queue[j]).class.place()
                    == p implies r.queue[i].sequence <= r.queue[j].sequence by {
                    assert(r.queue[j].class == r.queue[w].class);
                    assert(at(r.queue[j]));
                }
            }
            grant_stays_within_limits(limits, burst, r, now);
        }
    }
}

pub proof fn lemma_position(q: Seq<QueueEntry>, i: int)
    requires
        0 <= i < q.len(),
    ensures
        position(q, q[i].id) is Some,
    decreases q.len(),
{
    if i > 0 {
        lemma_position(q.drop_first(), i - 1);
    }
}

pub proof fn lemma_position_found(q: Seq<QueueEntry>, id: u64)
    ensures
        position(q, id) matches Some(i) ==> 0 <= i < q.len() && q[i].id == id,
    decreases q.len(),
{
    if q.len() > 0 {
        lemma_position_found(q.drop_first(), id);
    }
}

proof fn lemma_position_after_removal(q: Seq<QueueEntry>, i: int, id: u64)
    requires
        0 <= i < q.len(),
    ensures
        position(q.remove(i), id) is Some ==> position(q, id) is Some,
{
    lemma_position_found(q.remove(i), id);
    if position(q.remove(i), id) is Some {
        let j = position(q.remove(i), id)->0;
        if j < i {
            lemma_position(q, j);
        } else {
            lemma_position(q, j + 1);
        }
    }
}

/// Whatever the coordinator has done, the interactive work of a root leaves the capacity that is
/// reserved for bulk work, the bulk work what is reserved for interactive work, and both together
/// stay within the total.
pub proof fn reservations_hold(m: CoordinatorModel, k: RootKey)
    requires
        m.policy.is_sane(),
        m.within_limits(),
        m.roots.contains_key(k),
    ensures
        ({
            let limits = m.policy.limits_of(k.kind);
            let r = m.roots[k];
            &&& r.active_total() <= limits.total
            &&& r.active_interactive() + limits.bulk_reserved <= limits.total
            &&& r.active_bulk() + limits.interactive_reserved <= limits.total
        }),
{
    let limits = m.policy.limits_of(k.kind);
    assert(m.roots[k].fits(limits));
    both_sides_keep_a_lane(limits, false);
}

/// Sane limits leave room for both sides: at least one bulk request, also under playback, and at
/// least one interactive request.
pub proof fn both_sides_keep_a_lane(limits: RootLimits, throttled: bool)
    requires
        limits.is_sane(),
    ensures
        bulk_limit(limits, throttled) >= 1,
        interactive_limit(limits) >= 1,
        bulk_limit(limits, throttled) + limits.interactive_reserved <= limits.total,
        interactive_limit(limits) + limits.bulk_reserved == limits.total,
{
}

/// Whoever waits when the coordinator has ended is refused for that reason.
pub proof fn shutdown_refuses_everyone(
    request: IoRequest,
    m: CoordinatorModel,
    after: CoordinatorModel,
    now: u64,
    r: WaitTurn,
)
    requires
        m.requests == Map::<u64, RequestStatus>::empty(),
        request.waited(m, after, now, r),
    ensures
        r == WaitTurn::Refused(WaitError::CoordinatorDropped),
{
}

/// Whoever waits for a request that was cancelled is refused for that reason.
pub proof fn cancelled_requests_are_refused(
    request: IoRequest,
    m: CoordinatorModel,
    after: CoordinatorModel,
    now: u64,
    r: WaitTurn,
)
    requires
        m.requests.contains_key(request.id_of()),
        m.requests[request.id_of()] == RequestStatus::Cancelled,
        request.waited(m, after, now, r),
    ensures
        r == WaitTurn::Refused(WaitError::Cancelled),
{
}

/// Roots and generations have independent capacity: what happens on one root leaves every other
/// root as it was.
pub proof fn roots_are_independent(
    m: CoordinatorModel,
    k: RootKey,
    other: RootKey,
    class: WorkClass,
    outcome: PermitOutcome,
    id: u64,
    now: u64,
)
    requires
        k != other,
        m.roots.contains_key(other),
    ensures
        m.enqueued(k, class, now).roots[other] == m.roots[other],
        m.playback_begun(k, now).roots[other] == m.roots[other],
        m.playback_ended(k, now).roots[other] == m.roots[other],
        m.released(k, class, outcome, now).roots[other] == m.roots[other],
        m.cancelled(k, id, class, now).roots[other] == m.roots[other],
{
}

/// A cancelled request stays cancelled and never holds capacity: it is neither pending nor
/// granted afterwards.
pub proof fn cancellation_is_final(
    m: CoordinatorModel,
    k: RootKey,
    id: u64,
    class: WorkClass,
    now: u64,
)
    requires
        m.cancellable(k, id),
        m.policy.is_sane(),
        m.within_limits(),
    ensures
        m.cancelled(k, id, class, now).requests.contains_key(id),
        m.cancelled(k, id, class, now).requests[id] == RequestStatus::Cancelled,
        !m.cancelled(k, id, class, now).cancellable(k, id),
{
    let r = m.roots[k];
    let limits = m.policy.limits_of(k.kind);
    assert(r.fits(limits));
    let c = class.place();
    let marked = m.requests.insert(id, RequestStatus::Cancelled);
    let after = if m.requests[id] == RequestStatus::Pending {
        let s = r.stats[c];
        RootModel {
            queue: r.queue.remove(position(r.queue, id)->0),
            stats: r.stats.update(
                c,
                ClassStats {
                    cancelled: sat(s.cancelled, 1),
                    release_outcomes: s.release_outcomes.counted(PermitOutcome::Cancelled),
                    ..s
                },
            ),
            ..r
        }
    } else {
        let f = freed(r, class, PermitOutcome::Cancelled);
        let s = f.stats[c];
        RootModel {
            stats: f.stats.update(c, ClassStats { cancelled: sat(s.cancelled, 1), ..s }),
            ..f
        }
    };
    let sw = swept(after, marked);
    scheduling_obeys_the_limits(limits, m.policy.priority_burst, sw, marked, now);
    assert(grants(limits, m.policy.priority_burst, sw, marked, now).1.contains_key(id));
}

/// The first request on an unused root is granted at once, whatever its class.
pub proof fn first_request_is_granted(m: CoordinatorModel, k: RootKey, class: WorkClass, now: u64)
    requires
        m.policy.is_sane(),
        !m.roots.contains_key(k),
    ensures
        ({
            let after = m.enqueued(k, class, now);
            &&& after.requests.contains_key(m.next_request_id)
            &&& after.requests[m.next_request_id] == RequestStatus::Granted
            &&& after.roots[k].queue == Seq::<QueueEntry>::empty()
            &&& after.roots[k].active_total() == 1
        }),
{
    let limits = m.policy.limits_of(k.kind);
    let burst = m.policy.priority_burst;
    let c = class.place();
    let e = QueueEntry {
        id: m.next_request_id,
        sequence: m.next_sequence,
        class,
        enqueued_us: now,
    };
    let f = fresh_root();
    let q = f.queue.push(e);
    let joined = RootModel { queue: q, ..f };
    let s = f.stats[c];
    let r = RootModel {
        stats: f.stats.update(
            c,
            ClassStats {
                enqueued: sat(s.enqueued, 1),
                max_queued: if joined.queued(class) > s.max_queued {
                    joined.queued(class) as usize
                } else {
                    s.max_queued
                },
                ..s
            },
        ),
        ..joined
    };
    let reqs = m.requests.insert(m.next_request_id, RequestStatus::Pending);
    let ok = |x: QueueEntry| reqs.contains_key(x.id);
    reveal_with_fuel(Seq::filter, 2);
    assert(q.drop_last() =~= f.queue);
    assert(q.filter(ok) =~= q);
    let sw = swept(r, reqs);
    assert(sw =~= r);
    assert(admitted(limits, r, now, class));
    reveal_with_fuel(best_priority, 2);
    reveal_with_fuel(earliest, 2);
    assert(q[0] == e);
    assert(best_priority(limits, r, now, 1) == Some(c as u8));
    assert(r.queue.len() == 1);
    assert(earliest(r.queue, at_priority(limits, r, now, c as u8), 1) == Some(0int));
    assert(next_entry(limits, burst, r, now) == Some(0int));
    let g = granted(r, 0, now);
    assert(g.queue =~= Seq::<QueueEntry>::empty());
    assert(best_priority(limits, g, now, 0) is None);
    assert(next_entry(limits, burst, g, now) is None);
    reveal_with_fuel(grants, 2);
}

/// Throttling ends only after the last lease, and then lasts for the configured hysteresis.
pub proof fn throttle_expires_after_hysteresis(m: CoordinatorModel, k: RootKey, now: u64, later: u64)
    requires
        m.policy.is_sane(),
        m.within_limits(),
        m.roots.contains_key(k),
        m.roots[k].playback_leases > 0,
    ensures
        ({
            let after = m.playback_ended(k, now).roots[k];
            &&& m.roots[k].playback_leases > 1 ==> after.throttled(later)
            &&& m.roots[k].playback_leases == 1 ==> (after.throttled(later) <==> later < sat(
                now,
                m.policy.playback_hysteresis_us,
            ))
        }),
{
    let limits = m.policy.limits_of(k.kind);
    let r = m.roots[k];
    assert(r.fits(limits));
    let leases = (r.playback_leases - 1) as usize;
    let ended = RootModel {
        playback_leases: leases,
        playback_hysteresis_until_us: if leases == 0 {
            sat(now, m.policy.playback_hysteresis_us)
        } else {
            r.playback_hysteresis_until_us
        },
        ..r
    };
    lemma_playback_untouched(limits, m.policy.priority_burst, swept(ended, m.requests), m.requests, now);
}

proof fn lemma_playback_untouched(
    limits: RootLimits,
    burst: u32,
    r: RootModel,
    requests: Map<u64, RequestStatus>,
    now: u64,
)
    ensures
        grants(limits, burst, r, requests, now).0.playback_leases == r.playback_leases,
        grants(limits, burst, r, requests, now).0.playback_hysteresis_until_us
            == r.playback_hysteresis_until_us,
    decreases r.queue.len(),
{
    match next_entry(limits, burst, r, now) {
        Some(i) => if r.active_total() < limits.total && 0 <= i < r.queue.len() {
            let id = r.queue[i].id;
            if requests.contains_key(id) && requests[id] == RequestStatus::Pending {
                lemma_playback_untouched(
                    limits,
                    burst,
                    granted(r, i, now),
                    requests.insert(id, RequestStatus::Granted),
                    now,
                );
            } else {
                lemma_playback_untouched(limits, burst, discarded(r, i), requests, now);
            }
        },
        None => {},
    }
}

} // verus!
