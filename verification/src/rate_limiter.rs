//! Bandwidth limits: one pair of limiters for each tunnel, shared by its connections, and what a
//! limiter's verdict means for a transfer.
use crate::jitter::{law_request_fits, low_half, request, request_size, xorshift, JitterState};
use governor::clock::{Clock, DefaultClock};
use std::collections::HashMap;
use std::sync::Arc;
use vstd::prelude::*;

verus! {

/// The number of bytes in a MiB.
pub const MIB: u64 = 1048576;

/// How long to wait, in nanoseconds, where a limiter can never let a request through.
pub const RETRY_NANOS: u64 = 10_000_000;

/// How fast a direction may be: bytes per second, and bytes at once.
#[derive(Debug, Clone, Copy, PartialEq, Eq, Structural)]
pub struct Quota {
    pub per_second: u32,
    pub burst: u32,
}

/// `n`, or 1 where it is 0.
pub open spec fn at_least_one(n: int) -> int {
    if n < 1 {
        1
    } else {
        n
    }
}

/// `n`, or the largest 32-bit number where it is above that.
pub open spec fn at_most_u32(n: int) -> int {
    if n > u32::MAX {
        u32::MAX as int
    } else {
        n
    }
}

/// The quota of `m` MiB per second: that many bytes, and a burst of six fifths of it. Either is at
/// least 1, and at most the largest 32-bit number.
pub open spec fn quota_of(m: u16) -> Quota {
    let bytes = m * MIB;
    Quota {
        per_second: at_least_one(at_most_u32(bytes)) as u32,
        burst: at_least_one(at_most_u32(bytes * 6 / 5)) as u32,
    }
}

/// A number of bytes as a limiter takes it: at least 1, and at most the largest 32-bit number.
fn limiter_count(n: u64) -> (r: u32)
    ensures
        r as int == at_least_one(at_most_u32(n as int)),
        r > 0,
{
    if n > 0xFFFF_FFFF {
        0xFFFF_FFFF
    } else if n < 1 {
        1
    } else {
        n as u32
    }
}

/// The quota of `m` MiB per second.
pub fn quota(m: u16) -> (r: Quota)
    ensures
        r == quota_of(m),
        r.per_second > 0,
        r.burst > 0,
{
    let bytes: u64 = m as u64 * MIB;
    Quota { per_second: limiter_count(bytes), burst: limiter_count(bytes * 6 / 5) }
}

/// A budget that fills up at a rate. It cannot be copied, so each one belongs to a single
/// [`Limiter`].
#[verifier::external_body]
pub struct Bucket {
    inner: governor::DefaultDirectRateLimiter,
}

/// The quota that a bucket was made with.
pub uninterp spec fn bucket_quota(bucket: Bucket) -> Quota;

/// Makes a bucket.
///
/// Trusted: `governor::RateLimiter::direct` makes a limiter with the rate and the burst size that it
/// is given by `Quota::per_second` and `Quota::allow_burst`. It counts a byte as a whole number of
/// nanoseconds, and as one at least; how near that comes to the rate is left unsaid.
#[verifier::external_body]
fn new_bucket(quota: Quota) -> (r: Bucket)
    requires
        quota.per_second > 0,
        quota.burst > 0,
    ensures
        bucket_quota(r) == quota,
{
    let rate = std::num::NonZeroU32::new(quota.per_second).unwrap();
    let burst = std::num::NonZeroU32::new(quota.burst).unwrap();
    Bucket {
        inner: governor::RateLimiter::direct(governor::Quota::per_second(rate).allow_burst(burst)),
    }
}

/// What a limiter says of a request.
#[derive(Debug, Clone, Copy, PartialEq, Eq, Structural)]
pub enum Verdict {
    /// The request may pass now.
    Pass,
    /// The request may pass after this many nanoseconds.
    NotBefore(u64),
    /// The request is larger than the limiter's burst size.
    TooLarge,
}

/// Asks a bucket for `n` bytes.
///
/// Trusted: `governor::RateLimiter::check_n` reports insufficient capacity for exactly the requests
/// above the burst size. Whether a smaller request may pass now, and how long it has to wait if not
/// (`NotUntil::wait_time_from` the present), depends on the clock and on what passed before, and is
/// left unsaid.
#[verifier::external_body]
fn check_n(bucket: &Bucket, n: u32) -> (r: Verdict)
    requires
        n > 0,
    ensures
        r is TooLarge <==> n > bucket_quota(*bucket).burst,
{
    match bucket.inner.check_n(std::num::NonZeroU32::new(n).unwrap()) {
        Ok(Ok(())) => Verdict::Pass,
        Ok(Err(not_until)) => {
            Verdict::NotBefore(not_until.wait_time_from(DefaultClock::default().now()).as_nanos() as u64)
        },
        Err(_) => Verdict::TooLarge,
    }
}

/// A limiter of one direction of one tunnel: a bucket of its own, with the tunnel and the direction
/// that it belongs to.
pub struct Limiter {
    tunnel: u128,
    reads: bool,
    bucket: Bucket,
}

impl Limiter {
    /// The tunnel that the limiter belongs to.
    pub closed spec fn tunnel(&self) -> u128 {
        self.tunnel
    }

    /// Whether the limiter belongs to what is read from the tunnel, rather than to what is written.
    pub closed spec fn reads(&self) -> bool {
        self.reads
    }

    /// The quota that the limiter was made with.
    pub closed spec fn quota(&self) -> Quota {
        bucket_quota(self.bucket)
    }

    /// Makes a limiter with a bucket of its own.
    fn new(tunnel: u128, reads: bool, quota: Quota) -> (r: Limiter)
        requires
            quota.per_second > 0,
            quota.burst > 0,
        ensures
            r.tunnel() == tunnel,
            r.reads() == reads,
            r.quota() == quota,
    {
        Limiter { tunnel, reads, bucket: new_bucket(quota) }
    }

    /// Asks the limiter to let `n` bytes through.
    fn check(&self, n: u32) -> (r: Verdict)
        requires
            n > 0,
        ensures
            r is TooLarge <==> n > self.quota().burst,
    {
        check_n(&self.bucket, n)
    }
}

// --- Transfers ---

/// What a stream does when it is asked to move bytes.
#[derive(Debug, Clone, Copy, PartialEq, Eq, Structural)]
pub enum PollPlan {
    /// It goes on sleeping.
    Sleeping,
    /// It sleeps for this many nanoseconds.
    Wait { nanos: u64 },
    /// It moves up to this many bytes.
    Transfer { n: u32 },
}

/// What a verdict on a request of `n` bytes means: the request goes ahead, or waits for as long as
/// the limiter says, or for a short while where the limiter will never let it through.
pub open spec fn plan_for(verdict: Verdict, n: u32) -> PollPlan {
    match verdict {
        Verdict::Pass => PollPlan::Transfer { n },
        Verdict::NotBefore(nanos) => PollPlan::Wait { nanos },
        Verdict::TooLarge => PollPlan::Wait { nanos: RETRY_NANOS },
    }
}

/// What a limiter may say of a request of `n` bytes, whatever the time: that it is too large exactly if
/// it is larger than the burst size, and otherwise that it may pass, or when it may.
pub open spec fn may_say(limiter: Limiter, n: int, verdict: Verdict) -> bool {
    verdict is TooLarge <==> n > limiter.quota().burst
}

/// What may come of a request of `n` bytes that a limiter is asked for: what a verdict means that the
/// limiter may give.
pub open spec fn may_come_of(limiter: Limiter, n: int, plan: PollPlan) -> bool {
    exists|v: Verdict| #[trigger] may_say(limiter, n, v) && plan == plan_for(v, n as u32)
}

/// What may come of a request of `n` bytes, whatever the time. Without a limiter it goes ahead, and with
/// one what comes of it is what the limiter's verdict means.
pub open spec fn may_do(limiter: Option<Arc<Limiter>>, n: int, plan: PollPlan) -> bool {
    match limiter {
        None => plan == (PollPlan::Transfer { n: n as u32 }),
        Some(l) => may_come_of(*l, n, plan),
    }
}

/// Turns a verdict on a request of `n` bytes into what the stream does.
pub fn follow(verdict: Verdict, n: u32) -> (r: PollPlan)
    ensures
        r == plan_for(verdict, n),
        verdict is Pass <==> r == (PollPlan::Transfer { n }),
        verdict matches Verdict::NotBefore(nanos) ==> r == (PollPlan::Wait { nanos }),
        verdict is TooLarge ==> r == (PollPlan::Wait { nanos: RETRY_NANOS }),
{
    match verdict {
        Verdict::Pass => PollPlan::Transfer { n },
        Verdict::NotBefore(nanos) => PollPlan::Wait { nanos },
        Verdict::TooLarge => PollPlan::Wait { nanos: RETRY_NANOS },
    }
}

/// Asks `ask` for a jittered chunk of `remaining` bytes, once, and does what its verdict means.
pub fn poll_with<F: Fn(u32) -> Verdict>(
    remaining: usize,
    jitter: &mut JitterState,
    ask: F,
) -> (r: PollPlan)
    requires
        remaining as int % 0x1_0000_0000 != 0,
        forall|n: u32| n > 0 ==> #[trigger] call_requires(ask, (n,)),
    ensures
        final(jitter).cur == xorshift(old(jitter).cur),
        ({
            let n = request(remaining as int, low_half(final(jitter).cur)) as u32;
            exists|v: Verdict| #[trigger] call_ensures(ask, (n,), v) && r == plan_for(v, n)
        }),
{
    let n: u32 = request_size(remaining, jitter);
    proof {
        law_request_fits(remaining as int, low_half(jitter.cur));
    }
    let verdict = ask(n);
    let plan = follow(verdict, n);
    proof {
        let asked = request(remaining as int, low_half(jitter.cur)) as u32;
        assert(asked == n);
        assert(call_ensures(ask, (asked,), verdict) && plan == plan_for(verdict, asked));
    }
    plan
}

/// Decides what a stream does that has room for `remaining` bytes, or has that many to write. One
/// that still sleeps goes on sleeping and asks nothing. One without a limiter moves a jittered chunk.
/// One with a limiter asks it for that chunk, and does what its verdict means; there it has to have
/// something to ask for.
pub fn plan_poll(
    still_sleeping: bool,
    limiter: &Option<Arc<Limiter>>,
    remaining: usize,
    jitter: &mut JitterState,
) -> (r: PollPlan)
    requires
        !still_sleeping && limiter is Some ==> remaining as int % 0x1_0000_0000 != 0,
    ensures
        still_sleeping ==> r == PollPlan::Sleeping && *final(jitter) == *old(jitter),
        !still_sleeping ==> {
            &&& final(jitter).cur == xorshift(old(jitter).cur)
            &&& may_do(
                *limiter,
                request(remaining as int, low_half(final(jitter).cur)),
                r,
            )
        },
{
    if still_sleeping {
        return PollPlan::Sleeping;
    }
    match limiter {
        None => PollPlan::Transfer { n: request_size(remaining, jitter) },
        Some(l) => {
            let ask = |n: u32| -> (v: Verdict)
                requires
                    n > 0,
                ensures
                    may_say(**l, n as int, v),
                { l.check(n) };
            let plan = poll_with(remaining, jitter, ask);
            proof {
                let asked = request(remaining as int, low_half(jitter.cur));
                law_request_fits(remaining as int, low_half(jitter.cur));
                let v = choose|v: Verdict| #[trigger]
                    call_ensures(ask, (asked as u32,), v) && plan == plan_for(v, asked as u32);
                assert(may_say(**l, asked, v));
            }
            plan
        },
    }
}

// --- Pool ---

/// The limiters of a tunnel.
struct DirectionalLimiters {
    read: Option<Arc<Limiter>>,
    write: Option<Arc<Limiter>>,
}

/// The limiters of a tunnel: of what is read, and of what is written.
pub ghost struct LimitersView {
    pub read: Option<Arc<Limiter>>,
    pub write: Option<Arc<Limiter>>,
}

/// The limiters of each tunnel.
spec fn by_tunnel(limiters: Map<u128, DirectionalLimiters>) -> Map<u128, LimitersView> {
    limiters.map_values(|d: DirectionalLimiters| LimitersView { read: d.read, write: d.write })
}

/// One pair of limiters for each tunnel, so that all connections of a tunnel share its bandwidth.
/// The two directions, read for upload and write for download, are limited apart from each other.
pub struct RateLimiterPool {
    limiters: HashMap<u128, DirectionalLimiters>,
}

impl View for RateLimiterPool {
    type V = Map<u128, LimitersView>;

    closed spec fn view(&self) -> Map<u128, LimitersView> {
        by_tunnel(self.limiters@)
    }
}

/// A reader under a limiter.
pub struct RateLimitedRead<R> {
    pub inner: R,
    pub limiter: Option<Arc<Limiter>>,
}

/// A writer under a limiter.
pub struct RateLimitedWrite<W> {
    pub inner: W,
    pub limiter: Option<Arc<Limiter>>,
}

/// Whether a limiter is what a setting in MiB per second asks for: none for no setting, and one of
/// the setting's quota otherwise.
pub open spec fn limits_to(limiter: Option<Arc<Limiter>>, m: Option<u16>) -> bool {
    match (limiter, m) {
        (None, None) => true,
        (Some(l), Some(v)) => l.quota() == quota_of(v),
        _ => false,
    }
}

/// Whether limiters belong to tunnel `id`, each to its own direction.
pub open spec fn owned_by(limiters: LimitersView, id: u128) -> bool {
    &&& limiters.read matches Some(l) ==> l.tunnel() == id && l.reads()
    &&& limiters.write matches Some(l) ==> l.tunnel() == id && !l.reads()
}

/// Whether every tunnel of a pool has limiters of its own.
pub open spec fn each_its_own(pool: Map<u128, LimitersView>) -> bool {
    forall|id: u128| #[trigger] pool.contains_key(id) ==> owned_by(pool[id], id)
}

/// What a connection to tunnel `id` makes of a pool, and the limiters that it gets: those that the
/// tunnel has, or, where the tunnel has none yet, new ones of its own by its settings. The upload
/// setting holds for what is read, and the download setting for what is written.
pub open spec fn joins(
    before: Map<u128, LimitersView>,
    after: Map<u128, LimitersView>,
    id: u128,
    upload_m: Option<u16>,
    download_m: Option<u16>,
    got: LimitersView,
) -> bool {
    if before.contains_key(id) {
        after == before && got == before[id]
    } else {
        &&& after == before.insert(id, got)
        &&& limits_to(got.read, upload_m)
        &&& limits_to(got.write, download_m)
        &&& owned_by(got, id)
    }
}

/// Makes the limiter that a setting asks for, for one direction of a tunnel.
fn build_limiter(tunnel: u128, reads: bool, m: Option<u16>) -> (r: Option<Arc<Limiter>>)
    ensures
        limits_to(r, m),
        r matches Some(l) ==> l.tunnel() == tunnel && l.reads() == reads,
{
    match m {
        None => None,
        Some(v) => Some(Arc::new(Limiter::new(tunnel, reads, quota(v)))),
    }
}

/// Another handle on the same limiter.
fn share(limiter: &Option<Arc<Limiter>>) -> (r: Option<Arc<Limiter>>)
    ensures
        r == *limiter,
{
    match limiter {
        None => None,
        Some(l) => Some(l.clone()),
    }
}

impl RateLimiterPool {
    /// Every tunnel has limiters of its own, one for each direction.
    #[verifier::type_invariant]
    spec fn inv(self) -> bool {
        each_its_own(self@)
    }

    /// A pool without tunnels.
    pub fn new() -> (r: RateLimiterPool)
        ensures
            r@ == Map::<u128, LimitersView>::empty(),
    {
        let r = RateLimiterPool { limiters: HashMap::new() };
        assert(r@ =~= Map::empty());
        r
    }

    /// Puts a connection's reader and writer under the limiters of tunnel `tunnel_id`. The settings
    /// are in MiB per second, that of uploads for the reader and that of downloads for the writer, and
    /// hold if the tunnel has no limiters yet.
    pub fn wrap<R, W>(
        &mut self,
        tunnel_id: u128,
        upload_m: Option<u16>,
        download_m: Option<u16>,
        reader: R,
        writer: W,
    ) -> (r: (RateLimitedRead<R>, RateLimitedWrite<W>))
        ensures
            joins(
                old(self)@,
                final(self)@,
                tunnel_id,
                upload_m,
                download_m,
                (LimitersView { read: r.0.limiter, write: r.1.limiter }),
            ),
            owned_by((LimitersView { read: r.0.limiter, write: r.1.limiter }), tunnel_id),
            r.0.inner == reader,
            r.1.inner == writer,
    {
        proof {
            use_type_invariant(&*self);
        }
        broadcast use vstd::std_specs::hash::group_hash_axioms;

        if let Some(d) = self.limiters.get(&tunnel_id) {
            return (
                RateLimitedRead { inner: reader, limiter: share(&d.read) },
                RateLimitedWrite { inner: writer, limiter: share(&d.write) },
            );
        }
        let read = build_limiter(tunnel_id, true, upload_m);
        let write = build_limiter(tunnel_id, false, download_m);
        let d = DirectionalLimiters { read: share(&read), write: share(&write) };
        let mut limiters = HashMap::new();
        std::mem::swap(&mut limiters, &mut self.limiters);
        limiters.insert(tunnel_id, d);
        assert(by_tunnel(limiters@) =~= old(self)@.insert(tunnel_id, LimitersView { read, write }));
        self.limiters = limiters;
        (
            RateLimitedRead { inner: reader, limiter: read },
            RateLimitedWrite { inner: writer, limiter: write },
        )
    }
}

// --- Laws ---

/// A connection to a tunnel, with its settings and the limiters that it got.
pub ghost struct Connection {
    pub id: u128,
    pub upload_m: Option<u16>,
    pub download_m: Option<u16>,
    pub got: LimitersView,
}

/// Whether connection `k` takes a pool from its state `k` to the next one.
pub open spec fn joins_at(
    pools: Seq<Map<u128, LimitersView>>,
    connections: Seq<Connection>,
    k: int,
) -> bool {
    let c = connections[k];
    joins(pools[k], pools[k + 1], c.id, c.upload_m, c.download_m, c.got)
}

/// Whether a pool goes through the states `pools` as `connections` come one after the other.
pub open spec fn is_history(
    pools: Seq<Map<u128, LimitersView>>,
    connections: Seq<Connection>,
) -> bool {
    &&& pools.len() == connections.len() + 1
    &&& forall|k: int| 0 <= k < connections.len() ==> #[trigger] joins_at(pools, connections, k)
}

proof fn lemma_pool_keeps(
    pools: Seq<Map<u128, LimitersView>>,
    connections: Seq<Connection>,
    i: int,
    k: int,
)
    requires
        is_history(pools, connections),
        0 <= i < k <= connections.len(),
    ensures
        pools[k].contains_key(connections[i].id),
        pools[k][connections[i].id] == connections[i].got,
    decreases k,
{
    assert(joins_at(pools, connections, k - 1));
    if i < k - 1 {
        lemma_pool_keeps(pools, connections, i, k - 1);
    }
}

/// All connections of a tunnel share the limiters that the first one brought, whatever settings the
/// later ones come with, and whatever connections come in between.
pub proof fn law_tunnel_shares_limiters(
    pools: Seq<Map<u128, LimitersView>>,
    connections: Seq<Connection>,
    i: int,
    j: int,
)
    requires
        is_history(pools, connections),
        0 <= i <= j < connections.len(),
        connections[i].id == connections[j].id,
    ensures
        connections[j].got == connections[i].got,
{
    if i < j {
        lemma_pool_keeps(pools, connections, i, j);
        assert(joins_at(pools, connections, j));
    }
}

/// A connection leaves the limiters of other tunnels as they are.
pub proof fn law_other_limiters_untouched(
    before: Map<u128, LimitersView>,
    after: Map<u128, LimitersView>,
    id: u128,
    other: u128,
    upload_m: Option<u16>,
    download_m: Option<u16>,
    got: LimitersView,
)
    requires
        joins(before, after, id, upload_m, download_m, got),
        other != id,
    ensures
        after.contains_key(other) == before.contains_key(other),
        after.contains_key(other) ==> after[other] == before[other],
{
}

/// A pool in which every tunnel has limiters of its own stays so, and so does what a connection
/// gets.
pub proof fn law_pool_stays_apart(
    before: Map<u128, LimitersView>,
    after: Map<u128, LimitersView>,
    id: u128,
    upload_m: Option<u16>,
    download_m: Option<u16>,
    got: LimitersView,
)
    requires
        each_its_own(before),
        joins(before, after, id, upload_m, download_m, got),
    ensures
        each_its_own(after),
        owned_by(got, id),
{
}

/// Whether two streams draw on one limiter.
pub open spec fn same_limiter(a: Option<Arc<Limiter>>, b: Option<Arc<Limiter>>) -> bool {
    a is Some && a == b
}

proof fn lemma_connection_owns(
    pools: Seq<Map<u128, LimitersView>>,
    connections: Seq<Connection>,
    i: int,
)
    requires
        is_history(pools, connections),
        each_its_own(pools[0]),
        0 <= i < connections.len(),
    ensures
        each_its_own(pools[i]),
        owned_by(connections[i].got, connections[i].id),
    decreases i,
{
    if i > 0 {
        lemma_connection_owns(pools, connections, i - 1);
        assert(joins_at(pools, connections, i - 1));
    }
    assert(joins_at(pools, connections, i));
}

/// No limiter serves two directions, and none serves two tunnels: of any two connections, or of one
/// with itself, the reader of either and the writer of the other have different limiters, and where
/// the tunnels differ so have the two readers and the two writers.
pub proof fn law_limiters_apart(
    pools: Seq<Map<u128, LimitersView>>,
    connections: Seq<Connection>,
    i: int,
    j: int,
)
    requires
        is_history(pools, connections),
        each_its_own(pools[0]),
        0 <= i < connections.len(),
        0 <= j < connections.len(),
    ensures
        !same_limiter(connections[i].got.read, connections[j].got.write),
        connections[i].id != connections[j].id ==> {
            &&& !same_limiter(connections[i].got.read, connections[j].got.read)
            &&& !same_limiter(connections[i].got.write, connections[j].got.write)
        },
{
    lemma_connection_owns(pools, connections, i);
    lemma_connection_owns(pools, connections, j);
}

/// A setting is kept exactly, with a burst of a fifth more, rounded down, as far as 32 bits hold
/// either; beyond that it is the largest 32-bit number.
pub proof fn law_quota_exact(m: u16)
    requires
        m > 0,
    ensures
        m * MIB <= u32::MAX ==> quota_of(m).per_second == m * MIB,
        m * MIB > u32::MAX ==> quota_of(m).per_second == u32::MAX,
        m * MIB * 6 / 5 <= u32::MAX ==> quota_of(m).burst == m * MIB * 6 / 5,
        m * MIB * 6 / 5 > u32::MAX ==> quota_of(m).burst == u32::MAX,
{
}

/// A verdict is followed to the letter, for a request of any size: the request goes ahead, with all its
/// bytes, exactly if the limiter lets it pass; it waits exactly as long as the limiter says where the
/// limiter says how long; and it waits ten milliseconds where it is too large.
pub proof fn law_verdict_is_followed(verdict: Verdict, n: u32, nanos: u64)
    ensures
        plan_for(verdict, n) is Transfer <==> verdict is Pass,
        verdict is Pass ==> plan_for(verdict, n)->n == n,
        plan_for(Verdict::NotBefore(nanos), n) == (PollPlan::Wait { nanos }),
        plan_for(Verdict::TooLarge, n) == (PollPlan::Wait { nanos: 10_000_000 }),
        !(plan_for(verdict, n) is Sleeping),
{
}

/// What a stream does with a request of `n` bytes: without a limiter it moves them. With one it never
/// moves another number of bytes, and never more than a burst; it waits ten milliseconds for more than
/// a burst; and each of the two, to move them and to wait for any time, can come of a smaller request.
pub proof fn law_stream_moves_what_it_asked_for(
    limiter: Arc<Limiter>,
    n: u32,
    plan: PollPlan,
    nanos: u64,
)
    ensures
        may_do(None, n as int, plan) <==> plan == (PollPlan::Transfer { n }),
        may_do(Some(limiter), n as int, plan) && plan is Transfer ==> plan->n == n && n
            <= limiter.quota().burst,
        may_do(Some(limiter), n as int, plan) && n > limiter.quota().burst ==> plan
            == (PollPlan::Wait { nanos: 10_000_000 }),
        !may_do(Some(limiter), n as int, PollPlan::Sleeping),
        n <= limiter.quota().burst ==> may_do(
            Some(limiter),
            n as int,
            PollPlan::Transfer { n },
        ) && may_do(Some(limiter), n as int, PollPlan::Wait { nanos }),
{
    if n <= limiter.quota().burst {
        let (pass, later) = (Verdict::Pass, Verdict::NotBefore(nanos));
        let asked = n as int;
        assert(may_say(*limiter, asked, pass) && plan_for(pass, asked as u32)
            == (PollPlan::Transfer { n }));
        assert(may_come_of(*limiter, asked, PollPlan::Transfer { n }));
        assert(may_say(*limiter, asked, later) && plan_for(later, asked as u32)
            == (PollPlan::Wait { nanos }));
        assert(may_come_of(*limiter, asked, PollPlan::Wait { nanos }));
    }
}

/// A new tunnel is limited by its settings: what is read by the upload setting and what is written by
/// the download setting, and neither where there is no setting. The rate is the setting in MiB per second
/// and the burst a fifth more, each at least 1 byte and at most what 32 bits hold.
pub proof fn law_new_tunnel_is_limited_by_its_settings(
    before: Map<u128, LimitersView>,
    after: Map<u128, LimitersView>,
    id: u128,
    upload_m: Option<u16>,
    download_m: Option<u16>,
    got: LimitersView,
    m: u16,
)
    requires
        !before.contains_key(id),
        joins(before, after, id, upload_m, download_m, got),
    ensures
        after.contains_key(id) && after[id] == got,
        got.read is Some <==> upload_m is Some,
        got.write is Some <==> download_m is Some,
        upload_m == Some(m) && 0 < m < 4096 ==> got.read->0.quota().per_second == m * 1048576,
        download_m == Some(m) && 0 < m < 4096 ==> got.write->0.quota().per_second == m * 1048576,
        upload_m == Some(m) && 0 < m < 3414 ==> got.read->0.quota().burst == m * 1048576 * 6 / 5,
        download_m == Some(m) && 0 < m < 3414 ==> got.write->0.quota().burst == m * 1048576 * 6 / 5,
        upload_m == Some(m) && m >= 4096 ==> got.read->0.quota().per_second == u32::MAX,
        download_m == Some(m) && m >= 4096 ==> got.write->0.quota().per_second == u32::MAX,
        upload_m == Some(m) && m >= 3414 ==> got.read->0.quota().burst == u32::MAX,
        download_m == Some(m) && m >= 3414 ==> got.write->0.quota().burst == u32::MAX,
        upload_m == Some(0u16) ==> got.read->0.quota() == (Quota { per_second: 1, burst: 1 }),
        download_m == Some(0u16) ==> got.write->0.quota() == (Quota { per_second: 1, burst: 1 }),
{
}

/// A higher setting never gives a lower rate nor a smaller burst, and a burst holds at least what
/// flows in a second.
pub proof fn law_quota_grows(m1: u16, m2: u16)
    requires
        m1 <= m2,
    ensures
        quota_of(m1).per_second <= quota_of(m2).per_second,
        quota_of(m1).burst <= quota_of(m2).burst,
        quota_of(m1).per_second <= quota_of(m1).burst,
{
}

/// Under any setting above zero, no request is too large for its limiter.
pub proof fn law_requests_fit_burst(m: u16, remaining: int, roll: int)
    requires
        m > 0,
        remaining >= 0,
    ensures
        request(remaining, roll) <= quota_of(m).burst,
{
    law_request_fits(remaining, roll);
}

/// Under a setting of zero, a request of more than one byte is too large, whatever the time: it is
/// put off again and again.
pub proof fn law_zero_setting_puts_off(limiter: Arc<Limiter>, n: int, plan: PollPlan)
    requires
        limits_to(Some(limiter), Some(0)),
        n > 1,
        may_do(Some(limiter), n, plan),
    ensures
        plan == (PollPlan::Wait { nanos: RETRY_NANOS }),
{
}

} // verus!
