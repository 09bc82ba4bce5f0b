//! Token-bucket rate limiting, one bucket per user, sized by the user's plan.
//!
//! Token levels are kept exactly, as integers: one token is divided into
//! `refill_period_secs * 10^9` units, so that a refill of `refill_tokens`
//! tokens per `refill_period_secs` seconds adds exactly `refill_tokens`
//! units per elapsed nanosecond.

use vstd::prelude::*;

use crate::auth::{opt_text, Claims};
use crate::text::str_eq;

verus! {

/// Nanoseconds per second.
pub const NANOS_PER_SEC: u128 = 1_000_000_000;

/// Seconds over which a plan's bucket refills completely.
pub const PLAN_REFILL_PERIOD_SECS: u32 = 3600;

/// The monotonic clock's reading type.
#[verifier::external_type_specification]
#[verifier::external_body]
pub struct ExInstant(std::time::Instant);

/// Reads the monotonic clock (`Instant::now`). Trusted: nothing is stated of
/// the value, which depends on the time of the call.
#[verifier::external_body]
fn instant_now() -> std::time::Instant {
    std::time::Instant::now()
}

/// Time since `origin` on the monotonic clock (`Instant::elapsed`).
/// Trusted: nothing is stated of the value, which depends on the clock.
#[verifier::external_body]
fn elapsed_since(origin: &std::time::Instant) -> core::time::Duration {
    origin.elapsed()
}

/// Whole nanoseconds of a duration (`Duration::as_nanos`). Trusted: nothing
/// is stated of the value; Verus sees nothing inside a `Duration`.
#[verifier::external_body]
fn duration_nanos(d: &core::time::Duration) -> u128 {
    d.as_nanos()
}

/// The abstract state of a bucket.
pub struct BucketView {
    /// Current fill, in units of `1 / unit` token.
    pub level: nat,
    pub max_tokens: nat,
    pub refill_tokens: nat,
    pub refill_period_secs: nat,
    /// Clock reading, in nanoseconds on the bucket's own clock, that the
    /// next refill is measured from.
    pub last_refill_ns: nat,
}

impl BucketView {
    /// Units in one token.
    pub open spec fn unit(self) -> nat {
        self.refill_period_secs * 1_000_000_000
    }

    /// Units in a full bucket.
    pub open spec fn capacity(self) -> nat {
        self.max_tokens * self.unit()
    }

    /// The fill after `elapsed_ns` nanoseconds of refilling, capped at capacity.
    pub open spec fn refilled(self, elapsed_ns: nat) -> nat {
        let grown = self.level + elapsed_ns * self.refill_tokens;
        if grown < self.capacity() { grown } else { self.capacity() }
    }

    /// One request after `elapsed_ns` nanoseconds: refill, then take one whole
    /// token if there is one. Gives the new state and whether the request is
    /// admitted.
    pub open spec fn consume(self, elapsed_ns: nat) -> (BucketView, bool) {
        let l = self.refilled(elapsed_ns);
        if l >= self.unit() {
            (BucketView { level: (l - self.unit()) as nat, ..self }, true)
        } else {
            (BucketView { level: l, ..self }, false)
        }
    }

    /// One request at clock reading `now_ns`: refill for the time since the
    /// last refill (none if the reading is earlier), take one token if there
    /// is a whole one, and measure the next refill from `now_ns`. Gives the
    /// new state and whether the request is admitted.
    pub open spec fn request_at(self, now_ns: nat) -> (BucketView, bool) {
        let elapsed: nat = if now_ns > self.last_refill_ns { (now_ns - self.last_refill_ns) as nat } else { 0 };
        let (w, ok) = self.consume(elapsed);
        (BucketView { last_refill_ns: now_ns, ..w }, ok)
    }

    /// A full bucket whose refills are measured from `last_refill_ns`.
    pub open spec fn full(max_tokens: nat, refill_tokens: nat, refill_period_secs: nat, last_refill_ns: nat) -> BucketView {
        BucketView {
            level: max_tokens * (refill_period_secs * 1_000_000_000),
            max_tokens,
            refill_tokens,
            refill_period_secs,
            last_refill_ns,
        }
    }

    /// Whole tokens available without refilling.
    pub open spec fn whole_tokens(self) -> nat {
        self.level / self.unit()
    }

    /// The state that every bucket keeps: a positive period and a fill
    /// within capacity.
    pub open spec fn wf(self) -> bool {
        &&& self.refill_period_secs >= 1
        &&& self.level <= self.capacity()
    }
}

/// A token bucket: holds at most `max_tokens` tokens, refills continuously at
/// `refill_tokens` tokens per `refill_period_secs` seconds, and admits a
/// request when it can take one whole token. Its clock readings are
/// nanoseconds since `clock_origin`, the moment it was created.
pub struct TokenBucket {
    level: u128,
    max_tokens: u64,
    refill_tokens: u64,
    refill_period_secs: u32,
    last_refill_ns: u128,
    clock_origin: std::time::Instant,
}

impl View for TokenBucket {
    type V = BucketView;

    closed spec fn view(&self) -> BucketView {
        BucketView {
            level: self.level as nat,
            max_tokens: self.max_tokens as nat,
            refill_tokens: self.refill_tokens as nat,
            refill_period_secs: self.refill_period_secs as nat,
            last_refill_ns: self.last_refill_ns as nat,
        }
    }
}

proof fn lemma_capacity_fits(max_tokens: nat, period: nat)
    requires
        max_tokens < 0x1_0000_0000_0000_0000,
        period < 0x1_0000_0000,
    ensures
        period * 1_000_000_000 < 0x1_0000_0000_0000_0000,
        max_tokens * (period * 1_000_000_000) < 0x1_0000_0000_0000_0000_0000_0000_0000_0000,
{
    assert(period * 1_000_000_000 < 0x1_0000_0000_0000_0000) by (nonlinear_arith)
        requires
            period < 0x1_0000_0000,
    ;
    assert(max_tokens * (period * 1_000_000_000) < 0x1_0000_0000_0000_0000_0000_0000_0000_0000)
        by (nonlinear_arith)
        requires
            max_tokens < 0x1_0000_0000_0000_0000,
            period * 1_000_000_000 < 0x1_0000_0000_0000_0000,
    ;
}

impl TokenBucket {
    /// The moment the bucket's clock readings count from. It is fixed when
    /// the bucket is created and kept by every request and reset.
    pub closed spec fn clock(&self) -> std::time::Instant {
        self.clock_origin
    }

    #[verifier::type_invariant]
    spec fn inv(self) -> bool {
        self@.wf()
    }

    /// A full bucket of `max_tokens` tokens refilling `refill_tokens` tokens
    /// every `refill_period_secs` seconds; its clock starts now, at reading 0.
    pub fn new(max_tokens: u64, refill_tokens: u64, refill_period_secs: u32) -> (r: TokenBucket)
        requires
            refill_period_secs >= 1,
        ensures
            r@ == BucketView::full(max_tokens as nat, refill_tokens as nat, refill_period_secs as nat, 0),
    {
        proof {
            lemma_capacity_fits(max_tokens as nat, refill_period_secs as nat);
        }
        let unit: u128 = refill_period_secs as u128 * NANOS_PER_SEC;
        TokenBucket {
            level: max_tokens as u128 * unit,
            max_tokens,
            refill_tokens,
            refill_period_secs,
            last_refill_ns: 0,
            clock_origin: instant_now(),
        }
    }

    /// The bucket of a plan allowing `max_tokens` requests per hour: full,
    /// refilling `max_tokens` tokens every hour.
    pub fn for_plan_limit(max_tokens: u64) -> (r: TokenBucket)
        ensures
            r@ == BucketView::full(max_tokens as nat, max_tokens as nat, PLAN_REFILL_PERIOD_SECS as nat, 0),
    {
        TokenBucket::new(max_tokens, max_tokens, PLAN_REFILL_PERIOD_SECS)
    }

    /// The bucket's size in tokens.
    pub fn max_tokens(&self) -> (r: u64)
        ensures
            r == self@.max_tokens,
    {
        self.max_tokens
    }

    /// Whole tokens available now, before any refill.
    pub fn whole_tokens(&self) -> (r: u64)
        ensures
            r == self@.whole_tokens(),
    {
        proof {
            use_type_invariant(self);
            lemma_capacity_fits(self@.max_tokens, self@.refill_period_secs);
            lemma_whole_tokens_bounded(self@);
        }
        let unit: u128 = self.refill_period_secs as u128 * NANOS_PER_SEC;
        (self.level / unit) as u64
    }

    /// The clock reading that the next refill is measured from.
    pub fn last_refill_ns(&self) -> (r: u128)
        ensures
            r == self@.last_refill_ns,
    {
        self.last_refill_ns
    }

    /// Reads the bucket's clock: nanoseconds since the bucket was created.
    /// Nothing is stated of the value, which depends on the time of the call.
    pub fn clock_now(&self) -> u128 {
        let d = elapsed_since(&self.clock_origin);
        duration_nanos(&d)
    }

    /// Refills for `elapsed_ns` nanoseconds, then takes one token if a whole
    /// one is there. Returns whether the request is admitted.
    fn refill_and_take(&mut self, elapsed_ns: u128) -> (r: bool)
        ensures
            (final(self)@, r) == old(self)@.consume(elapsed_ns as nat),
            final(self).clock() == old(self).clock(),
    {
        proof {
            use_type_invariant(&*self);
            lemma_capacity_fits(self@.max_tokens, self@.refill_period_secs);
        }
        let unit: u128 = self.refill_period_secs as u128 * NANOS_PER_SEC;
        let capacity: u128 = self.max_tokens as u128 * unit;
        let room: u128 = capacity - self.level;
        let ghost v = self@;
        let level: u128;
        if self.refill_tokens == 0 {
            level = self.level;
            assert(elapsed_ns as nat * v.refill_tokens == 0) by (nonlinear_arith)
                requires
                    v.refill_tokens == 0,
            ;
        } else {
            let rate: u128 = self.refill_tokens as u128;
            let steps: u128 = room / rate;
            proof {
                lemma_refill_split(room as nat, rate as nat, elapsed_ns as nat);
            }
            if elapsed_ns > steps {
                level = capacity;
            } else {
                level = self.level + elapsed_ns * rate;
            }
        }
        assert(level == v.refilled(elapsed_ns as nat));
        if level >= unit {
            self.level = level - unit;
            true
        } else {
            self.level = level;
            false
        }
    }

    /// One request at clock reading `now_ns`: refills for the time since the
    /// last refill, takes one token if a whole one is there, and measures
    /// the next refill from `now_ns`. Returns whether the request is admitted.
    pub fn try_consume_at(&mut self, now_ns: u128) -> (r: bool)
        ensures
            (final(self)@, r) == old(self)@.request_at(now_ns as nat),
            final(self).clock() == old(self).clock(),
    {
        proof {
            use_type_invariant(&*self);
        }
        let elapsed: u128 = if now_ns > self.last_refill_ns { now_ns - self.last_refill_ns } else { 0 };
        self.last_refill_ns = now_ns;
        let r = self.refill_and_take(elapsed);
        r
    }

    /// One request now: reads the bucket's clock, then `try_consume_at` that
    /// reading.
    pub fn try_consume(&mut self) -> (r: bool)
        ensures
            exists|now_ns: nat| (final(self)@, r) == #[trigger] old(self)@.request_at(now_ns),
            final(self).clock() == old(self).clock(),
    {
        let now = self.clock_now();
        let r = self.try_consume_at(now);
        assert((self@, r) == old(self)@.request_at(now as nat));
        r
    }

    /// Makes this the full bucket of a plan allowing `max_tokens` requests
    /// per hour, measuring refills from `now_ns` on the same clock.
    pub fn reset_for_plan(&mut self, max_tokens: u64, now_ns: u128)
        ensures
            final(self)@ == BucketView::full(
                max_tokens as nat,
                max_tokens as nat,
                PLAN_REFILL_PERIOD_SECS as nat,
                now_ns as nat,
            ),
            final(self).clock() == old(self).clock(),
    {
        proof {
            lemma_capacity_fits(max_tokens as nat, PLAN_REFILL_PERIOD_SECS as nat);
        }
        let unit: u128 = PLAN_REFILL_PERIOD_SECS as u128 * NANOS_PER_SEC;
        let fresh = TokenBucket {
            level: max_tokens as u128 * unit,
            max_tokens,
            refill_tokens: max_tokens,
            refill_period_secs: PLAN_REFILL_PERIOD_SECS,
            last_refill_ns: now_ns,
            clock_origin: self.clock_origin,
        };
        *self = fresh;
    }
}

/// The cut between a refill that stays below capacity and one that reaches it.
proof fn lemma_refill_split(room: nat, rate: nat, elapsed: nat)
    requires
        rate > 0,
    ensures
        elapsed > room / rate ==> elapsed * rate > room,
        elapsed <= room / rate ==> elapsed * rate <= room,
{
    let q = room / rate;
    assert(q * rate <= room < (q + 1) * rate) by (nonlinear_arith)
        requires
            rate > 0,
            q == room / rate,
    ;
    if elapsed > q {
        assert(elapsed * rate >= (q + 1) * rate) by (nonlinear_arith)
            requires
                elapsed >= q + 1,
                rate > 0,
        ;
    } else {
        assert(elapsed * rate <= q * rate) by (nonlinear_arith)
            requires
                elapsed <= q,
                rate > 0,
        ;
    }
}

proof fn lemma_whole_tokens_bounded(v: BucketView)
    requires
        v.wf(),
    ensures
        v.whole_tokens() <= v.max_tokens,
{
    let u = v.unit();
    assert(u > 0);
    assert(v.level / u <= v.max_tokens) by (nonlinear_arith)
        requires
            u > 0,
            v.level <= v.max_tokens * u,
    ;
}


// ---------------------------------------------------------------------------
// Plans
// ---------------------------------------------------------------------------

/// Requests per hour of a plan: `Enterprise` 100000, `Pro` 10000,
/// `General` 1000, any other plan 100.
pub open spec fn plan_limit(plan: Seq<char>) -> u64 {
    if plan == "Enterprise"@ {
        100_000
    } else if plan == "Pro"@ {
        10_000
    } else if plan == "General"@ {
        1_000
    } else {
        100
    }
}

/// Requests per hour allowed to a plan.
pub fn plan_max_tokens(plan: &str) -> (r: u64)
    ensures
        r == plan_limit(plan@),
{
    if str_eq(plan, "Enterprise") {
        100_000
    } else if str_eq(plan, "Pro") {
        10_000
    } else if str_eq(plan, "General") {
        1_000
    } else {
        100
    }
}

/// The user a request is counted against (the claims' subject, or `anon`)
/// and the plan it is limited by (the claims' plan, or `Free`).
pub open spec fn rate_subject_spec(claims: Option<Claims>) -> (Seq<char>, Seq<char>) {
    match claims {
        Some(c) => (c.sub@, match opt_text(c.plan) { Some(p) => p, None => "Free"@ }),
        None => ("anon"@, "Free"@),
    }
}

/// The user id and plan limit a request is rate limited by.
pub fn rate_limit_subject(claims: Option<&Claims>) -> (r: (String, u64))
    ensures
        r.0@ == rate_subject_spec(match claims { Some(c) => Some(*c), None => None }).0,
        r.1 == plan_limit(rate_subject_spec(match claims { Some(c) => Some(*c), None => None }).1),
{
    match claims {
        Some(c) => {
            let limit = match &c.plan {
                Some(p) => plan_max_tokens(p.as_str()),
                None => plan_max_tokens("Free"),
            };
            (c.sub.clone(), limit)
        },
        None => ("anon".to_owned(), plan_max_tokens("Free")),
    }
}

/// A stored bucket is replaced by a fresh one for the plan when its size
/// differs from the plan's limit by more than one token.
pub open spec fn needs_reset(bucket_max: nat, plan_max: nat) -> bool {
    bucket_max > plan_max + 1 || plan_max > bucket_max + 1
}

/// One request at clock reading `now_ns` against a user's bucket under a
/// plan of `max_tokens` requests per hour: the bucket is first replaced by a
/// full one for the plan (refills measured from `now_ns`) if its size is off
/// by more than one token, then asked for a token at `now_ns`.
pub open spec fn admit_spec(bucket: BucketView, max_tokens: nat, now_ns: nat) -> (BucketView, bool) {
    if needs_reset(bucket.max_tokens, max_tokens) {
        BucketView::full(max_tokens, max_tokens, PLAN_REFILL_PERIOD_SECS as nat, now_ns).request_at(now_ns)
    } else {
        bucket.request_at(now_ns)
    }
}

/// Charges one request at clock reading `now_ns` to `bucket` under a plan of
/// `max_tokens` requests per hour; returns whether it is admitted.
pub fn admit_request_at(bucket: &mut TokenBucket, max_tokens: u64, now_ns: u128) -> (r: bool)
    ensures
        (final(bucket)@, r) == admit_spec(old(bucket)@, max_tokens as nat, now_ns as nat),
        final(bucket).clock() == old(bucket).clock(),
{
    let current = bucket.max_tokens();
    if current > max_tokens && current - max_tokens > 1 || max_tokens > current && max_tokens - current > 1 {
        bucket.reset_for_plan(max_tokens, now_ns);
    }
    bucket.try_consume_at(now_ns)
}

/// Charges one request now to `bucket` under a plan of `max_tokens` requests
/// per hour: reads the bucket's clock, then `admit_request_at` that reading.
pub fn admit_request(bucket: &mut TokenBucket, max_tokens: u64) -> (r: bool)
    ensures
        exists|now_ns: nat| (final(bucket)@, r) == #[trigger] admit_spec(old(bucket)@, max_tokens as nat, now_ns),
        final(bucket).clock() == old(bucket).clock(),
{
    let now = bucket.clock_now();
    let r = admit_request_at(bucket, max_tokens, now);
    assert((bucket@, r) == admit_spec(old(bucket)@, max_tokens as nat, now as nat));
    r
}

// ---------------------------------------------------------------------------
// Laws
// ---------------------------------------------------------------------------

/// A bucket stays well formed through any request: its fill never exceeds
/// its capacity.
pub proof fn lemma_consume_keeps_capacity(v: BucketView, elapsed_ns: nat)
    requires
        v.wf(),
    ensures
        v.consume(elapsed_ns).0.wf(),
        v.consume(elapsed_ns).0.level <= v.capacity(),
{
}

/// An admitted request takes exactly one token from the refilled bucket; a
/// refused one takes nothing, and is refused only when less than one token
/// is there.
pub proof fn lemma_consume_costs_one_token(v: BucketView, elapsed_ns: nat)
    requires
        v.wf(),
    ensures
        v.consume(elapsed_ns).1 ==> v.consume(elapsed_ns).0.level + v.unit() == v.refilled(elapsed_ns),
        !v.consume(elapsed_ns).1 ==> v.consume(elapsed_ns).0.level == v.refilled(elapsed_ns)
            && v.refilled(elapsed_ns) < v.unit(),
{
}

/// A plan's bucket refills completely within an hour: however empty it is,
/// an hour of refill brings it back to the plan's full limit.
pub proof fn lemma_plan_bucket_refills_within_an_hour(v: BucketView)
    requires
        v.wf(),
        v.refill_tokens == v.max_tokens,
        v.refill_period_secs == PLAN_REFILL_PERIOD_SECS,
    ensures
        v.refilled(3600 * 1_000_000_000) == v.capacity(),
        v.refilled(3600 * 1_000_000_000) / v.unit() == v.max_tokens,
{
    let hour: nat = 3600 * 1_000_000_000;
    assert(v.unit() == hour);
    assert(hour * v.refill_tokens == v.max_tokens * hour) by (nonlinear_arith)
        requires
            v.refill_tokens == v.max_tokens,
    ;
    assert(v.capacity() == hour * v.max_tokens) by (nonlinear_arith)
        requires
            v.unit() == hour,
            v.capacity() == v.max_tokens * v.unit(),
    ;
    vstd::arithmetic::div_mod::lemma_div_multiples_vanish(v.max_tokens as int, hour as int);
}

/// A plan's bucket, however drained, admits a request made an hour or more
/// after its last refill, and is left holding all but that one token.
pub proof fn lemma_plan_bucket_admits_after_an_hour(v: BucketView, max_tokens: nat, now_ns: nat)
    requires
        v.wf(),
        is_plan_bucket(v, max_tokens),
        max_tokens >= 1,
        now_ns >= v.last_refill_ns + 3600 * 1_000_000_000,
    ensures
        admit_spec(v, max_tokens, now_ns).1,
        admit_spec(v, max_tokens, now_ns).0.level == (max_tokens - 1) * (3600 * 1_000_000_000),
        admit_spec(v, max_tokens, now_ns).0.last_refill_ns == now_ns,
{
    let hour: nat = 3600 * 1_000_000_000;
    let e: nat = (now_ns - v.last_refill_ns) as nat;
    assert(v.unit() == hour);
    assert(v.capacity() == max_tokens * hour);
    assert(e * max_tokens >= hour * max_tokens) by (nonlinear_arith)
        requires
            e >= hour,
    ;
    assert(max_tokens * hour >= hour) by (nonlinear_arith)
        requires
            max_tokens >= 1,
    ;
    assert((max_tokens - 1) * hour == max_tokens * hour - hour) by (nonlinear_arith);
    assert(v.refilled(e) == v.capacity());
}

/// `k` requests in a row with no time passing between them: the final
/// bucket and the number admitted.
pub open spec fn burst(v: BucketView, k: nat) -> (BucketView, nat)
    decreases k,
{
    if k == 0 {
        (v, 0)
    } else {
        let (w, admitted) = burst(v, (k - 1) as nat);
        let (x, ok) = w.consume(0);
        (x, if ok { admitted + 1 } else { admitted })
    }
}

/// A bucket holding `n` whole tokens admits exactly `n` requests in a burst
/// with no time passing, and refuses the next one.
pub proof fn lemma_full_bucket_burst(max_tokens: nat, refill_tokens: nat, refill_period_secs: nat)
    requires
        refill_period_secs >= 1,
    ensures
        ({
            let v = BucketView::full(max_tokens, refill_tokens, refill_period_secs, 0);
            let (w, admitted) = burst(v, max_tokens);
            &&& admitted == max_tokens
            &&& !w.consume(0).1
        }),
{
    let v = BucketView::full(max_tokens, refill_tokens, refill_period_secs, 0);
    let u = v.unit();
    assert(u >= 1_000_000_000);
    lemma_burst_drains(v, max_tokens);
    assert(0 * refill_tokens == 0);
}

/// After `k <= max_tokens` requests without refill time, a full bucket holds
/// `max_tokens - k` tokens, all `k` requests admitted.
proof fn lemma_burst_drains(v: BucketView, k: nat)
    requires
        v.refill_period_secs >= 1,
        v.level == v.max_tokens * v.unit(),
        k <= v.max_tokens,
    ensures
        burst(v, k).0 == (BucketView { level: ((v.max_tokens - k) * v.unit()) as nat, ..v }),
        burst(v, k).1 == k,
    decreases k,
{
    if k > 0 {
        lemma_burst_drains(v, (k - 1) as nat);
        let w = burst(v, (k - 1) as nat).0;
        let u = v.unit();
        assert(0 * v.refill_tokens == 0);
        assert((v.max_tokens - (k - 1)) * u == (v.max_tokens - k) * u + u) by (nonlinear_arith)
            requires
                k >= 1,
        ;
        assert((v.max_tokens - (k - 1)) * u <= v.max_tokens * u) by (nonlinear_arith)
            requires
                k >= 1,
                k <= v.max_tokens,
        ;
        assert(w.capacity() == v.capacity());
        assert(w.refilled(0) == w.level);
    } else {
        assert(v.max_tokens * v.unit() == (v.max_tokens - 0) * v.unit());
    }
}


/// Requests at the clock readings `times`, in order: the final bucket and
/// the number admitted.
pub open spec fn run(v: BucketView, times: Seq<nat>) -> (BucketView, nat)
    decreases times.len(),
{
    if times.len() == 0 {
        (v, 0)
    } else {
        let (w, admitted) = run(v, times.drop_last());
        let (x, ok) = w.request_at(times.last());
        (x, if ok { admitted + 1 } else { admitted })
    }
}

/// Clock readings that never go back, none before `start`.
pub open spec fn readings_from(times: Seq<nat>, start: nat) -> bool {
    forall|i: int, j: int| 0 <= i <= j < times.len() ==> start <= #[trigger] times[i] <= #[trigger] times[j]
}

/// The reading a run ends at: its last reading, or `start` for no request.
pub open spec fn run_end(times: Seq<nat>, start: nat) -> nat {
    if times.len() == 0 { start } else { times.last() }
}

/// One request at a reading not before the last refill: the fill left plus
/// the token taken is at most the old fill plus the refill for the gap, and
/// the bucket keeps its sizes.
proof fn lemma_request_step(w: BucketView, t: nat)
    requires
        w.wf(),
        t >= w.last_refill_ns,
    ensures
        ({
            let (x, ok) = w.request_at(t);
            &&& x.wf()
            &&& x.last_refill_ns == t
            &&& x.max_tokens == w.max_tokens
            &&& x.refill_tokens == w.refill_tokens
            &&& x.refill_period_secs == w.refill_period_secs
            &&& x.level + (if ok { w.unit() } else { 0 }) <= w.level + (t - w.last_refill_ns) * w.refill_tokens
        }),
{
}

/// However requests are spread over time, a bucket admits no more than it
/// holds plus what it refills: after requests at non-decreasing readings
/// from `v.last_refill_ns` up to `end`, the tokens taken and the fill left
/// together are at most `v.level + (end - v.last_refill_ns) * refill_tokens`
/// units; so at most `(v.level + (end - v.last_refill_ns) * refill_tokens) /
/// unit` requests are admitted, and at most `max_tokens` plus the refill for
/// the window.
pub proof fn lemma_admissions_within_window(v: BucketView, times: Seq<nat>)
    requires
        v.wf(),
        readings_from(times, v.last_refill_ns),
    ensures
        ({
            let (w, admitted) = run(v, times);
            let end = run_end(times, v.last_refill_ns);
            &&& w.wf()
            &&& w.last_refill_ns == end
            &&& w.max_tokens == v.max_tokens
            &&& w.refill_tokens == v.refill_tokens
            &&& w.refill_period_secs == v.refill_period_secs
            &&& admitted * v.unit() + w.level <= v.level + (end - v.last_refill_ns) * v.refill_tokens
            &&& admitted * v.unit() <= v.max_tokens * v.unit() + (end - v.last_refill_ns) * v.refill_tokens
            &&& admitted <= (v.level + (end - v.last_refill_ns) * v.refill_tokens) / (v.unit() as int)
        }),
    decreases times.len(),
{
    let (w, admitted) = run(v, times);
    let end = run_end(times, v.last_refill_ns);
    let u = v.unit();
    let r = v.refill_tokens;
    let start = v.last_refill_ns;
    if times.len() > 0 {
        let prev = times.drop_last();
        assert(readings_from(prev, start)) by {
            assert forall|i: int, j: int| 0 <= i <= j < prev.len() implies start <= #[trigger] prev[i] <= #[trigger] prev[j] by {
                assert(prev[i] == times[i] && prev[j] == times[j]);
            }
        }
        lemma_admissions_within_window(v, prev);
        let (p, a) = run(v, prev);
        let mid = run_end(prev, start);
        let t = times.last();
        assert(mid <= t) by {
            if prev.len() > 0 {
                assert(times[prev.len() - 1] <= times[times.len() - 1]);
            } else {
                assert(start <= times[0]);
            }
        }
        lemma_request_step(p, t);
        let (x, ok) = p.request_at(t);
        assert(p.unit() == u);
        assert(a * u + p.level <= v.level + (mid - start) * r);
        assert(x.level + (if ok { u } else { 0 }) <= p.level + (t - mid) * r);
        assert((mid - start) * r + (t - mid) * r == (t - start) * r) by (nonlinear_arith)
            requires
                start <= mid <= t,
        ;
        assert((if ok { a + 1 } else { a }) * u == a * u + (if ok { u } else { 0 })) by (nonlinear_arith);
    }
    assert(w.level <= v.max_tokens * u);
    assert(v.level <= v.max_tokens * u);
    assert(u > 0);
    let total = v.level + (end - start) * r;
    assert(admitted * u <= total);
    assert(admitted <= total / (u as int)) by (nonlinear_arith)
        requires
            u > 0,
            admitted * u <= total,
    ;
}

/// Requests at the readings `times` against one user's bucket under a plan
/// of `max_tokens` requests per hour: the final bucket and the number
/// admitted.
pub open spec fn admit_run(v: BucketView, max_tokens: nat, times: Seq<nat>) -> (BucketView, nat)
    decreases times.len(),
{
    if times.len() == 0 {
        (v, 0)
    } else {
        let (w, admitted) = admit_run(v, max_tokens, times.drop_last());
        let (x, ok) = admit_spec(w, max_tokens, times.last());
        (x, if ok { admitted + 1 } else { admitted })
    }
}

/// `v` is the bucket of a plan allowing `max_tokens` requests per hour.
pub open spec fn is_plan_bucket(v: BucketView, max_tokens: nat) -> bool {
    &&& v.max_tokens == max_tokens
    &&& v.refill_tokens == max_tokens
    &&& v.refill_period_secs == PLAN_REFILL_PERIOD_SECS
}

/// Any request leaves a fill that, with the token it took, fits in the
/// bucket's capacity; the bucket keeps its sizes.
proof fn lemma_request_within_capacity(w: BucketView, t: nat)
    requires
        w.wf(),
    ensures
        ({
            let (x, ok) = w.request_at(t);
            &&& x.wf()
            &&& x.last_refill_ns == t
            &&& x.max_tokens == w.max_tokens
            &&& x.refill_tokens == w.refill_tokens
            &&& x.refill_period_secs == w.refill_period_secs
            &&& x.level + (if ok { w.unit() } else { 0 }) <= w.capacity()
        }),
{
}

/// The bound of `lemma_admissions_in_any_window`, measured from the run's
/// first reading, with the bucket the run leaves.
proof fn lemma_run_from_first(v: BucketView, times: Seq<nat>, t0: nat)
    requires
        v.wf(),
        readings_from(times, t0),
        times.len() > 0,
    ensures
        ({
            let (w, admitted) = run(v, times);
            &&& w.wf()
            &&& w.last_refill_ns == times.last()
            &&& w.max_tokens == v.max_tokens
            &&& w.refill_tokens == v.refill_tokens
            &&& w.refill_period_secs == v.refill_period_secs
            &&& admitted * v.unit() + w.level <= v.capacity() + (times.last() - times[0]) * v.refill_tokens
        }),
    decreases times.len(),
{
    let prev = times.drop_last();
    let t = times.last();
    let u = v.unit();
    let r = v.refill_tokens;
    if prev.len() == 0 {
        assert(run(v, prev) == (v, 0nat));
        lemma_request_within_capacity(v, t);
        assert((t - times[0]) * r == 0) by (nonlinear_arith)
            requires
                t == times[0],
        ;
        let (x, ok) = v.request_at(t);
        assert((if ok { 0nat + 1 } else { 0nat }) * u == (if ok { u } else { 0 })) by (nonlinear_arith);
    } else {
        assert(readings_from(prev, t0)) by {
            assert forall|i: int, j: int| 0 <= i <= j < prev.len() implies t0 <= #[trigger] prev[i] <= #[trigger] prev[j] by {
                assert(prev[i] == times[i] && prev[j] == times[j]);
            }
        }
        lemma_run_from_first(v, prev, t0);
        let (p, a) = run(v, prev);
        let first = times[0];
        let mid = prev.last();
        assert(prev[0] == first);
        assert(first <= mid <= t) by {
            assert(times[0] <= times[prev.len() - 1]);
            assert(times[prev.len() - 1] <= times[times.len() - 1]);
        }
        lemma_request_step(p, t);
        let (x, ok) = p.request_at(t);
        assert(p.unit() == u);
        assert(p.capacity() == v.capacity());
        assert(a * u + p.level <= v.capacity() + (mid - first) * r);
        assert(x.level + (if ok { u } else { 0 }) <= p.level + (t - mid) * r);
        assert((mid - first) * r + (t - mid) * r == (t - first) * r) by (nonlinear_arith)
            requires
                first <= mid <= t,
        ;
        assert((if ok { a + 1 } else { a }) * u == a * u + (if ok { u } else { 0 })) by (nonlinear_arith);
    }
}

/// Over any window of clock readings from `t0` to `end`, from whatever
/// state the bucket was in (however long it stood idle), requests at
/// non-decreasing readings within the window get at most the bucket's size
/// plus the refill for the window admitted: admitted * unit <= capacity +
/// (end - t0) * refill_tokens.
pub proof fn lemma_admissions_in_any_window(v: BucketView, times: Seq<nat>, t0: nat)
    requires
        v.wf(),
        readings_from(times, t0),
    ensures
        run(v, times).1 * v.unit() <= v.capacity() + (run_end(times, t0) - t0) * v.refill_tokens,
{
    if times.len() > 0 {
        lemma_run_from_first(v, times, t0);
        let end = times.last();
        assert(t0 <= times[0] <= end) by {
            assert(times[0] <= times[times.len() - 1]);
        }
        assert((end - times[0]) * v.refill_tokens <= (end - t0) * v.refill_tokens) by (nonlinear_arith)
            requires
                t0 <= times[0] <= end,
        ;
    }
}

/// A user on one plan of `max_tokens` requests per hour gets, over any
/// window of `T` seconds, at most `max_tokens * (1 + T / 3600)` requests
/// admitted. Stated in nanoseconds: requests at non-decreasing readings
/// from `t0` to `end` get admitted * 3600 * 10^9 <= max_tokens * 3600 * 10^9
/// + (end - t0) * max_tokens, from whatever state the user's bucket was in
/// (however long it stood idle), provided it was either a bucket of this
/// plan or one the plan replaces.
pub proof fn lemma_plan_admissions_in_any_window(v: BucketView, max_tokens: nat, times: Seq<nat>, t0: nat)
    requires
        v.wf(),
        is_plan_bucket(v, max_tokens) || needs_reset(v.max_tokens, max_tokens),
        readings_from(times, t0),
    ensures
        ({
            let hour: nat = 3600 * 1_000_000_000;
            admit_run(v, max_tokens, times).1 * hour <= max_tokens * hour + (run_end(times, t0) - t0) * max_tokens
        }),
{
    if times.len() > 0 {
        lemma_plan_run_from_first(v, max_tokens, times, t0);
        let end = times.last();
        assert(t0 <= times[0] <= end) by {
            assert(times[0] <= times[times.len() - 1]);
        }
        assert((end - times[0]) * max_tokens <= (end - t0) * max_tokens) by (nonlinear_arith)
            requires
                t0 <= times[0] <= end,
        ;
    }
}

/// The bound of `lemma_plan_admissions_in_any_window`, measured from the
/// run's first reading, with the plan bucket the run leaves.
proof fn lemma_plan_run_from_first(v: BucketView, max_tokens: nat, times: Seq<nat>, t0: nat)
    requires
        v.wf(),
        is_plan_bucket(v, max_tokens) || needs_reset(v.max_tokens, max_tokens),
        readings_from(times, t0),
        times.len() > 0,
    ensures
        ({
            let (w, admitted) = admit_run(v, max_tokens, times);
            let hour: nat = 3600 * 1_000_000_000;
            &&& w.wf()
            &&& is_plan_bucket(w, max_tokens)
            &&& w.last_refill_ns == times.last()
            &&& admitted * hour + w.level <= max_tokens * hour + (times.last() - times[0]) * max_tokens
        }),
    decreases times.len(),
{
    let hour: nat = 3600 * 1_000_000_000;
    let prev = times.drop_last();
    let t = times.last();
    if prev.len() == 0 {
        assert(admit_run(v, max_tokens, prev) == (v, 0nat));
        assert((t - times[0]) * max_tokens == 0) by (nonlinear_arith)
            requires
                t == times[0],
        ;
        let (x, ok) = admit_spec(v, max_tokens, t);
        assert((if ok { 0nat + 1 } else { 0nat }) * hour == (if ok { hour } else { 0 })) by (nonlinear_arith);
        if needs_reset(v.max_tokens, max_tokens) {
            let f = BucketView::full(max_tokens, max_tokens, PLAN_REFILL_PERIOD_SECS as nat, t);
            assert(f.unit() == hour);
            assert(f.wf());
            lemma_request_within_capacity(f, t);
        } else {
            assert(v.unit() == hour);
            lemma_request_within_capacity(v, t);
        }
    } else {
        assert(readings_from(prev, t0)) by {
            assert forall|i: int, j: int| 0 <= i <= j < prev.len() implies t0 <= #[trigger] prev[i] <= #[trigger] prev[j] by {
                assert(prev[i] == times[i] && prev[j] == times[j]);
            }
        }
        lemma_plan_run_from_first(v, max_tokens, prev, t0);
        let (p, a) = admit_run(v, max_tokens, prev);
        let first = times[0];
        let mid = prev.last();
        assert(prev[0] == first);
        assert(first <= mid <= t) by {
            assert(times[0] <= times[prev.len() - 1]);
            assert(times[prev.len() - 1] <= times[times.len() - 1]);
        }
        assert(!needs_reset(p.max_tokens, max_tokens));
        assert(p.unit() == hour);
        lemma_request_step(p, t);
        let (x, ok) = p.request_at(t);
        assert((mid - first) * max_tokens + (t - mid) * max_tokens == (t - first) * max_tokens) by (nonlinear_arith)
            requires
                first <= mid <= t,
        ;
        assert((if ok { a + 1 } else { a }) * hour == a * hour + (if ok { hour } else { 0 })) by (nonlinear_arith);
    }
}

} // verus!
