//! Shared HTTP admission pressure: per-origin cooldowns and halved caps after
//! server overload, with oversized guidance blocking the origin.
use vstd::prelude::*;
use crate::clock::{Instant, NANOS_PER_SEC};
use crate::network::{http_scheme, https_scheme, is_web_scheme, parse_url_parts, url_origin, url_origin_of, url_parts_of};
use crate::scheduler::ConcurrencyLimits;
use crate::text::same_text;

verus! {

/// Bounded, origin-free admission failure.
#[derive(Debug, Clone, Copy, PartialEq, Eq, Structural)]
pub enum AdmissionError {
    /// Origin was invalid or the bounded origin table was exhausted.
    Unavailable,
    /// Server guidance cannot be honored within the supported bound.
    ServerDelay,
}

} // verus!

verus! {

/// Largest distinct origins tracked at once.
pub const MAX_ORIGINS: usize = 1024;
/// Longest server delay honoured, in seconds; longer guidance blocks the origin.
pub const MAX_SERVER_DELAY: u64 = 3600;
/// How long pressure on an origin is remembered after its cooldown: 60 s.
pub const PRESSURE_MEMORY_NANOS: u128 = 60_000_000_000;

/// Admission pressure on one exact origin: requests in flight, the current
/// cap, an optional cooldown deadline, how long the pressure is remembered,
/// and whether oversized guidance blocked the origin.
#[derive(Debug, Clone, Copy, PartialEq, Eq, Structural)]
pub struct OriginState {
    pub active: usize,
    pub limit: usize,
    pub not_before: Option<Instant>,
    pub retain_until: Instant,
    pub blocked: bool,
}

/// Whether a new request to the origin may start at `now`.
pub open spec fn may_start(state: OriginState, now: Instant) -> bool {
    state.active < state.limit && (state.not_before matches Some(deadline) ==> now.nanos >= deadline.nanos)
}

/// The origin state after a response status with optional `Retry-After`
/// seconds arrived at `now`: overload (429 or 503) halves the cap (never
/// below one) and either blocks the origin for guidance over an hour or
/// extends the cooldown, never shortening it, remembering the pressure one
/// minute past the cooldown.
pub open spec fn observed(state: OriginState, status: u16, retry_after_seconds: Option<u64>, now: Instant) -> OriginState {
    if status != 429 && status != 503 {
        state
    } else {
        let limit = if state.limit / 2 >= 1 { state.limit / 2 } else { 1 };
        let seconds = match retry_after_seconds { Some(s) => s, None => 1 };
        if seconds > MAX_SERVER_DELAY {
            OriginState { limit, blocked: true, ..state }
        } else {
            let deadline: int = now.nanos + seconds * NANOS_PER_SEC;
            let not_before: int = match state.not_before {
                Some(old) => if old.nanos >= deadline { old.nanos as int } else { deadline },
                None => deadline,
            };
            OriginState {
                limit,
                not_before: Some(Instant { nanos: not_before as u128 }),
                retain_until: Instant { nanos: (not_before + PRESSURE_MEMORY_NANOS) as u128 },
                ..state
            }
        }
    }
}

impl OriginState {
    /// A fresh origin with the per-host cap and no pressure.
    pub fn new(limit: usize, now: Instant) -> (state: OriginState)
        ensures
            state == (OriginState { active: 0, limit, not_before: None, retain_until: now, blocked: false }),
    {
        OriginState { active: 0, limit, not_before: None, retain_until: now, blocked: false }
    }

    /// Whether a request may start now; a blocked origin fails with
    /// `ServerDelay`.
    pub fn ready(&self, now: Instant) -> (ready: Result<bool, AdmissionError>)
        ensures
            self.blocked ==> ready == Err::<bool, AdmissionError>(AdmissionError::ServerDelay),
            !self.blocked ==> ready == Ok::<bool, AdmissionError>(may_start(*self, now)),
    {
        if self.blocked {
            return Err(AdmissionError::ServerDelay);
        }
        let cooled = match self.not_before {
            Some(deadline) => now.nanos >= deadline.nanos,
            None => true,
        };
        Ok(self.active < self.limit && cooled)
    }

    /// Starts one request when it may start now (re-checked after a global
    /// slot was acquired); returns whether it started.
    pub fn try_start(&mut self, now: Instant) -> (started: Result<bool, AdmissionError>)
        ensures
            old(self).blocked ==> started == Err::<bool, AdmissionError>(AdmissionError::ServerDelay) && *final(self) == *old(self),
            !old(self).blocked ==> started == Ok::<bool, AdmissionError>(may_start(*old(self), now)),
            !old(self).blocked && may_start(*old(self), now) ==> *final(self) == (OriginState { active: (old(self).active + 1) as usize, ..*old(self) }),
            !old(self).blocked && !may_start(*old(self), now) ==> *final(self) == *old(self),
    {
        match self.ready(now) {
            Err(e) => Err(e),
            Ok(false) => Ok(false),
            Ok(true) => {
                self.active = self.active + 1;
                Ok(true)
            }
        }
    }

    /// Records a response's status and guidance (see [`observed`]).
    pub fn observe(&mut self, status: u16, retry_after_seconds: Option<u64>, now: Instant)
        requires
            now.nanos <= u64::MAX,
            old(self).not_before matches Some(d) ==> d.nanos <= u64::MAX * NANOS_PER_SEC * 2,
        ensures
            *final(self) == observed(*old(self), status, retry_after_seconds, now),
    {
        if status != 429 && status != 503 {
            return;
        }
        self.limit = if self.limit / 2 >= 1 { self.limit / 2 } else { 1 };
        let seconds = match retry_after_seconds {
            Some(s) => s,
            None => 1,
        };
        if seconds > MAX_SERVER_DELAY {
            self.blocked = true;
            return;
        }
        let deadline = now.nanos + seconds as u128 * NANOS_PER_SEC;
        let not_before = match self.not_before {
            Some(old) => if old.nanos >= deadline { old.nanos } else { deadline },
            None => deadline,
        };
        self.not_before = Some(Instant { nanos: not_before });
        self.retain_until = Instant { nanos: not_before + PRESSURE_MEMORY_NANOS };
    }

    /// A finished request releases its origin slot.
    pub fn release(&mut self)
        requires
            old(self).active > 0,
        ensures
            *final(self) == (OriginState { active: (old(self).active - 1) as usize, ..*old(self) }),
    {
        self.active = self.active - 1;
    }

    /// Whether an idle origin must stay tracked: it is blocked or its
    /// pressure is still remembered.
    pub fn retained(&self, now: Instant) -> (keep: bool)
        ensures
            keep == (self.blocked || self.retain_until.nanos > now.nanos),
    {
        self.blocked || self.retain_until.nanos > now.nanos
    }

    /// The state a new admission domain inherits: no requests, a cap no
    /// larger than its own per-host limit, the same cooldown and block.
    pub fn inherited(&self, per_host: usize) -> (state: OriginState)
        ensures
            state == (OriginState {
                active: 0,
                limit: if self.limit <= per_host { self.limit } else { per_host },
                ..*self
            }),
    {
        OriginState { active: 0, limit: if self.limit <= per_host { self.limit } else { per_host }, ..*self }
    }
}

/// Overload guidance only ever tightens admission: the cap never drops
/// below one or grows, a block is never lifted, and the cooldown never
/// moves earlier.
pub proof fn lemma_pressure_only_tightens(state: OriginState, status: u16, retry_after_seconds: Option<u64>, now: Instant)
    requires
        state.limit >= 1,
        now.nanos <= u64::MAX,
        state.not_before matches Some(d) ==> d.nanos <= u64::MAX * NANOS_PER_SEC * 2,
    ensures
        observed(state, status, retry_after_seconds, now).limit >= 1,
        observed(state, status, retry_after_seconds, now).limit <= state.limit,
        state.blocked ==> observed(state, status, retry_after_seconds, now).blocked,
        state.not_before is Some && observed(state, status, retry_after_seconds, now).not_before is Some
            ==> observed(state, status, retry_after_seconds, now).not_before->Some_0.nanos >= state.not_before->Some_0.nanos,
        state.not_before is Some ==> observed(state, status, retry_after_seconds, now).not_before is Some,
        observed(state, status, retry_after_seconds, now).active == state.active,
{
}

} // verus!

verus! {

/// The exact origin that admission tracks for a URL: an HTTP(S) URL's origin
/// serialization; anything else is `Unavailable`.
pub open spec fn admission_origin_of(url: Seq<char>) -> Result<Seq<char>, AdmissionError> {
    match url_parts_of(url) {
        Some((scheme, _, _, _)) => if scheme == http_scheme() || scheme == https_scheme() {
            match url_origin_of(url) {
                Some(origin) => Ok(origin),
                None => Err(AdmissionError::Unavailable),
            }
        } else {
            Err(AdmissionError::Unavailable)
        },
        None => Err(AdmissionError::Unavailable),
    }
}

/// The origin key under which a request to `url` is admitted.
pub fn admission_origin(url: &str) -> (origin: Result<String, AdmissionError>)
    ensures
        origin is Ok <==> admission_origin_of(url@) is Ok,
        origin matches Ok(o) ==> admission_origin_of(url@) == Ok::<Seq<char>, AdmissionError>(o@),
        origin matches Err(e) ==> e == AdmissionError::Unavailable,
{
    let scheme = match parse_url_parts(url) {
        Some((scheme, _, _, _)) => scheme,
        None => return Err(AdmissionError::Unavailable),
    };
    if !is_web_scheme(scheme.as_str()) {
        return Err(AdmissionError::Unavailable);
    }
    match url_origin(url) {
        Some(origin) => Ok(origin),
        None => Err(AdmissionError::Unavailable),
    }
}

/// An entry must stay in the origin table while requests to it are admitted,
/// it is blocked, or its pressure is still remembered.
pub open spec fn kept_entry(state: OriginState, now: Instant) -> bool {
    state.active > 0 || state.blocked || state.retain_until.nanos > now.nanos
}

/// The entries that survive reclamation at `now`, in order.
pub open spec fn kept_entries(entries: Seq<(Seq<char>, OriginState)>, now: Instant) -> Seq<(Seq<char>, OriginState)>
    decreases entries.len(),
{
    if entries.len() == 0 {
        Seq::empty()
    } else {
        let rest = kept_entries(entries.drop_last(), now);
        if kept_entry(entries.last().1, now) {
            rest.push(entries.last())
        } else {
            rest
        }
    }
}

/// The entries a new admission domain inherits: blocked or still-remembered
/// pressure, with no requests and a cap no larger than its per-host limit.
pub open spec fn inherited_entries(entries: Seq<(Seq<char>, OriginState)>, per_host: usize, now: Instant) -> Seq<(Seq<char>, OriginState)>
    decreases entries.len(),
{
    if entries.len() == 0 {
        Seq::empty()
    } else {
        let rest = inherited_entries(entries.drop_last(), per_host, now);
        let (origin, state) = entries.last();
        if state.blocked || state.retain_until.nanos > now.nanos {
            rest.push((origin, OriginState {
                active: 0,
                limit: if state.limit <= per_host { state.limit } else { per_host },
                ..state
            }))
        } else {
            rest
        }
    }
}

/// Requests admitted across all entries.
pub open spec fn active_sum(entries: Seq<(Seq<char>, OriginState)>) -> int
    decreases entries.len(),
{
    if entries.len() == 0 {
        0
    } else {
        active_sum(entries.drop_last()) + entries.last().1.active
    }
}

/// Whether an entry for the origin exists.
pub open spec fn has_origin(entries: Seq<(Seq<char>, OriginState)>, origin: Seq<char>) -> bool {
    exists|i: int| 0 <= i < entries.len() && (#[trigger] entries[i]).0 == origin
}

/// No origin has two entries.
pub open spec fn distinct_origins(entries: Seq<(Seq<char>, OriginState)>) -> bool {
    forall|i: int, j: int| 0 <= i < j < entries.len() ==> (#[trigger] entries[i]).0 != (#[trigger] entries[j]).0
}

/// Each entry's requests and cap stay within the per-host limit, the cap is
/// at least one, and any cooldown lies within the range that a response
/// observed before `u64::MAX` nanoseconds can set.
pub open spec fn entry_bounded(state: OriginState, per_host: usize) -> bool {
    &&& state.active <= per_host
    &&& 1 <= state.limit <= per_host
    &&& (state.not_before matches Some(d) ==> d.nanos <= u64::MAX * NANOS_PER_SEC * 2)
}

/// A fresh entry for an origin seen at `now`.
pub open spec fn fresh_origin(per_host: usize, now: Instant) -> OriginState {
    OriginState { active: 0, limit: per_host, not_before: None, retain_until: now, blocked: false }
}

/// Exact-origin admission pressure of one admission domain: at most
/// `MAX_ORIGINS` entries, one per origin, and the domain's admitted requests
/// and their peak.
pub struct AdmissionState {
    per_host: usize,
    origins: Vec<String>,
    states: Vec<OriginState>,
    active: usize,
    peak: usize,
}

/// The entries of parallel origin and state vectors.
pub open spec fn zip_entries(origins: Seq<String>, states: Seq<OriginState>) -> Seq<(Seq<char>, OriginState)> {
    Seq::new(states.len(), |i: int| (origins[i]@, states[i]))
}

impl AdmissionState {
    pub closed spec fn spec_entries(&self) -> Seq<(Seq<char>, OriginState)> {
        zip_entries(self.origins@, self.states@)
    }

    pub closed spec fn spec_per_host(&self) -> usize {
        self.per_host
    }

    pub closed spec fn spec_active(&self) -> usize {
        self.active
    }

    pub closed spec fn spec_peak(&self) -> usize {
        self.peak
    }

    /// Entries are bounded and distinct, and the domain's admitted requests
    /// are exactly those of its entries, never above their peak.
    pub closed spec fn wf(&self) -> bool {
        &&& self.origins@.len() == self.states@.len()
        &&& self.states@.len() <= MAX_ORIGINS
        &&& 1 <= self.per_host <= 8
        &&& distinct_origins(self.spec_entries())
        &&& forall|i: int| 0 <= i < self.states@.len() ==> entry_bounded(#[trigger] self.states@[i], self.per_host)
        &&& self.active == active_sum(self.spec_entries())
        &&& self.active <= self.peak
    }
}

} // verus!

verus! {

proof fn lemma_kept_members(s: Seq<(Seq<char>, OriginState)>, now: Instant)
    ensures
        kept_entries(s, now).len() <= s.len(),
        forall|j: int| 0 <= j < kept_entries(s, now).len() ==> exists|i: int| 0 <= i < s.len()
            && s[i] == #[trigger] kept_entries(s, now)[j],
        forall|j: int| 0 <= j < kept_entries(s, now).len() ==> kept_entry(#[trigger] kept_entries(s, now)[j].1, now),
        forall|i: int| 0 <= i < s.len() && kept_entry(#[trigger] s[i].1, now) ==> has_origin(kept_entries(s, now), s[i].0),
    decreases s.len(),
{
    if s.len() > 0 {
        let prefix = s.drop_last();
        lemma_kept_members(prefix, now);
        let rest = kept_entries(prefix, now);
        let kept = kept_entries(s, now);
        assert forall|j: int| 0 <= j < kept.len() implies exists|i: int| 0 <= i < s.len() && s[i] == #[trigger] kept[j] by {
            if j < rest.len() {
                assert(kept[j] == rest[j]);
                let i = choose|i: int| 0 <= i < prefix.len() && prefix[i] == rest[j];
                assert(s[i] == prefix[i]);
            } else {
                assert(s[s.len() - 1] == kept[j]);
            }
        }
        assert forall|j: int| 0 <= j < kept.len() implies kept_entry(#[trigger] kept[j].1, now) by {
            if j < rest.len() {
                assert(kept[j] == rest[j]);
            }
        }
        assert forall|i: int| 0 <= i < s.len() && kept_entry(#[trigger] s[i].1, now) implies has_origin(kept, s[i].0) by {
            if i < s.len() - 1 {
                assert(prefix[i] == s[i]);
                assert(has_origin(rest, prefix[i].0));
                let j = choose|j: int| 0 <= j < rest.len() && (#[trigger] rest[j]).0 == prefix[i].0;
                assert(kept[j] == rest[j]);
            } else {
                assert(kept[kept.len() - 1] == s.last());
            }
        }
    }
}

proof fn lemma_kept_distinct(s: Seq<(Seq<char>, OriginState)>, now: Instant)
    requires
        distinct_origins(s),
    ensures
        distinct_origins(kept_entries(s, now)),
    decreases s.len(),
{
    if s.len() > 0 {
        let prefix = s.drop_last();
        assert(distinct_origins(prefix)) by {
            assert forall|i: int, j: int| 0 <= i < j < prefix.len() implies (#[trigger] prefix[i]).0 != (#[trigger] prefix[j]).0 by {
                assert(prefix[i] == s[i] && prefix[j] == s[j]);
            }
        }
        lemma_kept_distinct(prefix, now);
        lemma_kept_members(prefix, now);
        let rest = kept_entries(prefix, now);
        let kept = kept_entries(s, now);
        if kept_entry(s.last().1, now) {
            assert forall|i: int, j: int| 0 <= i < j < kept.len() implies (#[trigger] kept[i]).0 != (#[trigger] kept[j]).0 by {
                if j < rest.len() {
                    assert(kept[i] == rest[i] && kept[j] == rest[j]);
                } else {
                    assert(kept[i] == rest[i]);
                    assert(kept[j] == s.last());
                    let k = choose|k: int| 0 <= k < prefix.len() && prefix[k] == #[trigger] rest[i];
                    assert(s[k] == prefix[k]);
                    assert(s[k].0 != s[s.len() - 1].0);
                }
            }
        }
    }
}

proof fn lemma_kept_sum(s: Seq<(Seq<char>, OriginState)>, now: Instant)
    ensures
        active_sum(kept_entries(s, now)) == active_sum(s),
    decreases s.len(),
{
    if s.len() > 0 {
        lemma_kept_sum(s.drop_last(), now);
        let rest = kept_entries(s.drop_last(), now);
        if kept_entry(s.last().1, now) {
            assert(rest.push(s.last()).drop_last() =~= rest);
        }
    }
}

proof fn lemma_sum_bounded(s: Seq<(Seq<char>, OriginState)>, bound: int)
    requires
        bound >= 0,
        forall|i: int| 0 <= i < s.len() ==> (#[trigger] s[i]).1.active <= bound,
    ensures
        0 <= active_sum(s) <= s.len() * bound,
    decreases s.len(),
{
    if s.len() > 0 {
        let prefix = s.drop_last();
        assert forall|i: int| 0 <= i < prefix.len() implies (#[trigger] prefix[i]).1.active <= bound by {
            assert(prefix[i] == s[i]);
        }
        lemma_sum_bounded(prefix, bound);
        assert(s[s.len() - 1].1.active <= bound);
        assert((s.len() - 1) * bound + bound == s.len() * bound) by (nonlinear_arith);
    }
}

proof fn lemma_sum_update(s: Seq<(Seq<char>, OriginState)>, i: int, e: (Seq<char>, OriginState))
    requires
        0 <= i < s.len(),
    ensures
        active_sum(s.update(i, e)) == active_sum(s) - s[i].1.active + e.1.active,
    decreases s.len(),
{
    if i < s.len() - 1 {
        assert(s.update(i, e).drop_last() =~= s.drop_last().update(i, e));
        lemma_sum_update(s.drop_last(), i, e);
    } else {
        assert(s.update(i, e).drop_last() =~= s.drop_last());
    }
}

proof fn lemma_sum_push(s: Seq<(Seq<char>, OriginState)>, e: (Seq<char>, OriginState))
    ensures
        active_sum(s.push(e)) == active_sum(s) + e.1.active,
{
    assert(s.push(e).drop_last() =~= s);
}

} // verus!

verus! {

/// The entry a new domain inherits from one with pressure.
pub open spec fn inherited_entry(state: OriginState, per_host: usize) -> OriginState {
    OriginState { active: 0, limit: if state.limit <= per_host { state.limit } else { per_host }, ..state }
}

proof fn lemma_inherited(s: Seq<(Seq<char>, OriginState)>, per_host: usize, now: Instant)
    ensures
        inherited_entries(s, per_host, now).len() <= s.len(),
        forall|j: int| 0 <= j < inherited_entries(s, per_host, now).len() ==> exists|i: int| 0 <= i < s.len()
            && #[trigger] inherited_entries(s, per_host, now)[j] == (s[i].0, inherited_entry(s[i].1, per_host)),
        active_sum(inherited_entries(s, per_host, now)) == 0,
        distinct_origins(s) ==> distinct_origins(inherited_entries(s, per_host, now)),
    decreases s.len(),
{
    if s.len() > 0 {
        let prefix = s.drop_last();
        lemma_inherited(prefix, per_host, now);
        let rest = inherited_entries(prefix, per_host, now);
        let all = inherited_entries(s, per_host, now);
        let (origin, state) = s.last();
        assert forall|j: int| 0 <= j < all.len() implies exists|i: int| 0 <= i < s.len()
            && #[trigger] all[j] == (s[i].0, inherited_entry(s[i].1, per_host)) by {
            if j < rest.len() {
                assert(all[j] == rest[j]);
                let i = choose|i: int| 0 <= i < prefix.len() && #[trigger] rest[j] == (prefix[i].0, inherited_entry(prefix[i].1, per_host));
                assert(s[i] == prefix[i]);
            } else {
                assert(all[j] == (s[s.len() - 1].0, inherited_entry(s[s.len() - 1].1, per_host)));
            }
        }
        if state.blocked || state.retain_until.nanos > now.nanos {
            lemma_sum_push(rest, (origin, inherited_entry(state, per_host)));
        }
        if distinct_origins(s) {
            assert(distinct_origins(prefix)) by {
                assert forall|i: int, j: int| 0 <= i < j < prefix.len() implies (#[trigger] prefix[i]).0 != (#[trigger] prefix[j]).0 by {
                    assert(prefix[i] == s[i] && prefix[j] == s[j]);
                }
            }
            if state.blocked || state.retain_until.nanos > now.nanos {
                assert forall|i: int, j: int| 0 <= i < j < all.len() implies (#[trigger] all[i]).0 != (#[trigger] all[j]).0 by {
                    if j < rest.len() {
                        assert(all[i] == rest[i] && all[j] == rest[j]);
                    } else {
                        assert(all[i] == rest[i]);
                        let k = choose|k: int| 0 <= k < prefix.len() && #[trigger] rest[i] == (prefix[k].0, inherited_entry(prefix[k].1, per_host));
                        assert(s[k] == prefix[k]);
                        assert(s[k].0 != s[s.len() - 1].0);
                    }
                }
            }
        }
    }
}

proof fn lemma_sum_zero(s: Seq<(Seq<char>, OriginState)>)
    requires
        active_sum(s) == 0,
    ensures
        forall|i: int| 0 <= i < s.len() ==> (#[trigger] s[i]).1.active == 0,
    decreases s.len(),
{
    if s.len() > 0 {
        let prefix = s.drop_last();
        lemma_sum_bounded(prefix, usize::MAX as int);
        lemma_sum_zero(prefix);
        assert forall|i: int| 0 <= i < s.len() implies (#[trigger] s[i]).1.active == 0 by {
            if i < prefix.len() {
                assert(prefix[i] == s[i]);
            }
        }
    }
}

impl AdmissionState {
    /// A fresh domain with no tracked origin.
    pub fn new(limits: ConcurrencyLimits) -> (state: AdmissionState)
        ensures
            state.wf(),
            state.spec_entries() == Seq::<(Seq<char>, OriginState)>::empty(),
            state.spec_per_host() == limits.spec_per_host(),
            state.spec_active() == 0,
            state.spec_peak() == 0,
    {
        let per_host = limits.per_host();
        let state = AdmissionState { per_host, origins: Vec::new(), states: Vec::new(), active: 0, peak: 0 };
        proof {
            assert(state.spec_entries() =~= Seq::<(Seq<char>, OriginState)>::empty());
        }
        state
    }

    /// Current locally admitted HTTP requests.
    pub fn active(&self) -> (n: usize)
        ensures
            n == self.spec_active(),
    {
        self.active
    }

    /// Peak locally admitted HTTP requests.
    pub fn peak(&self) -> (n: usize)
        ensures
            n == self.spec_peak(),
    {
        self.peak
    }

    /// Tracked origins.
    pub fn len(&self) -> (n: usize)
        requires
            self.wf(),
        ensures
            n == self.spec_entries().len(),
    {
        self.states.len()
    }

    /// The pressure state of one tracked origin.
    pub fn entry(&self, slot: usize) -> (state: OriginState)
        requires
            self.wf(),
            slot < self.spec_entries().len(),
        ensures
            state == self.spec_entries()[slot as int].1,
    {
        self.states[slot]
    }

    /// Drops the entries that no request uses and no pressure keeps.
    fn reclaim(&mut self, now: Instant)
        requires
            old(self).wf(),
        ensures
            final(self).wf(),
            final(self).spec_entries() == kept_entries(old(self).spec_entries(), now),
            final(self).spec_per_host() == old(self).spec_per_host(),
            final(self).spec_active() == old(self).spec_active(),
            final(self).spec_peak() == old(self).spec_peak(),
    {
        let ghost entries = self.spec_entries();
        let mut origins: Vec<String> = Vec::new();
        let mut states: Vec<OriginState> = Vec::new();
        let mut i: usize = 0;
        proof {
            assert(zip_entries(origins@, states@) =~= kept_entries(entries.take(0), now));
        }
        while i < self.states.len()
            invariant
                self.wf(),
                entries == self.spec_entries(),
                0 <= i <= entries.len(),
                origins@.len() == states@.len(),
                zip_entries(origins@, states@) == kept_entries(entries.take(i as int), now),
            decreases entries.len() - i,
        {
            let state = self.states[i];
            proof {
                assert(entries.take(i + 1).drop_last() =~= entries.take(i as int));
                assert(entries.take(i + 1).last() == entries[i as int]);
            }
            if state.active > 0 || state.blocked || state.retain_until.nanos > now.nanos {
                let ghost before = zip_entries(origins@, states@);
                origins.push(self.origins[i].clone());
                states.push(state);
                proof {
                    assert(zip_entries(origins@, states@) =~= before.push(entries[i as int]));
                }
            }
            i += 1;
        }
        proof {
            assert(entries.take(entries.len() as int) =~= entries);
            lemma_kept_members(entries, now);
            lemma_kept_distinct(entries, now);
            lemma_kept_sum(entries, now);
            let kept = kept_entries(entries, now);
            assert forall|j: int| 0 <= j < states@.len() implies entry_bounded(#[trigger] states@[j], self.per_host) by {
                assert(kept[j] == zip_entries(origins@, states@)[j]);
                let k = choose|k: int| 0 <= k < entries.len() && entries[k] == #[trigger] kept[j];
                assert(entries[k].1 == self.states@[k]);
            }
        }
        self.origins = origins;
        self.states = states;
    }

    /// Finds the slot of a tracked origin.
    fn find(&self, origin: &str) -> (slot: Option<usize>)
        requires
            self.wf(),
        ensures
            slot matches Some(i) ==> i < self.spec_entries().len() && self.spec_entries()[i as int].0 == origin@,
            slot is None ==> !has_origin(self.spec_entries(), origin@),
    {
        let mut j: usize = 0;
        while j < self.origins.len()
            invariant
                self.wf(),
                0 <= j <= self.spec_entries().len(),
                forall|k: int| 0 <= k < j ==> (#[trigger] self.spec_entries()[k]).0 != origin@,
            decreases self.spec_entries().len() - j,
        {
            if same_text(self.origins[j].as_str(), origin) {
                return Some(j);
            }
            j += 1;
        }
        None
    }

    /// The slot for an origin: reclaims idle entries, then finds the
    /// origin's entry or adds a fresh one at the end; fails with
    /// `Unavailable` when the table is full.
    pub fn origin_slot(&mut self, origin: &str, now: Instant) -> (slot: Result<usize, AdmissionError>)
        requires
            old(self).wf(),
        ensures
            final(self).wf(),
            final(self).spec_per_host() == old(self).spec_per_host(),
            final(self).spec_active() == old(self).spec_active(),
            final(self).spec_peak() == old(self).spec_peak(),
            has_origin(kept_entries(old(self).spec_entries(), now), origin@) ==> final(self).spec_entries()
                == kept_entries(old(self).spec_entries(), now) && (slot matches Ok(i)
                && i < final(self).spec_entries().len() && final(self).spec_entries()[i as int].0 == origin@),
            !has_origin(kept_entries(old(self).spec_entries(), now), origin@)
                && kept_entries(old(self).spec_entries(), now).len() < MAX_ORIGINS ==> final(self).spec_entries()
                == kept_entries(old(self).spec_entries(), now).push((origin@, fresh_origin(old(self).spec_per_host(), now)))
                && slot == Ok::<usize, AdmissionError>(kept_entries(old(self).spec_entries(), now).len() as usize),
            !has_origin(kept_entries(old(self).spec_entries(), now), origin@)
                && kept_entries(old(self).spec_entries(), now).len() >= MAX_ORIGINS ==> final(self).spec_entries()
                == kept_entries(old(self).spec_entries(), now) && slot == Err::<usize, AdmissionError>(AdmissionError::Unavailable),
    {
        self.reclaim(now);
        if let Some(i) = self.find(origin) {
            return Ok(i);
        }
        if self.states.len() >= MAX_ORIGINS {
            return Err(AdmissionError::Unavailable);
        }
        let ghost before = self.spec_entries();
        let fresh = OriginState::new(self.per_host, now);
        self.origins.push(origin.to_string());
        self.states.push(fresh);
        proof {
            assert(self.spec_entries() =~= before.push((origin@, fresh_origin(self.per_host, now))));
            lemma_sum_push(before, (origin@, fresh_origin(self.per_host, now)));
            let after = self.spec_entries();
            assert forall|i: int, j: int| 0 <= i < j < after.len() implies (#[trigger] after[i]).0 != (#[trigger] after[j]).0 by {
                if j < before.len() {
                    assert(after[i] == before[i] && after[j] == before[j]);
                } else {
                    assert(after[i] == before[i]);
                }
            }
        }
        Ok(self.states.len() - 1)
    }
}

} // verus!

verus! {

impl AdmissionState {
    /// Admits one request to the origin in `slot` when it may start now
    /// (re-checked after a global slot was acquired); returns whether it
    /// started. An admitted request counts toward the domain and its peak.
    pub fn try_start(&mut self, slot: usize, now: Instant) -> (started: Result<bool, AdmissionError>)
        requires
            old(self).wf(),
            slot < old(self).spec_entries().len(),
        ensures
            final(self).wf(),
            final(self).spec_per_host() == old(self).spec_per_host(),
            old(self).spec_entries()[slot as int].1.blocked ==> started == Err::<bool, AdmissionError>(AdmissionError::ServerDelay),
            !old(self).spec_entries()[slot as int].1.blocked ==> started == Ok::<bool, AdmissionError>(
                may_start(old(self).spec_entries()[slot as int].1, now)),
            started == Ok::<bool, AdmissionError>(true) ==> {
                let (origin, state) = old(self).spec_entries()[slot as int];
                &&& final(self).spec_entries() == old(self).spec_entries().update(
                    slot as int, (origin, OriginState { active: (state.active + 1) as usize, ..state }))
                &&& final(self).spec_active() == old(self).spec_active() + 1
                &&& final(self).spec_peak() == if old(self).spec_active() + 1 > old(self).spec_peak() {
                    (old(self).spec_active() + 1) as usize
                } else {
                    old(self).spec_peak()
                }
            },
            started != Ok::<bool, AdmissionError>(true) ==> final(self).spec_entries() == old(self).spec_entries()
                && final(self).spec_active() == old(self).spec_active() && final(self).spec_peak() == old(self).spec_peak(),
    {
        let ghost entries = self.spec_entries();
        let mut state = self.states[slot];
        let started = state.try_start(now);
        if let Ok(true) = started {
            proof {
                assert(entry_bounded(entries[slot as int].1, self.per_host));
                lemma_sum_update(entries, slot as int, (entries[slot as int].0, state));
                lemma_sum_bounded(entries, self.per_host as int);
                assert(entries.len() * (self.per_host as int) <= 1024 * 8) by (nonlinear_arith)
                    requires
                        0 <= entries.len() <= 1024,
                        0 <= self.per_host <= 8;
            }
            self.states.set(slot, state);
            self.active = self.active + 1;
            if self.active > self.peak {
                self.peak = self.active;
            }
            proof {
                assert(self.spec_entries() =~= entries.update(slot as int, (entries[slot as int].0, state)));
                let after = self.spec_entries();
                assert forall|i: int, j: int| 0 <= i < j < after.len() implies (#[trigger] after[i]).0 != (#[trigger] after[j]).0 by {
                    assert(after[i].0 == entries[i].0 && after[j].0 == entries[j].0);
                }
                assert forall|i: int| 0 <= i < self.states@.len() implies entry_bounded(#[trigger] self.states@[i], self.per_host) by {
                    if i != slot {
                        assert(self.states@[i] == entries[i].1);
                    }
                }
            }
        }
        started
    }

    /// Records a response's status and guidance for the origin in `slot`
    /// (see [`observed`]).
    pub fn observe(&mut self, slot: usize, status: u16, retry_after_seconds: Option<u64>, now: Instant)
        requires
            old(self).wf(),
            slot < old(self).spec_entries().len(),
            now.nanos <= u64::MAX,
        ensures
            final(self).wf(),
            final(self).spec_per_host() == old(self).spec_per_host(),
            final(self).spec_active() == old(self).spec_active(),
            final(self).spec_peak() == old(self).spec_peak(),
            final(self).spec_entries() == old(self).spec_entries().update(
                slot as int,
                (
                    old(self).spec_entries()[slot as int].0,
                    observed(old(self).spec_entries()[slot as int].1, status, retry_after_seconds, now),
                ),
            ),
    {
        let ghost entries = self.spec_entries();
        let mut state = self.states[slot];
        proof {
            assert(entry_bounded(entries[slot as int].1, self.per_host));
            lemma_pressure_only_tightens(state, status, retry_after_seconds, now);
        }
        state.observe(status, retry_after_seconds, now);
        proof {
            lemma_sum_update(entries, slot as int, (entries[slot as int].0, state));
        }
        self.states.set(slot, state);
        proof {
            assert(self.spec_entries() =~= entries.update(slot as int, (entries[slot as int].0, state)));
            let after = self.spec_entries();
            assert forall|i: int, j: int| 0 <= i < j < after.len() implies (#[trigger] after[i]).0 != (#[trigger] after[j]).0 by {
                assert(after[i].0 == entries[i].0 && after[j].0 == entries[j].0);
            }
            assert forall|i: int| 0 <= i < self.states@.len() implies entry_bounded(#[trigger] self.states@[i], self.per_host) by {
                if i != slot {
                    assert(self.states@[i] == entries[i].1);
                }
            }
        }
    }

    /// A finished request releases its origin's slot and the domain's count.
    pub fn release(&mut self, slot: usize)
        requires
            old(self).wf(),
            slot < old(self).spec_entries().len(),
            old(self).spec_entries()[slot as int].1.active > 0,
        ensures
            final(self).wf(),
            final(self).spec_per_host() == old(self).spec_per_host(),
            final(self).spec_active() == old(self).spec_active() - 1,
            final(self).spec_peak() == old(self).spec_peak(),
            final(self).spec_entries() == old(self).spec_entries().update(
                slot as int,
                (
                    old(self).spec_entries()[slot as int].0,
                    OriginState {
                        active: (old(self).spec_entries()[slot as int].1.active - 1) as usize,
                        ..old(self).spec_entries()[slot as int].1
                    },
                ),
            ),
    {
        let ghost entries = self.spec_entries();
        let mut state = self.states[slot];
        state.release();
        proof {
            lemma_sum_update(entries, slot as int, (entries[slot as int].0, state));
            lemma_sum_bounded(entries.update(slot as int, (entries[slot as int].0, state)), usize::MAX as int);
        }
        self.states.set(slot, state);
        self.active = self.active - 1;
        proof {
            assert(self.spec_entries() =~= entries.update(slot as int, (entries[slot as int].0, state)));
            let after = self.spec_entries();
            assert forall|i: int, j: int| 0 <= i < j < after.len() implies (#[trigger] after[i]).0 != (#[trigger] after[j]).0 by {
                assert(after[i].0 == entries[i].0 && after[j].0 == entries[j].0);
            }
            assert forall|i: int| 0 <= i < self.states@.len() implies entry_bounded(#[trigger] self.states@[i], self.per_host) by {
                if i != slot {
                    assert(self.states@[i] == entries[i].1);
                }
            }
        }
    }

    /// Copies the pressure that `previous` still remembers into this fresh
    /// domain: both must be idle and this one must track nothing yet. Each
    /// blocked or remembered origin is inherited with no requests and a cap
    /// no larger than this domain's per-host limit.
    pub fn inherit_pressure(&mut self, previous: &AdmissionState, now: Instant) -> (inherited: Result<(), AdmissionError>)
        requires
            old(self).wf(),
            previous.wf(),
        ensures
            final(self).wf(),
            final(self).spec_per_host() == old(self).spec_per_host(),
            final(self).spec_active() == old(self).spec_active(),
            final(self).spec_peak() == old(self).spec_peak(),
            inherited is Err <==> (old(self).spec_active() != 0 || previous.spec_active() != 0
                || old(self).spec_entries().len() > 0),
            inherited matches Err(e) ==> e == AdmissionError::Unavailable && final(self).spec_entries() == old(self).spec_entries(),
            inherited is Ok ==> final(self).spec_entries() == inherited_entries(
                previous.spec_entries(), old(self).spec_per_host(), now),
    {
        if self.active != 0 || previous.active != 0 || self.states.len() != 0 {
            return Err(AdmissionError::Unavailable);
        }
        let ghost source = previous.spec_entries();
        let ghost per_host = self.per_host;
        let ghost peak = self.peak;
        proof {
            lemma_sum_zero(source);
        }
        let mut i: usize = 0;
        while i < previous.states.len()
            invariant
                self.wf(),
                previous.wf(),
                source == previous.spec_entries(),
                forall|k: int| 0 <= k < source.len() ==> (#[trigger] source[k]).1.active == 0,
                self.active == 0,
                self.per_host == per_host,
                self.peak == peak,
                0 <= i <= source.len(),
                self.spec_entries() == inherited_entries(source.take(i as int), self.per_host, now),
            decreases source.len() - i,
        {
            let state = previous.states[i];
            proof {
                assert(source.take(i + 1).drop_last() =~= source.take(i as int));
                assert(source.take(i + 1).last() == source[i as int]);
            }
            if state.active != 0 {
                return Err(AdmissionError::Unavailable);
            }
            if state.blocked || state.retain_until.nanos > now.nanos {
                let ghost before = self.spec_entries();
                let copy = state.inherited(self.per_host);
                proof {
                    lemma_inherited(source.take(i as int), self.per_host, now);
                    lemma_sum_push(before, (source[i as int].0, copy));
                    assert(previous.states@[i as int] == source[i as int].1);
                    assert(entry_bounded(state, previous.per_host));
                    assert forall|a: int, b: int| 0 <= a < b < source.len() implies (#[trigger] source[a]).0 != (#[trigger] source[b]).0 by {}
                    assert forall|k: int| 0 <= k < before.len() implies (#[trigger] before[k]).0 != source[i as int].0 by {
                        let m = choose|m: int| 0 <= m < source.take(i as int).len()
                            && #[trigger] before[k] == (source.take(i as int)[m].0, inherited_entry(source.take(i as int)[m].1, self.per_host));
                        assert(source.take(i as int)[m] == source[m]);
                    }
                }
                self.origins.push(previous.origins[i].clone());
                self.states.push(copy);
                proof {
                    assert(self.spec_entries() =~= before.push((source[i as int].0, copy)));
                    let after = self.spec_entries();
                    assert forall|a: int, b: int| 0 <= a < b < after.len() implies (#[trigger] after[a]).0 != (#[trigger] after[b]).0 by {
                        if b < before.len() {
                            assert(after[a] == before[a] && after[b] == before[b]);
                        } else {
                            assert(after[a] == before[a]);
                        }
                    }
                    assert forall|k: int| 0 <= k < self.states@.len() implies entry_bounded(#[trigger] self.states@[k], self.per_host) by {
                        if k < before.len() {
                            assert(self.states@[k] == before[k].1);
                        }
                    }
                    lemma_inherited(source.take(i as int), self.per_host, now);
                    assert(self.states@.len() <= i + 1);
                }
            }
            i += 1;
        }
        proof {
            assert(source.take(source.len() as int) =~= source);
        }
        Ok(())
    }
}

} // verus!

verus! {

/// Reclamation keeps exactly what it must: every entry with admitted
/// requests, a block or remembered pressure survives with its origin, only
/// such entries survive, and no admitted request is forgotten.
pub proof fn lemma_reclaim_keeps_pressure(entries: Seq<(Seq<char>, OriginState)>, now: Instant)
    ensures
        forall|i: int| 0 <= i < entries.len() && kept_entry(#[trigger] entries[i].1, now)
            ==> has_origin(kept_entries(entries, now), entries[i].0),
        forall|j: int| 0 <= j < kept_entries(entries, now).len() ==> kept_entry(#[trigger] kept_entries(entries, now)[j].1, now),
        active_sum(kept_entries(entries, now)) == active_sum(entries),
        distinct_origins(entries) ==> distinct_origins(kept_entries(entries, now)),
{
    lemma_kept_members(entries, now);
    lemma_kept_sum(entries, now);
    if distinct_origins(entries) {
        lemma_kept_distinct(entries, now);
    }
}

/// Every admission domain tracks at most `MAX_ORIGINS` distinct origins, its
/// admitted requests are exactly those of its origins, and its peak is never
/// below them.
pub proof fn lemma_admission_accounting(state: &AdmissionState)
    requires
        state.wf(),
    ensures
        state.spec_entries().len() <= MAX_ORIGINS,
        distinct_origins(state.spec_entries()),
        state.spec_active() == active_sum(state.spec_entries()),
        state.spec_active() <= state.spec_peak(),
        forall|i: int| 0 <= i < state.spec_entries().len() ==> (#[trigger] state.spec_entries()[i]).1.limit >= 1,
{
    assert forall|i: int| 0 <= i < state.spec_entries().len() implies (#[trigger] state.spec_entries()[i]).1.limit >= 1 by {
        assert(entry_bounded(state.states@[i], state.per_host));
    }
}

} // verus!
