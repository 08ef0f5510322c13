use download_manager_engine::admission::{
    AdmissionError, AdmissionState, MAX_ORIGINS, MAX_SERVER_DELAY, OriginState, admission_origin,
};
use download_manager_engine::clock::Instant;
use download_manager_engine::scheduler::ConcurrencyLimits;

const SECOND: u128 = 1_000_000_000;

#[test]
fn bounded_origin_table_retains_guidance_and_reclaims_only_idle_unpenalized_entries() {
    let now = Instant { nanos: 10 * SECOND };
    let mut admission = AdmissionState::new(ConcurrencyLimits::default());
    // Retained blocked entries must not be evicted just to send early to a
    // penalized origin. The cap remains explicit even under hostile peers.
    for index in 0..MAX_ORIGINS {
        let origin = admission_origin(&format!("https://o{index}.example.test/file")).expect("URL");
        let slot = admission.origin_slot(&origin, now).expect("bounded origin");
        assert_eq!(admission.try_start(slot, now), Ok(true));
        admission.observe(slot, 503, Some(MAX_SERVER_DELAY + 1), now);
        admission.release(slot);
    }
    let next = admission_origin("https://extra.example.test/file").expect("URL");
    assert_eq!(admission.origin_slot(&next, now), Err(AdmissionError::Unavailable));
    let mut fresh = AdmissionState::new(ConcurrencyLimits::default());
    for index in 0..=MAX_ORIGINS {
        let origin = admission_origin(&format!("https://o{index}.example.test/file")).expect("URL");
        let slot = fresh.origin_slot(&origin, now).expect("idle origin reclaimed");
        assert_eq!(fresh.try_start(slot, now), Ok(true));
        fresh.release(slot);
    }
    assert_eq!(fresh.active(), 0);
    assert_eq!(fresh.peak(), 1);
}

#[test]
fn admission_origins_are_exact_web_origins() {
    assert_eq!(admission_origin("https://example.test:443/a?b#c").as_deref(), Ok("https://example.test"));
    assert_eq!(admission_origin("http://example.test:8080/a").as_deref(), Ok("http://example.test:8080"));
    assert_eq!(admission_origin("ftp://example.test/a"), Err(AdmissionError::Unavailable));
    assert_eq!(admission_origin("not a url"), Err(AdmissionError::Unavailable));
}

#[test]
fn overload_halves_the_cap_and_delays_the_origin() {
    let start = Instant { nanos: 100 * SECOND };
    let limits = ConcurrencyLimits::new(4, 16).expect("limits");
    let mut admission = AdmissionState::new(limits);
    let slot = admission.origin_slot("https://example.test", start).expect("slot");
    assert_eq!(admission.try_start(slot, start), Ok(true));
    assert_eq!(admission.try_start(slot, start), Ok(true));
    assert_eq!(admission.active(), 2);
    admission.observe(slot, 429, Some(2), start);
    let state = admission.entry(slot);
    assert_eq!(state.limit, 2);
    assert_eq!(state.not_before, Some(Instant { nanos: 102 * SECOND }));
    assert_eq!(state.retain_until, Instant { nanos: 162 * SECOND });
    admission.release(slot);
    assert_eq!(admission.try_start(slot, Instant { nanos: 101 * SECOND }), Ok(false));
    assert_eq!(admission.try_start(slot, Instant { nanos: 102 * SECOND }), Ok(true));
    assert_eq!(admission.peak(), 2);
    admission.observe(slot, 200, None, start);
    assert_eq!(admission.entry(slot).limit, 2);
}

#[test]
fn oversized_guidance_blocks_the_origin() {
    let now = Instant { nanos: SECOND };
    let mut admission = AdmissionState::new(ConcurrencyLimits::default());
    let slot = admission.origin_slot("https://example.test", now).expect("slot");
    assert_eq!(admission.try_start(slot, now), Ok(true));
    admission.observe(slot, 503, Some(MAX_SERVER_DELAY + 1), now);
    assert_eq!(admission.try_start(slot, now), Err(AdmissionError::ServerDelay));
    admission.release(slot);
    assert!(admission.entry(slot).blocked);
}

#[test]
fn pressure_is_inherited_only_into_an_idle_empty_domain() {
    let now = Instant { nanos: SECOND };
    let mut previous = AdmissionState::new(ConcurrencyLimits::default());
    let penalized = previous.origin_slot("https://slow.example.test", now).expect("slot");
    assert_eq!(previous.try_start(penalized, now), Ok(true));
    previous.observe(penalized, 503, Some(5), now);
    previous.release(penalized);
    let idle = previous.origin_slot("https://fine.example.test", now).expect("slot");
    assert_eq!(previous.try_start(idle, now), Ok(true));
    previous.release(idle);

    let mut next = AdmissionState::new(ConcurrencyLimits::new(2, 4).expect("limits"));
    assert_eq!(next.inherit_pressure(&previous, now), Ok(()));
    assert_eq!(next.len(), 1);
    let inherited: OriginState = next.entry(0);
    assert_eq!(inherited.limit, 2);
    assert_eq!(inherited.active, 0);
    assert_eq!(inherited.not_before, Some(Instant { nanos: 6 * SECOND }));
    assert_eq!(next.inherit_pressure(&previous, now), Err(AdmissionError::Unavailable));
}
