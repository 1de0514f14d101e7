use sculpt_lite::arithmetic::{Arithmetic, Operations};
use sculpt_lite::input::{Modifiers, ScreenPoint};
use sculpt_lite::stroke::{StrokePoint, StrokeSampler};

const MILLISECOND: u128 = 1_000_000;

fn bits(value: f32) -> u32 {
    value.to_bits()
}

fn number(bits: u32) -> f32 {
    f32::from_bits(bits)
}

fn ops() -> impl Arithmetic {
    Operations {
        sum: |a: u32, b: u32| bits(number(a) + number(b)),
        difference: |a: u32, b: u32| bits(number(a) - number(b)),
        product: |a: u32, b: u32| bits(number(a) * number(b)),
        quotient: |a: u32, b: u32| bits(number(a) / number(b)),
        root: |a: u32| bits(number(a).sqrt()),
        count: |items: usize| bits(items as f32),
    }
}

fn none() -> Modifiers {
    Modifiers { alt: false, ctrl: false, shift: false, mac_cmd: false, command: false }
}

fn at(x: f32, y: f32) -> ScreenPoint {
    ScreenPoint { x: bits(x), y: bits(y) }
}

fn positions(dabs: &[StrokePoint<u8>]) -> Vec<[f32; 2]> {
    dabs.iter().map(|point| [number(point.position.x), number(point.position.y)]).collect()
}

fn sampler(pointer: ScreenPoint) -> StrokeSampler<u8> {
    StrokeSampler::begin(pointer, none(), bits(10.0), 0, 0)
}

fn enqueue(sampler: &mut StrokeSampler<u8>, x: f32) {
    sampler.enqueue_pointer(at(x, 0.0), none(), bits(10.0), 0);
}

fn next(sampler: &mut StrokeSampler<u8>) -> Option<StrokePoint<u8>> {
    sampler.next_spatial_dab(&ops(), &|x: u32, y: u32| bits(number(x).hypot(number(y))))
}

fn drain(sampler: &mut StrokeSampler<u8>, limit: usize) -> Vec<StrokePoint<u8>> {
    (0..limit).map_while(|_| next(sampler)).collect()
}

fn delta(offset: Option<ScreenPoint>) -> Option<[f32; 2]> {
    offset.map(|offset| [number(offset.x), number(offset.y)])
}

#[test]
fn movement_below_spacing_accumulates_until_one_dab_is_due() {
    let mut sampler = sampler(at(0.0, 0.0));
    enqueue(&mut sampler, 4.0);
    assert!(drain(&mut sampler, 64).is_empty());
    enqueue(&mut sampler, 9.0);
    assert!(drain(&mut sampler, 64).is_empty());
    enqueue(&mut sampler, 12.0);

    assert_eq!(positions(&drain(&mut sampler, 64)), [[10.0, 0.0]]);
}

#[test]
fn initial_dab_is_available_exactly_once() {
    let pointer = at(12.0, 34.0);
    let mut sampler = sampler(pointer);

    let dab = sampler.take_initial_dab().unwrap();
    assert_eq!(dab.position, pointer);
    assert_eq!(dab.modifiers, none());
    assert_eq!(number(dab.spacing), 10.0);
    assert_eq!(dab.context, 0);
    assert!(sampler.take_initial_dab().is_none());
}

#[test]
fn event_partitioning_does_not_change_spatial_dabs() {
    let mut one_segment = sampler(at(0.0, 0.0));
    enqueue(&mut one_segment, 35.0);
    let one_segment = drain(&mut one_segment, 64);

    let mut many_segments = sampler(at(0.0, 0.0));
    let mut many_dabs = Vec::new();
    for x in [3.0, 11.0, 17.0, 26.0, 35.0] {
        enqueue(&mut many_segments, x);
        many_dabs.extend(drain(&mut many_segments, 64));
    }

    assert_eq!(positions(&one_segment), positions(&many_dabs));
    assert_eq!(positions(&one_segment), [[10.0, 0.0], [20.0, 0.0], [30.0, 0.0]]);
}

#[test]
fn work_budget_retains_the_unprocessed_path() {
    let mut sampler = sampler(at(0.0, 0.0));
    enqueue(&mut sampler, 100.0);

    assert_eq!(drain(&mut sampler, 3).len(), 3);
    assert!(sampler.has_pending_path());
    assert_eq!(
        positions(&drain(&mut sampler, 64)),
        [
            [40.0, 0.0],
            [50.0, 0.0],
            [60.0, 0.0],
            [70.0, 0.0],
            [80.0, 0.0],
            [90.0, 0.0],
            [100.0, 0.0],
        ]
    );
    assert!(!sampler.has_pending_path());
}

#[test]
fn releasing_a_stroke_does_not_discard_queued_path() {
    let mut sampler = sampler(at(0.0, 0.0));
    enqueue(&mut sampler, 100.0);
    sampler.release();

    assert_eq!(drain(&mut sampler, 2).len(), 2);
    assert!(sampler.is_released());
    assert!(sampler.has_pending_path());
}

#[test]
fn airbrush_waits_for_rate_and_does_not_catch_up() {
    let started: u128 = 7_000 * MILLISECOND;
    let mut sampler = StrokeSampler::begin(at(0.0, 0.0), none(), bits(10.0), 0u8, started);
    let interval = 100 * MILLISECOND;
    sampler.advance_to(started + 99 * MILLISECOND);
    assert!(!sampler.airbrush_due(interval));
    sampler.advance_to(started + 100 * MILLISECOND);
    assert!(sampler.airbrush_due(interval));

    sampler.record_spatial_dab();
    assert!(!sampler.airbrush_due(interval));
    assert_eq!(sampler.airbrush_wait(interval), interval);
}

#[test]
fn airbrush_dab_restarts_spatial_spacing_at_current_pointer() {
    let mut sampler = sampler(at(0.0, 0.0));
    enqueue(&mut sampler, 9.0);
    assert!(drain(&mut sampler, 64).is_empty());
    sampler.record_airbrush_dab();
    enqueue(&mut sampler, 11.0);

    assert!(drain(&mut sampler, 64).is_empty());
}

#[test]
fn grab_uses_raw_pointer_delta_without_a_backlog() {
    let mut sampler = sampler(at(2.0, 3.0));

    assert_eq!(
        delta(sampler.consume_grab_delta(at(25.0, 8.0), &ops())),
        Some([23.0, 5.0])
    );
    assert!(!sampler.has_pending_path());
}

#[test]
fn switching_to_grab_preserves_the_queued_semantic_path() {
    let mut sampler = sampler(at(0.0, 0.0));
    let shift = Modifiers { shift: true, ..none() };
    sampler.enqueue_pointer(at(40.0, 0.0), shift, bits(10.0), 7);
    assert!(next(&mut sampler).is_some());
    assert!(sampler.has_pending_path());

    assert_eq!(delta(sampler.consume_grab_delta(at(50.0, 0.0), &ops())), None);
    let queued = drain(&mut sampler, 8);

    assert_eq!(
        positions(&queued),
        [[20.0, 0.0], [30.0, 0.0], [40.0, 0.0], [50.0, 0.0]]
    );
    assert!(queued.iter().all(|dab| dab.context == 7));
    assert_eq!(
        delta(sampler.consume_grab_delta(at(55.0, 0.0), &ops())),
        Some([5.0, 0.0])
    );
}

#[test]
fn queued_dabs_keep_the_modifiers_from_their_pointer_segment() {
    let mut sampler = sampler(at(0.0, 0.0));
    let control = Modifiers { ctrl: true, ..none() };
    sampler.enqueue_pointer(at(20.0, 0.0), control, bits(10.0), 7);

    let dabs = drain(&mut sampler, 2);

    assert_eq!(dabs.len(), 2);
    assert!(dabs.iter().all(|dab| dab.modifiers.ctrl));
    assert!(dabs.iter().all(|dab| dab.context == 7));
}

#[test]
fn queued_segments_keep_their_own_spacing_and_context() {
    let mut sampler = sampler(at(0.0, 0.0));
    sampler.enqueue_pointer(at(24.0, 0.0), none(), bits(8.0), 3);

    let dabs = drain(&mut sampler, 8);

    assert_eq!(positions(&dabs), [[8.0, 0.0], [16.0, 0.0], [24.0, 0.0]]);
    assert!(dabs.iter().all(|dab| dab.context == 3));
}

#[test]
fn a_pointer_at_rest_adds_no_path() {
    let mut sampler = sampler(at(5.0, 5.0));
    sampler.enqueue_pointer(at(5.0, 5.0), none(), bits(10.0), 0);
    assert!(!sampler.has_pending_path());
}

#[test]
fn a_clock_that_runs_back_adds_no_time() {
    let started: u128 = 500 * MILLISECOND;
    let mut sampler = StrokeSampler::begin(at(0.0, 0.0), none(), bits(10.0), 0u8, started);
    sampler.advance_to(started - MILLISECOND);
    assert_eq!(sampler.airbrush_wait(MILLISECOND), MILLISECOND);
    assert!(!sampler.airbrush_due(MILLISECOND));
}
