use loopah::loop_range::LoopRange;
use loopah::time::Seconds;

fn s(nanos: i64) -> Seconds {
    Seconds::from_nanos(nanos)
}

#[test]
fn ordered_keeps_endpoints_in_order() {
    let r = LoopRange::ordered(s(3), s(7));
    assert_eq!((r.start.nanos, r.end.nanos), (3, 7));
    let r = LoopRange::ordered(s(7), s(3));
    assert_eq!((r.start.nanos, r.end.nanos), (3, 7));
    let r = LoopRange::ordered(s(5), s(5));
    assert_eq!((r.start.nanos, r.end.nanos), (5, 5));
    let r = LoopRange::ordered(s(i64::MAX), s(i64::MIN));
    assert_eq!((r.start.nanos, r.end.nanos), (i64::MIN, i64::MAX));
}

#[test]
fn ordered_start_never_exceeds_end() {
    let points = [i64::MIN, -1_000_000_000, -1, 0, 1, 20_000_000, i64::MAX];
    for a in points {
        for b in points {
            let r = LoopRange::ordered(s(a), s(b));
            assert!(r.start.nanos <= r.end.nanos);
        }
    }
}

#[test]
fn clamp_holds_both_endpoints_inside_the_file() {
    let r = LoopRange::ordered(s(-5), s(30)).clamp(s(10));
    assert_eq!((r.start.nanos, r.end.nanos), (0, 10));
    let r = LoopRange::ordered(s(2), s(4)).clamp(s(10));
    assert_eq!((r.start.nanos, r.end.nanos), (2, 4));
    let r = LoopRange::ordered(s(20), s(30)).clamp(s(10));
    assert_eq!((r.start.nanos, r.end.nanos), (10, 10));
    let r = LoopRange::ordered(s(-9), s(-3)).clamp(s(10));
    assert_eq!((r.start.nanos, r.end.nanos), (0, 0));
    let r = LoopRange::ordered(s(1), s(2)).clamp(s(0));
    assert_eq!((r.start.nanos, r.end.nanos), (0, 0));
}

#[test]
fn clamp_reorders_an_inverted_range() {
    let inverted = LoopRange { start: s(8), end: s(2) };
    let r = inverted.clamp(s(10));
    assert_eq!((r.start.nanos, r.end.nanos), (2, 8));
    let inverted = LoopRange { start: s(50), end: s(-2) };
    let r = inverted.clamp(s(10));
    assert_eq!((r.start.nanos, r.end.nanos), (0, 10));
}

#[test]
fn clamp_output_is_ordered_and_inside() {
    let points = [i64::MIN, -7, 0, 3, 10, 11, i64::MAX];
    let durations = [0, 1, 10, i64::MAX];
    for a in points {
        for b in points {
            for d in durations {
                let r = LoopRange::ordered(s(a), s(b)).clamp(s(d));
                assert!(0 <= r.start.nanos && r.start.nanos <= r.end.nanos && r.end.nanos <= d);
            }
        }
    }
}

#[test]
fn duration_is_the_length_and_never_negative() {
    assert_eq!(LoopRange::ordered(s(3), s(7)).duration().nanos, 4);
    assert_eq!(LoopRange::ordered(s(5), s(5)).duration().nanos, 0);
    assert_eq!(LoopRange { start: s(9), end: s(2) }.duration().nanos, 0);
    assert_eq!(LoopRange { start: s(i64::MIN), end: s(i64::MAX) }.duration().nanos, i64::MAX);
    assert_eq!(LoopRange { start: s(-1), end: s(i64::MAX) }.duration().nanos, i64::MAX);
    assert_eq!(LoopRange { start: s(0), end: s(i64::MAX) }.duration().nanos, i64::MAX);
}

#[test]
fn loop_ranges_compare_by_their_endpoints() {
    assert_eq!(LoopRange::ordered(s(1), s(2)), LoopRange::ordered(s(2), s(1)));
    assert_ne!(LoopRange::ordered(s(1), s(2)), LoopRange::ordered(s(1), s(3)));
}
