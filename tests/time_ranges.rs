use more_fps::time_ranges::{pending_windows, plan_windows};
use more_fps::{Decimal, Error, NonZeroDecimal, TimeRange, TimeRanges};

fn dec(s: &str) -> Decimal {
    Decimal::parse(s).unwrap()
}

fn nz(s: &str) -> NonZeroDecimal {
    NonZeroDecimal::try_new(dec(s)).unwrap()
}

#[test]
fn flatten() {
    // 10 seconds worth of frames
    let max_step_size = 10;

    let time_ranges = vec![
        TimeRanges::try_new(Decimal::from_u32(0), max_step_size, dec("6.675000")).unwrap(),
        TimeRanges::try_new(dec("6.675000"), max_step_size, dec("35")).unwrap(),
    ];
    let actual = more_fps::time_ranges::flatten(time_ranges);
    let expected = vec![
        TimeRange { start: Decimal::zero(), end: nz("6.675000") },
        TimeRange { start: dec("6.675000"), end: nz("17") },
        TimeRange { start: dec("17"), end: nz("27") },
        TimeRange { start: dec("27"), end: nz("35") },
    ];
    assert_eq!(actual, expected);
}

#[test]
fn start_equals_end() {
    let actual = TimeRanges::try_new(Decimal::from_u32(1), 2, Decimal::from_u32(1));
    assert_eq!(actual, None);
}

#[test]
fn start_gt_end() {
    let actual = TimeRanges::try_new(Decimal::from_u32(2), 2, Decimal::from_u32(1));
    assert_eq!(actual, None);
}

#[test]
fn next_doesnt_exceed_end() {
    let start = Decimal::from_u32(0);
    // 10 seconds worth of frames
    let max_step_size = 10;
    let end = dec("9.76");

    let mut time_ranges = TimeRanges::try_new(start, max_step_size, end).unwrap();
    assert_eq!(
        time_ranges.next().unwrap(),
        TimeRange { start: Decimal::zero(), end: NonZeroDecimal::try_new(end).unwrap() }
    );
    assert!(time_ranges.next().is_none());
}

#[test]
fn start_is_zero_multiple_next() {
    let start = Decimal::from_u32(0);
    let max_step_size: u32 = 3;
    let end = dec("9.76");
    let mut time_ranges = TimeRanges::try_new(start, max_step_size as usize, end).unwrap();
    assert_eq!(
        time_ranges.next().unwrap(),
        TimeRange {
            start: Decimal::zero(),
            end: NonZeroDecimal::try_new(Decimal::from_u32(max_step_size)).unwrap()
        }
    );
    assert_eq!(
        time_ranges.next().unwrap(),
        TimeRange {
            start: Decimal::from_u32(max_step_size),
            end: NonZeroDecimal::try_new(Decimal::from_u32(max_step_size * 2)).unwrap()
        }
    );
    assert_eq!(
        time_ranges.next().unwrap(),
        TimeRange {
            start: Decimal::from_u32(max_step_size * 2),
            end: NonZeroDecimal::try_new(Decimal::from_u32(max_step_size * 3)).unwrap()
        }
    );
    assert_eq!(
        time_ranges.next().unwrap(),
        TimeRange {
            start: Decimal::from_u32(max_step_size * 3),
            end: NonZeroDecimal::try_new(end).unwrap()
        }
    );
    assert!(time_ranges.next().is_none());
}

#[test]
fn start_is_decimal_multiple_next() {
    let start = dec("522.981000");
    let end = dec("568.151000");
    let max_step_size = 20;

    let mut time_ranges = TimeRanges::try_new(start, max_step_size, end).unwrap();
    assert_eq!(
        time_ranges.next().unwrap(),
        TimeRange { start, end: NonZeroDecimal::try_new(Decimal::from_u32(543)).unwrap() }
    );
    assert_eq!(
        time_ranges.next().unwrap(),
        TimeRange { start: dec("543"), end: NonZeroDecimal::try_new(Decimal::from_u32(563)).unwrap() }
    );
    assert_eq!(
        time_ranges.next().unwrap(),
        TimeRange { start: dec("563"), end: NonZeroDecimal::try_new(end).unwrap() }
    );
    assert!(time_ranges.next().is_none());
}

#[test]
fn zero_step_is_refused() {
    assert_eq!(TimeRanges::try_new(Decimal::zero(), 0, Decimal::from_u32(5)), None);
}

#[test]
fn end_at_zero_is_refused() {
    assert_eq!(TimeRanges::try_new(dec("-1"), 1, Decimal::zero()), None);
}

#[test]
fn sequence_end_is_reported() {
    let t = TimeRanges::try_new(Decimal::zero(), 3, dec("9.76")).unwrap();
    assert_eq!(t.end(), dec("9.76"));
}

#[test]
fn step_rounds_half_to_even() {
    // 0.5 + 2 = 2.5 rounds to 2; 2 + 2 = 4
    let mut t = TimeRanges::try_new(dec("0.5"), 2, dec("10")).unwrap();
    assert_eq!(t.next().unwrap().end, nz("2"));
    assert_eq!(t.next().unwrap().end, nz("4"));
    // 1.5 + 2 = 3.5 rounds to 4
    let mut t = TimeRanges::try_new(dec("1.5"), 2, dec("10")).unwrap();
    assert_eq!(t.next().unwrap().end, nz("4"));
}

#[test]
fn plan_is_contiguous_and_exhaustive() {
    let stamps = vec![dec("9.76"), dec("13.513")];
    let plan = plan_windows(&stamps, dec("20"), 3).unwrap();
    let ends: Vec<Decimal> = plan.iter().map(|w| w.end.get()).collect();
    assert_eq!(plan[0].start, Decimal::zero());
    for i in 1..plan.len() {
        assert_eq!(plan[i].start, plan[i - 1].end.get());
    }
    assert_eq!(
        ends,
        vec![dec("3"), dec("6"), dec("9"), dec("9.76"), dec("13"), dec("13.513"), dec("17"), dec("20")]
    );
}

#[test]
fn plan_without_scenes_covers_the_media() {
    let plan = plan_windows(&vec![], dec("10"), 5).unwrap();
    assert_eq!(
        plan,
        vec![
            TimeRange { start: dec("0"), end: nz("5") },
            TimeRange { start: dec("5"), end: nz("10") },
        ]
    );
}

#[test]
fn plan_refuses_unordered_boundaries() {
    let stamps = vec![dec("5"), dec("4")];
    assert_eq!(
        plan_windows(&stamps, dec("10"), 3),
        Err(Error::UnableToCreateTimeRanges(dec("5"), 3, dec("4")))
    );
    assert_eq!(
        plan_windows(&vec![Decimal::zero()], dec("10"), 3),
        Err(Error::UnableToCreateTimeRanges(Decimal::zero(), 3, Decimal::zero()))
    );
    assert_eq!(
        plan_windows(&vec![dec("5")], dec("5"), 3),
        Err(Error::UnableToCreateTimeRanges(dec("5"), 3, dec("5")))
    );
}

#[test]
fn resume_skips_existing_clips() {
    let plan = plan_windows(&vec![], dec("9.76"), 3).unwrap();
    assert_eq!(plan.len(), 4);
    let pending = pending_windows(&plan, 2);
    assert_eq!(pending.len(), 2);
    assert_eq!(pending[0], (2, plan[2]));
    assert_eq!(pending[1], (3, plan[3]));
    assert!(pending_windows(&plan, 4).is_empty());
    assert!(pending_windows(&plan, 9).is_empty());
    assert_eq!(pending_windows(&plan, 0).len(), 4);
}

#[test]
fn windows_past_the_cut_use_full_precision() {
    let start = dec("0.0000000000000000000000000001");
    let mut t = TimeRanges::try_new(start, 1, dec("2")).unwrap();
    assert_eq!(t.next().unwrap(), TimeRange { start, end: nz("1") });
    assert_eq!(t.next().unwrap(), TimeRange { start: dec("1"), end: nz("2") });
    assert!(t.next().is_none());
}

#[test]
fn duration_rounds_to_milliseconds() {
    let w = TimeRange { start: dec("1"), end: nz("2.2345") };
    assert_eq!(w.duration(), Some(nz("1.234")));
    let w = TimeRange { start: dec("1"), end: nz("2.2355") };
    assert_eq!(w.duration(), Some(nz("1.236")));
    let w = TimeRange { start: dec("0"), end: nz("9.76") };
    assert_eq!(w.duration(), Some(nz("9.76")));
}

#[test]
fn duration_of_tiny_window_is_none() {
    let w = TimeRange { start: dec("1"), end: nz("1.0005") };
    assert_eq!(w.duration(), None);
    let w = TimeRange { start: dec("1"), end: nz("1.00051") };
    assert_eq!(w.duration(), Some(nz("0.001")));
    assert_eq!(w.duration().unwrap().get().to_text(), "0.001");
}
