use frecency_select::score::{
    decay_coefficient, elapsed, FileInfo, DAY, HOUR, RANK_SCALE, SCORE_SCALE, WEEK,
};

fn record(rank: u64, timestamp: u32) -> FileInfo {
    FileInfo { filename: String::from("/tmp/x"), rank, timestamp }
}

#[test]
fn brackets_are_an_hour_a_day_and_a_week() {
    assert_eq!(HOUR, 3600);
    assert_eq!(DAY, 86400);
    assert_eq!(WEEK, 604800);
}

#[test]
fn resolutions_of_rank_and_score() {
    assert_eq!(RANK_SCALE, 1_000_000);
    assert_eq!(SCORE_SCALE, 10_000);
}

#[test]
fn coefficient_at_each_bracket_boundary() {
    assert_eq!(decay_coefficient(0), 6);
    assert_eq!(decay_coefficient(3599), 6);
    assert_eq!(decay_coefficient(3600), 4);
    assert_eq!(decay_coefficient(86399), 4);
    assert_eq!(decay_coefficient(86400), 2);
    assert_eq!(decay_coefficient(604799), 2);
    assert_eq!(decay_coefficient(604800), 1);
    assert_eq!(decay_coefficient(u32::MAX), 1);
}

#[test]
fn score_at_each_bracket_boundary() {
    let t: u32 = 1_000_000;
    let r = record(1_000_000, t);
    assert_eq!(r.frecency(t + 3599), 60000);
    assert_eq!(r.frecency(t + 3600), 40000);
    assert_eq!(r.frecency(t + 86399), 40000);
    assert_eq!(r.frecency(t + 86400), 20000);
    assert_eq!(r.frecency(t + 604799), 20000);
    assert_eq!(r.frecency(t + 604800), 10000);
}

#[test]
fn score_is_rank_times_coefficient() {
    let t: u32 = 1_700_000_000;
    assert_eq!(record(1_000_000, t).frecency(t + 10), 60000);
    assert_eq!(record(5_000_000, t - 7200).frecency(t + 10), 200000);
    assert_eq!(record(1_234_500, t - 90000).frecency(t), 24690);
    assert_eq!(record(1_234_500, t - 700000).frecency(t), 12345);
    assert_eq!(record(0, t).frecency(t), 0);
}

#[test]
fn a_score_is_cut_off_below_its_resolution() {
    let t: u32 = 1_700_000_000;
    // 0.000050 * 6 = 0.000300: three units of score.
    assert_eq!(record(50, t).frecency(t), 3);
    // 0.000016 * 6 = 0.000096: less than one unit.
    assert_eq!(record(16, t).frecency(t), 0);
    // 0.000017 * 6 = 0.000102: one unit, the rest is lost.
    assert_eq!(record(17, t).frecency(t), 1);
    assert_eq!(record(99, t - 700000).frecency(t), 0);
    assert_eq!(record(100, t - 700000).frecency(t), 1);
    assert_eq!(record(199, t - 700000).frecency(t), 1);
}

#[test]
fn scores_less_than_a_unit_apart_may_collapse() {
    let t: u32 = 1_700_000_000;
    assert_eq!(record(1_000_000, t).frecency(t), record(1_000_016, t).frecency(t));
    assert_ne!(record(1_000_000, t).frecency(t), record(1_000_017, t).frecency(t));
}

#[test]
fn score_of_the_largest_rank_does_not_overflow() {
    let expected = (u64::MAX as u128 * 6 * 10_000 / 1_000_000) as u64;
    assert_eq!(record(u64::MAX, 5).frecency(5), expected);
    assert_eq!(expected, 1_106_804_644_422_573_096);
}

#[test]
fn elapsed_is_the_difference() {
    assert_eq!(elapsed(100, 40), 60);
    assert_eq!(elapsed(40, 40), 0);
    assert_eq!(elapsed(u32::MAX, 0), u32::MAX);
}

#[test]
fn an_access_in_the_future_has_age_zero() {
    assert_eq!(elapsed(40, 100), 0);
    assert_eq!(elapsed(0, u32::MAX), 0);
    assert_eq!(record(1_000_000, 2_000_000).frecency(1_000_000), 60000);
}

#[test]
fn a_higher_rank_never_scores_lower() {
    let t: u32 = 1_000_000;
    let ages: [u32; 7] = [0, 3599, 3600, 86399, 86400, 604800, 4_000_000];
    let ranks: [u64; 8] = [0, 1, 16, 17, 999_999, 1_000_000, 123_456_789, u64::MAX];
    for age in ages {
        for low in ranks {
            for high in ranks {
                if low <= high {
                    let a = record(low, t).frecency(t + age);
                    let b = record(high, t).frecency(t + age);
                    assert!(a <= b);
                }
            }
        }
    }
}

#[test]
fn a_copy_of_a_record_keeps_every_field() {
    let r = FileInfo { filename: String::from("/a/b"), rank: 7, timestamp: 9 };
    let c = r.clone();
    assert_eq!(c.filename, "/a/b");
    assert_eq!(c.rank, 7);
    assert_eq!(c.timestamp, 9);
}
