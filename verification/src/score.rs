//! Records of the history and their time-decayed score.
//!
//! Ranks and scores are held in fixed point. A rank counts units of
//! `1 / RANK_SCALE`; a score counts units of `1 / SCORE_SCALE` and is cut off
//! below that, so that scores are whole numbers that order totally.

use vstd::prelude::*;

verus! {

/// Resolution of a rank: the number of units that make a rank of one.
pub const RANK_SCALE: u64 = 1000000;

/// Resolution of a score: the number of units that make a score of one. What
/// of a score lies below one unit is lost, so two scores less than a unit
/// apart may end up the same.
pub const SCORE_SCALE: u64 = 10000;

/// Seconds in an hour: accesses younger than this weigh most.
pub const HOUR: u32 = 3600;

/// Seconds in a day.
pub const DAY: u32 = 86400;

/// Seconds in a week: accesses at least this old weigh least.
pub const WEEK: u32 = 604800;

/// One record of the history.
#[derive(Debug)]
pub struct FileInfo {
    /// The path that was accessed.
    pub filename: String,
    /// Usage weight, in units of `1 / RANK_SCALE`.
    pub rank: u64,
    /// Time of the last access, in seconds since the epoch.
    pub timestamp: u32,
}

/// Seconds between the last access and `now`; an access that lies in the
/// future counts as one made just now.
pub open spec fn age(now: u32, timestamp: u32) -> nat {
    if now >= timestamp {
        (now - timestamp) as nat
    } else {
        0
    }
}

/// Weight of an access by its age in seconds.
pub open spec fn coefficient(age: nat) -> nat {
    if age < HOUR {
        6
    } else if age < DAY {
        4
    } else if age < WEEK {
        2
    } else {
        1
    }
}

/// The rank times the weight of its age, in units of `1 / RANK_SCALE` and
/// not yet cut off.
pub open spec fn weighted_rank(rank: u64, timestamp: u32, now: u32) -> nat {
    rank as nat * coefficient(age(now, timestamp))
}

/// Score of a rank last touched at `timestamp`, seen at `now`: the weighted
/// rank in units of `1 / SCORE_SCALE`, cut off to a whole number.
pub open spec fn score(rank: u64, timestamp: u32, now: u32) -> nat {
    weighted_rank(rank, timestamp, now) * SCORE_SCALE as nat / RANK_SCALE as nat
}

/// Age of an access, clamped at zero.
pub fn elapsed(now: u32, timestamp: u32) -> (seconds: u32)
    ensures
        seconds == age(now, timestamp),
{
    if now >= timestamp {
        now - timestamp
    } else {
        0
    }
}

/// Weight of an access that is `age` seconds old.
pub fn decay_coefficient(age: u32) -> (weight: u32)
    ensures
        weight == coefficient(age as nat),
{
    if age < HOUR {
        6
    } else if age < DAY {
        4
    } else if age < WEEK {
        2
    } else {
        1
    }
}

impl Clone for FileInfo {
    fn clone(&self) -> (copy: Self)
        ensures
            copy == *self,
    {
        FileInfo { filename: self.filename.clone(), rank: self.rank, timestamp: self.timestamp }
    }
}

impl FileInfo {
    /// The score of this record at `now`.
    pub open spec fn score_at(&self, now: u32) -> nat {
        score(self.rank, self.timestamp, now)
    }

    /// Scores the record at `now`: its rank times the weight of its age,
    /// brought to the resolution of scores.
    pub fn frecency(&self, now: u32) -> (key: u64)
        ensures
            key == self.score_at(now),
    {
        let weight: u32 = decay_coefficient(elapsed(now, self.timestamp));
        let weighted: u128 = (self.rank as u128) * (weight as u128);
        assert(weighted <= 6 * u64::MAX) by (nonlinear_arith)
            requires
                weighted == self.rank * weight,
                self.rank <= u64::MAX,
                weight <= 6,
        ;
        assert(weighted * SCORE_SCALE <= u128::MAX);
        let key: u128 = weighted * (SCORE_SCALE as u128) / (RANK_SCALE as u128);
        key as u64
    }
}

/// A higher rank never scores lower, the time of access and the clock being
/// the same.
pub proof fn lemma_score_monotonic_in_rank(low: u64, high: u64, timestamp: u32, now: u32)
    requires
        low <= high,
    ensures
        score(low, timestamp, now) <= score(high, timestamp, now),
{
}

/// The weight changes where the age reaches an hour, a day and a week, and
/// nowhere else.
pub proof fn lemma_weight_by_bracket(rank: u64, timestamp: u32, now: u32)
    ensures
        age(now, timestamp) < HOUR ==> weighted_rank(rank, timestamp, now) == 6 * rank,
        HOUR <= age(now, timestamp) < DAY ==> weighted_rank(rank, timestamp, now) == 4 * rank,
        DAY <= age(now, timestamp) < WEEK ==> weighted_rank(rank, timestamp, now) == 2 * rank,
        WEEK <= age(now, timestamp) ==> weighted_rank(rank, timestamp, now) == rank,
        now < timestamp ==> weighted_rank(rank, timestamp, now) == 6 * rank,
{
}

/// A score is the weighted rank cut off to the resolution of scores: it lies
/// at most one unit of score below it, and never above.
pub proof fn lemma_score_truncates(rank: u64, timestamp: u32, now: u32)
    ensures
        score(rank, timestamp, now) * RANK_SCALE <= weighted_rank(rank, timestamp, now)
            * SCORE_SCALE < (score(rank, timestamp, now) + 1) * RANK_SCALE,
{
}

/// A rank that is a whole number of units of score keeps its full weight:
/// nothing is cut off.
pub proof fn lemma_score_of_whole_units(units: u64, timestamp: u32, now: u32)
    requires
        units * (RANK_SCALE / SCORE_SCALE) <= u64::MAX,
    ensures
        score((units * (RANK_SCALE / SCORE_SCALE)) as u64, timestamp, now) == units * coefficient(
            age(now, timestamp),
        ),
{
    let weight = coefficient(age(now, timestamp));
    assert(weight == 1 || weight == 2 || weight == 4 || weight == 6);
    assert(units * 100 * weight * 10000 == units * weight * 1000000) by (nonlinear_arith);
}

} // verus!
