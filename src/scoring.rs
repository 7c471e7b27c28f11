use crate::fixed::{fraction, lemma_ratio_at_most_unit, lemma_sum_step, ratio, UNIT};
use crate::question::Question;
use crate::quiz::{has_id, is_first_with_id, total_seconds};
use crate::session::{
    correct_count, count_correct, lemma_count_correct_bound, sum_times, total_time,
    QuestionResponse, QuizSession,
};
use vstd::prelude::*;

verus! {

/// A score, fixed-point throughout. Never stored on a session.
#[derive(Debug, Clone, Copy)]
pub struct Score {
    pub raw_score: i128,
    pub weighted_score: i128,
    /// Reserved; always empty.
    pub percentile: Option<i128>,
    pub time_bonus: i128,
    pub difficulty_bonus: i128,
    pub streak_bonus: i128,
    pub components: ScoreComponents,
}

/// The parts a score was made from, fixed-point.
#[derive(Debug, Clone, Copy)]
pub struct ScoreComponents {
    pub correctness: i128,
    pub speed: i128,
    pub difficulty: i128,
    pub consistency: i128,
}

/// How recorded responses become a score. Penalties, multipliers and
/// weights are fixed-point.
#[derive(Debug, Clone, Copy)]
pub enum ScoringStrategy {
    /// Correct responses over questions.
    Simple,
    /// Each correct response loses `penalty_per_second` for every second
    /// beyond `base_time_seconds`, down to zero.
    TimeWeighted { base_time_seconds: u32, penalty_per_second: u32 },
    /// Responses count with the multiplier of their question's difficulty
    /// bucket: below 0.33 easy, below 0.67 medium, else hard.
    DifficultyWeighted { easy_multiplier: u32, medium_multiplier: u32, hard_multiplier: u32 },
    /// Correctness blended with speed, difficulty, streak and consistency.
    Adaptive {
        time_weight: u32,
        difficulty_weight: u32,
        streak_weight: u32,
        consistency_weight: u32,
    },
}

/// The first question with this id (meaningful when there is one).
pub open spec fn question_for(qs: Seq<Question>, id: u128) -> Question {
    qs[choose|p: int| is_first_with_id(qs, p, id)]
}

proof fn lemma_question_for(qs: Seq<Question>, p: int, id: u128)
    requires
        is_first_with_id(qs, p, id),
    ensures
        question_for(qs, id) == qs[p],
{
    let c = choose|c: int| is_first_with_id(qs, c, id);
    assert(is_first_with_id(qs, c, id));
    if c < p {
        assert(qs[c].id != id);
    } else if p < c {
        assert(qs[p].id != id);
    }
}

/// The points a response earns under the time-weighted strategy.
pub open spec fn time_points(r: QuestionResponse, base: u32, penalty: u32) -> int {
    let earned = if r.is_correct {
        UNIT as int
    } else {
        0
    };
    let lost = if r.time_taken_seconds > base {
        (r.time_taken_seconds - base) * penalty
    } else {
        0
    };
    if earned > lost {
        earned - lost
    } else {
        0
    }
}

/// Time-weighted points of the responses whose question is in `qs`.
pub open spec fn total_time_points(rs: Seq<QuestionResponse>, qs: Seq<Question>, base: u32, penalty: u32) -> int
    decreases rs.len(),
{
    if rs.len() == 0 {
        0
    } else {
        total_time_points(rs.drop_last(), qs, base, penalty) + if has_id(qs, rs.last().question_id) {
            time_points(rs.last(), base, penalty)
        } else {
            0
        }
    }
}

/// The multiplier of a difficulty's bucket.
pub open spec fn bucket_multiplier(difficulty: u32, easy: u32, medium: u32, hard: u32) -> int {
    if difficulty < 330000 {
        easy as int
    } else if difficulty < 670000 {
        medium as int
    } else {
        hard as int
    }
}

/// Multipliers of the responses whose question is in `qs`: all of them when
/// `only_correct` is false, else those marked correct.
pub open spec fn response_weight(
    rs: Seq<QuestionResponse>,
    qs: Seq<Question>,
    easy: u32,
    medium: u32,
    hard: u32,
    only_correct: bool,
) -> int
    decreases rs.len(),
{
    if rs.len() == 0 {
        0
    } else {
        let r = rs.last();
        response_weight(rs.drop_last(), qs, easy, medium, hard, only_correct) + if has_id(
            qs,
            r.question_id,
        ) && (r.is_correct || !only_correct) {
            bucket_multiplier(question_for(qs, r.question_id).difficulty, easy, medium, hard)
        } else {
            0
        }
    }
}

/// Multipliers of the skipped positions that name a question of `qs`.
pub open spec fn skipped_weight(sk: Seq<usize>, qs: Seq<Question>, easy: u32, medium: u32, hard: u32) -> int
    decreases sk.len(),
{
    if sk.len() == 0 {
        0
    } else {
        skipped_weight(sk.drop_last(), qs, easy, medium, hard) + if sk.last() < qs.len() {
            bucket_multiplier(qs[sk.last() as int].difficulty, easy, medium, hard)
        } else {
            0
        }
    }
}

/// Difficulties of the responses whose question is in `qs`: all of them
/// when `only_correct` is false, else those marked correct.
pub open spec fn response_difficulty(rs: Seq<QuestionResponse>, qs: Seq<Question>, only_correct: bool) -> int
    decreases rs.len(),
{
    if rs.len() == 0 {
        0
    } else {
        let r = rs.last();
        response_difficulty(rs.drop_last(), qs, only_correct) + if has_id(qs, r.question_id) && (
        r.is_correct || !only_correct) {
            question_for(qs, r.question_id).difficulty as int
        } else {
            0
        }
    }
}

/// The length of the run of correct responses that ends the list.
pub open spec fn final_run(rs: Seq<QuestionResponse>) -> nat
    decreases rs.len(),
{
    if rs.len() == 0 {
        0
    } else if rs.last().is_correct {
        final_run(rs.drop_last()) + 1
    } else {
        0
    }
}

/// The longest run of consecutive correct responses.
pub open spec fn longest_run(rs: Seq<QuestionResponse>) -> nat
    decreases rs.len(),
{
    if rs.len() == 0 {
        0
    } else {
        let before = longest_run(rs.drop_last());
        let here = final_run(rs);
        if here > before {
            here
        } else {
            before
        }
    }
}

/// The sum of `(t - s)^2` over the response times `t` of `rs`.
pub open spec fn spread_from(rs: Seq<QuestionResponse>, s: u32) -> int
    decreases rs.len(),
{
    if rs.len() == 0 {
        0
    } else {
        let d = rs.last().time_taken_seconds - s;
        spread_from(rs.drop_last(), s) + d * d
    }
}

/// The sum of `(t_i - t_j)^2` over all pairs `i < j` of response times:
/// `n^2` times their variance.
pub open spec fn spread(rs: Seq<QuestionResponse>) -> int
    decreases rs.len(),
{
    if rs.len() == 0 {
        0
    } else {
        spread(rs.drop_last()) + spread_from(rs.drop_last(), rs.last().time_taken_seconds)
    }
}

/// `r` is the integer square root of `n`.
pub open spec fn is_root(r: int, n: int) -> bool {
    0 <= r && r * r <= n < (r + 1) * (r + 1)
}

/// The integer square root of `n`.
pub open spec fn root(n: int) -> int {
    choose|r: int| is_root(r, n)
}

proof fn lemma_root_unique(r: int, n: int)
    requires
        is_root(r, n),
    ensures
        root(n) == r,
{
    let c = root(n);
    assert(is_root(c, n));
    if c < r {
        assert((c + 1) * (c + 1) <= r * r) by (nonlinear_arith)
            requires
                0 <= c < r,
        ;
    } else if r < c {
        assert((r + 1) * (r + 1) <= c * c) by (nonlinear_arith)
            requires
                0 <= r < c,
        ;
    }
}

/// The correctness fraction: correct responses over the questions given.
pub open spec fn raw_of(rs: Seq<QuestionResponse>, qs: Seq<Question>) -> int {
    ratio(count_correct(rs) as int, qs.len() as int)
}

/// Expected over actual average time, capped at one. The actual average
/// is taken as at least one second.
pub open spec fn speed_of(rs: Seq<QuestionResponse>, qs: Seq<Question>) -> int {
    let nq = if qs.len() > 0 {
        qs.len() as int
    } else {
        1
    };
    let nr = if rs.len() > 0 {
        rs.len() as int
    } else {
        1
    };
    let expected = total_seconds(qs) * UNIT as int / nq;
    let actual = sum_times(rs) * UNIT as int / nr;
    let pace = expected * UNIT as int / if actual > UNIT as int {
        actual
    } else {
        UNIT as int
    };
    if pace < UNIT as int {
        pace
    } else {
        UNIT as int
    }
}

/// The share of the answered difficulty that was answered correctly.
pub open spec fn difficulty_of(rs: Seq<QuestionResponse>, qs: Seq<Question>) -> int {
    ratio(response_difficulty(rs, qs, true), response_difficulty(rs, qs, false))
}

/// The longest correct run over the number of responses.
pub open spec fn streak_of(rs: Seq<QuestionResponse>) -> int {
    ratio(longest_run(rs) as int, rs.len() as int)
}

/// `1 / (1 + cv)` for the coefficient of variation `cv` of the response
/// times, with the standard deviation taken through an integer square root:
/// `T / (T + root(spread))` for total time `T`. One with fewer than two
/// responses or no time at all.
pub open spec fn consistency_of(rs: Seq<QuestionResponse>) -> int {
    let total = sum_times(rs) as int;
    if rs.len() < 2 || total == 0 {
        UNIT as int
    } else {
        ratio(total, total + root(spread(rs)))
    }
}

/// The score a strategy gives these responses, skips and questions.
pub open spec fn score_of(
    strategy: ScoringStrategy,
    rs: Seq<QuestionResponse>,
    skipped: Seq<usize>,
    qs: Seq<Question>,
) -> Score {
    let raw = raw_of(rs, qs);
    match strategy {
        ScoringStrategy::Simple => Score {
            raw_score: raw as i128,
            weighted_score: raw as i128,
            percentile: None,
            time_bonus: 0,
            difficulty_bonus: 0,
            streak_bonus: 0,
            components: ScoreComponents {
                correctness: raw as i128,
                speed: 0,
                difficulty: 0,
                consistency: 0,
            },
        },
        ScoringStrategy::TimeWeighted { base_time_seconds, penalty_per_second } => {
            let weighted = if qs.len() > 0 {
                total_time_points(rs, qs, base_time_seconds, penalty_per_second) / qs.len() as int
            } else {
                0
            };
            Score {
                raw_score: raw as i128,
                weighted_score: weighted as i128,
                percentile: None,
                time_bonus: (weighted - raw) as i128,
                difficulty_bonus: 0,
                streak_bonus: 0,
                components: ScoreComponents {
                    correctness: raw as i128,
                    speed: (weighted - raw) as i128,
                    difficulty: 0,
                    consistency: 0,
                },
            }
        },
        ScoringStrategy::DifficultyWeighted { easy_multiplier, medium_multiplier, hard_multiplier } => {
            let earned = response_weight(rs, qs, easy_multiplier, medium_multiplier, hard_multiplier, true);
            let possible = response_weight(
                rs,
                qs,
                easy_multiplier,
                medium_multiplier,
                hard_multiplier,
                false,
            ) + skipped_weight(skipped, qs, easy_multiplier, medium_multiplier, hard_multiplier);
            let weighted = ratio(earned, possible);
            Score {
                raw_score: raw as i128,
                weighted_score: weighted as i128,
                percentile: None,
                time_bonus: 0,
                difficulty_bonus: (weighted - raw) as i128,
                streak_bonus: 0,
                components: ScoreComponents {
                    correctness: raw as i128,
                    speed: 0,
                    difficulty: (weighted - raw) as i128,
                    consistency: 0,
                },
            }
        },
        ScoringStrategy::Adaptive { time_weight, difficulty_weight, streak_weight, consistency_weight } => {
            let speed = speed_of(rs, qs);
            let difficulty = difficulty_of(rs, qs);
            let streak = streak_of(rs);
            let consistency = consistency_of(rs);
            let weighted = (raw * UNIT as int + speed * time_weight + difficulty * difficulty_weight
                + streak * streak_weight + consistency * consistency_weight) / (UNIT as int
                + time_weight + difficulty_weight + streak_weight + consistency_weight);
            Score {
                raw_score: raw as i128,
                weighted_score: weighted as i128,
                percentile: None,
                time_bonus: (speed * time_weight / UNIT as int) as i128,
                difficulty_bonus: (difficulty * difficulty_weight / UNIT as int) as i128,
                streak_bonus: (streak * streak_weight / UNIT as int) as i128,
                components: ScoreComponents {
                    correctness: raw as i128,
                    speed: speed as i128,
                    difficulty: difficulty as i128,
                    consistency: consistency as i128,
                },
            }
        },
    }
}

/// The position of the first question with this id, if any.
fn find_question(qs: &[Question], id: u128) -> (r: Option<usize>)
    ensures
        r is Some ==> is_first_with_id(qs@, r->Some_0 as int, id),
        r is None ==> !has_id(qs@, id),
{
    let mut i: usize = 0;
    while i < qs.len()
        invariant
            i <= qs.len(),
            forall|k: int| 0 <= k < i ==> #[trigger] qs@[k].id != id,
        decreases qs.len() - i,
    {
        if qs[i].id == id {
            return Some(i);
        }
        i = i + 1;
    }
    None
}

/// A first position with this id shows the id is present and names its
/// question.
proof fn lemma_found(qs: Seq<Question>, p: int, id: u128)
    requires
        is_first_with_id(qs, p, id),
    ensures
        has_id(qs, id),
        question_for(qs, id) == qs[p],
{
    assert(qs[p].id == id);
    lemma_question_for(qs, p, id);
}

fn bucket(difficulty: u32, easy: u32, medium: u32, hard: u32) -> (r: u32)
    ensures
        r == bucket_multiplier(difficulty, easy, medium, hard),
{
    if difficulty < 330000 {
        easy
    } else if difficulty < 670000 {
        medium
    } else {
        hard
    }
}

/// Time-weighted points of the responses whose question is in `qs`.
fn time_points_sum(rs: &Vec<QuestionResponse>, qs: &[Question], base: u32, penalty: u32) -> (t: u128)
    ensures
        t == total_time_points(rs@, qs@, base, penalty),
        t <= rs.len() * UNIT,
{
    let mut t: u128 = 0;
    let mut i: usize = 0;
    while i < rs.len()
        invariant
            i <= rs.len(),
            t == total_time_points(rs@.subrange(0, i as int), qs@, base, penalty),
            t <= i * UNIT,
        decreases rs.len() - i,
    {
        proof {
            assert(rs@.subrange(0, i + 1).drop_last() =~= rs@.subrange(0, i as int));
            lemma_sum_step(i as int, UNIT as int);
        }
        let r = &rs[i];
        match find_question(qs, r.question_id) {
            Some(p) => {
                proof {
                    lemma_found(qs@, p as int, r.question_id);
                }
                let earned: u128 = if r.is_correct {
                    UNIT as u128
                } else {
                    0
                };
                let lost: u128 = if r.time_taken_seconds > base {
                    let over = (r.time_taken_seconds - base) as u128;
                    assert(over * penalty <= u32::MAX * u32::MAX) by (nonlinear_arith)
                        requires
                            over <= u32::MAX,
                            penalty <= u32::MAX,
                    ;
                    over * penalty as u128
                } else {
                    0
                };
                if earned > lost {
                    t = t + (earned - lost);
                }
            },
            None => {},
        }
        i = i + 1;
    }
    assert(rs@.subrange(0, i as int) =~= rs@);
    t
}

/// Bucket multipliers of the responses whose question is in `qs`: of the
/// correct ones, and of all.
fn weight_sums(rs: &Vec<QuestionResponse>, qs: &[Question], easy: u32, medium: u32, hard: u32) -> (r: (
    u128,
    u128,
))
    ensures
        r.0 == response_weight(rs@, qs@, easy, medium, hard, true),
        r.1 == response_weight(rs@, qs@, easy, medium, hard, false),
        r.0 <= r.1,
        r.1 <= rs.len() * u32::MAX,
{
    let mut earned: u128 = 0;
    let mut all: u128 = 0;
    let mut i: usize = 0;
    while i < rs.len()
        invariant
            i <= rs.len(),
            earned == response_weight(rs@.subrange(0, i as int), qs@, easy, medium, hard, true),
            all == response_weight(rs@.subrange(0, i as int), qs@, easy, medium, hard, false),
            earned <= all,
            all <= i * u32::MAX,
        decreases rs.len() - i,
    {
        proof {
            assert(rs@.subrange(0, i + 1).drop_last() =~= rs@.subrange(0, i as int));
            lemma_sum_step(i as int, u32::MAX as int);
        }
        let r = &rs[i];
        match find_question(qs, r.question_id) {
            Some(p) => {
                proof {
                    lemma_found(qs@, p as int, r.question_id);
                }
                let m = bucket(qs[p].difficulty, easy, medium, hard) as u128;
                all = all + m;
                if r.is_correct {
                    earned = earned + m;
                }
            },
            None => {},
        }
        i = i + 1;
    }
    assert(rs@.subrange(0, i as int) =~= rs@);
    (earned, all)
}

/// Bucket multipliers of the skipped positions that name a question.
fn skipped_sum(sk: &Vec<usize>, qs: &[Question], easy: u32, medium: u32, hard: u32) -> (t: u128)
    ensures
        t == skipped_weight(sk@, qs@, easy, medium, hard),
        t <= sk.len() * u32::MAX,
{
    let mut t: u128 = 0;
    let mut i: usize = 0;
    while i < sk.len()
        invariant
            i <= sk.len(),
            t == skipped_weight(sk@.subrange(0, i as int), qs@, easy, medium, hard),
            t <= i * u32::MAX,
        decreases sk.len() - i,
    {
        proof {
            assert(sk@.subrange(0, i + 1).drop_last() =~= sk@.subrange(0, i as int));
            lemma_sum_step(i as int, u32::MAX as int);
        }
        let index = sk[i];
        if index < qs.len() {
            t = t + bucket(qs[index].difficulty, easy, medium, hard) as u128;
        }
        i = i + 1;
    }
    assert(sk@.subrange(0, i as int) =~= sk@);
    t
}

/// Difficulties of the responses whose question is in `qs`: of the correct
/// ones, and of all.
fn difficulty_sums(rs: &Vec<QuestionResponse>, qs: &[Question]) -> (r: (u128, u128))
    ensures
        r.0 == response_difficulty(rs@, qs@, true),
        r.1 == response_difficulty(rs@, qs@, false),
        r.0 <= r.1,
        r.1 <= rs.len() * u32::MAX,
{
    let mut correct: u128 = 0;
    let mut all: u128 = 0;
    let mut i: usize = 0;
    while i < rs.len()
        invariant
            i <= rs.len(),
            correct == response_difficulty(rs@.subrange(0, i as int), qs@, true),
            all == response_difficulty(rs@.subrange(0, i as int), qs@, false),
            correct <= all,
            all <= i * u32::MAX,
        decreases rs.len() - i,
    {
        proof {
            assert(rs@.subrange(0, i + 1).drop_last() =~= rs@.subrange(0, i as int));
            lemma_sum_step(i as int, u32::MAX as int);
        }
        let r = &rs[i];
        match find_question(qs, r.question_id) {
            Some(p) => {
                proof {
                    lemma_found(qs@, p as int, r.question_id);
                }
                let d = qs[p].difficulty as u128;
                all = all + d;
                if r.is_correct {
                    correct = correct + d;
                }
            },
            None => {},
        }
        i = i + 1;
    }
    assert(rs@.subrange(0, i as int) =~= rs@);
    (correct, all)
}

/// The longest run of consecutive correct responses.
fn longest_streak(rs: &Vec<QuestionResponse>) -> (r: usize)
    ensures
        r == longest_run(rs@),
        r <= rs.len(),
{
    let mut current: usize = 0;
    let mut best: usize = 0;
    let mut i: usize = 0;
    while i < rs.len()
        invariant
            i <= rs.len(),
            current == final_run(rs@.subrange(0, i as int)),
            best == longest_run(rs@.subrange(0, i as int)),
            current <= i,
            best <= i,
        decreases rs.len() - i,
    {
        proof {
            assert(rs@.subrange(0, i + 1).drop_last() =~= rs@.subrange(0, i as int));
        }
        if rs[i].is_correct {
            current = current + 1;
            if current > best {
                best = current;
            }
        } else {
            current = 0;
        }
        i = i + 1;
    }
    assert(rs@.subrange(0, i as int) =~= rs@);
    best
}

/// The square of the largest response time.
const TIME_SQUARE: u64 = 18446744065119617025;

proof fn lemma_spread_step(j: int)
    requires
        0 <= j < u32::MAX,
    ensures
        j * j * TIME_SQUARE + j * TIME_SQUARE <= (j + 1) * (j + 1) * TIME_SQUARE,
        (j + 1) * (j + 1) * TIME_SQUARE <= TIME_SQUARE * TIME_SQUARE,
{
    assert(j * j * TIME_SQUARE + j * TIME_SQUARE <= (j + 1) * (j + 1) * TIME_SQUARE)
        by (nonlinear_arith)
        requires
            0 <= j,
            TIME_SQUARE > 0,
    ;
    assert((j + 1) * (j + 1) <= TIME_SQUARE) by (nonlinear_arith)
        requires
            0 <= j + 1 <= 0xffff_ffff,
            TIME_SQUARE == 0xffff_ffff * 0xffff_ffff,
    ;
    assert((j + 1) * (j + 1) * TIME_SQUARE <= TIME_SQUARE * TIME_SQUARE) by (nonlinear_arith)
        requires
            (j + 1) * (j + 1) <= TIME_SQUARE,
            TIME_SQUARE > 0,
    ;
}

/// The sum of squared differences over all pairs of response times.
fn spread_of(rs: &Vec<QuestionResponse>) -> (r: u128)
    requires
        rs.len() <= u32::MAX,
    ensures
        r == spread(rs@),
{
    let mut acc: u128 = 0;
    let mut j: usize = 0;
    while j < rs.len()
        invariant
            rs.len() <= u32::MAX,
            j <= rs.len(),
            acc == spread(rs@.subrange(0, j as int)),
            acc <= j * j * TIME_SQUARE,
        decreases rs.len() - j,
    {
        let s = rs[j].time_taken_seconds;
        let mut inner: u128 = 0;
        let mut i: usize = 0;
        while i < j
            invariant
                j < rs.len(),
                rs.len() <= u32::MAX,
                s == rs@[j as int].time_taken_seconds,
                i <= j,
                inner == spread_from(rs@.subrange(0, i as int), s),
                inner <= i * TIME_SQUARE,
            decreases j - i,
        {
            proof {
                assert(rs@.subrange(0, i + 1).drop_last() =~= rs@.subrange(0, i as int));
                lemma_sum_step(i as int, TIME_SQUARE as int);
            }
            let t = rs[i].time_taken_seconds;
            let d: u128 = if t > s {
                (t - s) as u128
            } else {
                (s - t) as u128
            };
            assert(d * d == (t - s) * (t - s) && d * d <= TIME_SQUARE) by (nonlinear_arith)
                requires
                    d == t - s || d == s - t,
                    0 <= d <= 0xffff_ffff,
                    TIME_SQUARE == 0xffff_ffff * 0xffff_ffff,
            ;
            inner = inner + d * d;
            i = i + 1;
        }
        proof {
            lemma_spread_step(j as int);
            assert(rs@.subrange(0, j + 1).drop_last() =~= rs@.subrange(0, j as int));
            assert(rs@.subrange(0, i as int) =~= rs@.subrange(0, j as int));
            assert(inner <= j * TIME_SQUARE);
            assert(TIME_SQUARE * TIME_SQUARE <= u128::MAX);
        }
        acc = acc + inner;
        j = j + 1;
    }
    assert(rs@.subrange(0, j as int) =~= rs@);
    acc
}

/// The integer square root of `n`.
fn integer_root(n: u128) -> (r: u128)
    ensures
        is_root(r as int, n as int),
{
    let mut lo: u128 = 0;
    let mut hi: u128 = 0x1_0000_0000_0000_0000;
    assert(n < hi * hi);
    while hi - lo > 1
        invariant
            lo < hi <= 0x1_0000_0000_0000_0000,
            lo * lo <= n,
            n < hi * hi,
        decreases hi - lo,
    {
        let mid = lo + (hi - lo) / 2;
        assert(mid * mid <= 0xffff_ffff_ffff_ffff * 0xffff_ffff_ffff_ffff) by (nonlinear_arith)
            requires
                0 <= mid <= 0xffff_ffff_ffff_ffff,
        ;
        if mid * mid <= n {
            lo = mid;
        } else {
            hi = mid;
        }
    }
    assert(hi == lo + 1);
    lo
}

/// The sum of the questions' estimated times.
fn estimated_total(qs: &[Question]) -> (t: u128)
    ensures
        t == total_seconds(qs@),
        t <= qs.len() * u32::MAX,
{
    let mut t: u128 = 0;
    let mut i: usize = 0;
    while i < qs.len()
        invariant
            i <= qs.len(),
            t == total_seconds(qs@.subrange(0, i as int)),
            t <= i * u32::MAX,
        decreases qs.len() - i,
    {
        proof {
            assert(qs@.subrange(0, i + 1).drop_last() =~= qs@.subrange(0, i as int));
            lemma_sum_step(i as int, u32::MAX as int);
        }
        t = t + qs[i].estimated_time_seconds as u128;
        i = i + 1;
    }
    assert(qs@.subrange(0, i as int) =~= qs@);
    t
}

/// The largest raw score: every one of at most `usize::MAX` responses
/// correct over a single question.
const RAW_LIMIT: u128 = 18446744073709551615000000;

proof fn lemma_average_bound(total: int, n: int, b: int)
    requires
        1 <= n,
        0 <= b,
        0 <= total <= n * b,
    ensures
        0 <= total * (UNIT as int) / n <= b * UNIT,
{
    assert(total * (UNIT as int) <= n * (b * UNIT)) by (nonlinear_arith)
        requires
            0 <= total <= n * b,
    ;
    assert(0 <= total * (UNIT as int)) by (nonlinear_arith)
        requires
            0 <= total,
    ;
    vstd::arithmetic::div_mod::lemma_div_is_ordered(total * (UNIT as int), n * (b * UNIT), n);
    vstd::arithmetic::div_mod::lemma_div_multiples_vanish(b * UNIT, n);
    vstd::arithmetic::div_mod::lemma_div_pos_is_pos(total * (UNIT as int), n);
}

impl ScoringStrategy {
    /// Scores the session's responses (and skips) against the questions
    /// given, by this strategy. Empty sets and zero denominators give zero,
    /// never a failure.
    pub fn calculate_score(&self, session: &QuizSession, questions: &[Question]) -> (r: Score)
        requires
            self is Adaptive ==> session.responses.len() <= u32::MAX,
        ensures
            r == score_of(*self, session.responses@, session.skipped_questions@, questions@),
    {
        match self {
            ScoringStrategy::Simple => self.simple_score(session, questions),
            ScoringStrategy::TimeWeighted { base_time_seconds, penalty_per_second } => {
                self.time_weighted_score(session, questions, *base_time_seconds, *penalty_per_second)
            },
            ScoringStrategy::DifficultyWeighted {
                easy_multiplier,
                medium_multiplier,
                hard_multiplier,
            } => self.difficulty_weighted_score(
                session,
                questions,
                *easy_multiplier,
                *medium_multiplier,
                *hard_multiplier,
            ),
            ScoringStrategy::Adaptive {
                time_weight,
                difficulty_weight,
                streak_weight,
                consistency_weight,
            } => self.adaptive_score(
                session,
                questions,
                *time_weight,
                *difficulty_weight,
                *streak_weight,
                *consistency_weight,
            ),
        }
    }

    /// The correctness fraction.
    fn raw_score(&self, session: &QuizSession, questions: &[Question]) -> (r: u128)
        ensures
            r == raw_of(session.responses@, questions@),
            r <= RAW_LIMIT,
    {
        let correct = correct_count(&session.responses);
        proof {
            lemma_count_correct_bound(session.responses@);
        }
        let r = fraction(correct as u128, questions.len() as u128);
        assert(correct * UNIT <= RAW_LIMIT) by (nonlinear_arith)
            requires
                correct <= 0xffff_ffff_ffff_ffff,
        ;
        r
    }

    fn simple_score(&self, session: &QuizSession, questions: &[Question]) -> (r: Score)
        ensures
            r == score_of(
                ScoringStrategy::Simple,
                session.responses@,
                session.skipped_questions@,
                questions@,
            ),
    {
        let raw = self.raw_score(session, questions) as i128;
        Score {
            raw_score: raw,
            weighted_score: raw,
            percentile: None,
            time_bonus: 0,
            difficulty_bonus: 0,
            streak_bonus: 0,
            components: ScoreComponents { correctness: raw, speed: 0, difficulty: 0, consistency: 0 },
        }
    }

    fn time_weighted_score(
        &self,
        session: &QuizSession,
        questions: &[Question],
        base_time_seconds: u32,
        penalty_per_second: u32,
    ) -> (r: Score)
        ensures
            r == score_of(
                ScoringStrategy::TimeWeighted { base_time_seconds, penalty_per_second },
                session.responses@,
                session.skipped_questions@,
                questions@,
            ),
    {
        let raw = self.raw_score(session, questions) as i128;
        let total = time_points_sum(&session.responses, questions, base_time_seconds, penalty_per_second);
        assert(session.responses.len() * UNIT <= RAW_LIMIT) by (nonlinear_arith)
            requires
                session.responses.len() <= 0xffff_ffff_ffff_ffff,
        ;
        let weighted: u128 = if questions.len() > 0 {
            total / questions.len() as u128
        } else {
            0
        };
        let weighted = weighted as i128;
        Score {
            raw_score: raw,
            weighted_score: weighted,
            percentile: None,
            time_bonus: weighted - raw,
            difficulty_bonus: 0,
            streak_bonus: 0,
            components: ScoreComponents {
                correctness: raw,
                speed: weighted - raw,
                difficulty: 0,
                consistency: 0,
            },
        }
    }

    fn difficulty_weighted_score(
        &self,
        session: &QuizSession,
        questions: &[Question],
        easy_multiplier: u32,
        medium_multiplier: u32,
        hard_multiplier: u32,
    ) -> (r: Score)
        ensures
            r == score_of(
                ScoringStrategy::DifficultyWeighted {
                    easy_multiplier,
                    medium_multiplier,
                    hard_multiplier,
                },
                session.responses@,
                session.skipped_questions@,
                questions@,
            ),
    {
        let raw = self.raw_score(session, questions) as i128;
        let (earned, answered) = weight_sums(
            &session.responses,
            questions,
            easy_multiplier,
            medium_multiplier,
            hard_multiplier,
        );
        let skipped = skipped_sum(
            &session.skipped_questions,
            questions,
            easy_multiplier,
            medium_multiplier,
            hard_multiplier,
        );
        assert(session.responses.len() * u32::MAX <= 0x1_0000_0000_0000_0000_0000_0000)
            by (nonlinear_arith)
            requires
                session.responses.len() <= 0xffff_ffff_ffff_ffff,
        ;
        assert(session.skipped_questions.len() * u32::MAX <= 0x1_0000_0000_0000_0000_0000_0000)
            by (nonlinear_arith)
            requires
                session.skipped_questions.len() <= 0xffff_ffff_ffff_ffff,
        ;
        let possible = answered + skipped;
        proof {
            lemma_ratio_at_most_unit(earned as int, possible as int);
        }
        let weighted = fraction(earned, possible) as i128;
        Score {
            raw_score: raw,
            weighted_score: weighted,
            percentile: None,
            time_bonus: 0,
            difficulty_bonus: weighted - raw,
            streak_bonus: 0,
            components: ScoreComponents {
                correctness: raw,
                speed: 0,
                difficulty: weighted - raw,
                consistency: 0,
            },
        }
    }

    fn adaptive_score(
        &self,
        session: &QuizSession,
        questions: &[Question],
        time_weight: u32,
        difficulty_weight: u32,
        streak_weight: u32,
        consistency_weight: u32,
    ) -> (r: Score)
        requires
            session.responses.len() <= u32::MAX,
        ensures
            r == score_of(
                ScoringStrategy::Adaptive {
                    time_weight,
                    difficulty_weight,
                    streak_weight,
                    consistency_weight,
                },
                session.responses@,
                session.skipped_questions@,
                questions@,
            ),
    {
        let raw = self.raw_score(session, questions);
        let speed = self.calculate_speed_score(session, questions);
        let difficulty = self.calculate_difficulty_score(session, questions);
        let streak = self.calculate_streak_score(&session.responses);
        let consistency = self.calculate_consistency_score(&session.responses);
        let unit = UNIT as u128;
        assert(raw * unit <= RAW_LIMIT * 1000000) by (nonlinear_arith)
            requires
                raw <= RAW_LIMIT,
                unit == 1000000,
        ;
        assert(speed * time_weight <= 1000000 * u32::MAX && difficulty * difficulty_weight <= 1000000
            * u32::MAX && streak * streak_weight <= 1000000 * u32::MAX && consistency
            * consistency_weight <= 1000000 * u32::MAX) by (nonlinear_arith)
            requires
                speed <= 1000000,
                difficulty <= 1000000,
                streak <= 1000000,
                consistency <= 1000000,
                time_weight <= u32::MAX,
                difficulty_weight <= u32::MAX,
                streak_weight <= u32::MAX,
                consistency_weight <= u32::MAX,
        ;
        let timed = speed * time_weight as u128;
        let hard = difficulty * difficulty_weight as u128;
        let steady = streak * streak_weight as u128;
        let even = consistency * consistency_weight as u128;
        let numerator = raw * unit + timed + hard + steady + even;
        let denominator = unit + time_weight as u128 + difficulty_weight as u128 + streak_weight as u128
            + consistency_weight as u128;
        proof {
            vstd::arithmetic::div_mod::lemma_div_is_ordered_by_denominator(
                numerator as int,
                1,
                denominator as int,
            );
        }
        let weighted = numerator / denominator;
        Score {
            raw_score: raw as i128,
            weighted_score: weighted as i128,
            percentile: None,
            time_bonus: (timed / unit) as i128,
            difficulty_bonus: (hard / unit) as i128,
            streak_bonus: (steady / unit) as i128,
            components: ScoreComponents {
                correctness: raw as i128,
                speed: speed as i128,
                difficulty: difficulty as i128,
                consistency: consistency as i128,
            },
        }
    }

    /// Expected over actual average time, capped at one.
    fn calculate_speed_score(&self, session: &QuizSession, questions: &[Question]) -> (r: u128)
        ensures
            r == speed_of(session.responses@, questions@),
            r <= UNIT,
    {
        let unit = UNIT as u128;
        let question_count: u128 = if questions.len() > 0 {
            questions.len() as u128
        } else {
            1
        };
        let response_count: u128 = if session.responses.len() > 0 {
            session.responses.len() as u128
        } else {
            1
        };
        let estimated = estimated_total(questions);
        let taken = total_time(&session.responses);
        assert(estimated * unit <= 0x1_0000_0000_0000_0000_0000_0000 * 1000000 && taken * unit
            <= 0x1_0000_0000_0000_0000_0000_0000 * 1000000) by (nonlinear_arith)
            requires
                estimated <= questions.len() * u32::MAX,
                taken <= session.responses.len() * u32::MAX,
                questions.len() <= 0xffff_ffff_ffff_ffff,
                session.responses.len() <= 0xffff_ffff_ffff_ffff,
                unit == 1000000,
        ;
        proof {
            if questions.len() > 0 {
                lemma_average_bound(estimated as int, question_count as int, u32::MAX as int);
            }
        }
        let expected = estimated * unit / question_count;
        let actual = taken * unit / response_count;
        let floor = if actual > unit {
            actual
        } else {
            unit
        };
        assert(expected * unit <= u32::MAX * 1000000 * 1000000) by (nonlinear_arith)
            requires
                expected <= u32::MAX * 1000000,
                unit == 1000000,
        ;
        let pace = expected * unit / floor;
        if pace < unit {
            pace
        } else {
            unit
        }
    }

    /// The share of the answered difficulty that was answered correctly.
    fn calculate_difficulty_score(&self, session: &QuizSession, questions: &[Question]) -> (r: u128)
        ensures
            r == difficulty_of(session.responses@, questions@),
            r <= UNIT,
    {
        let (correct, all) = difficulty_sums(&session.responses, questions);
        assert(session.responses.len() * u32::MAX <= 0x1_0000_0000_0000_0000_0000_0000)
            by (nonlinear_arith)
            requires
                session.responses.len() <= 0xffff_ffff_ffff_ffff,
        ;
        proof {
            lemma_ratio_at_most_unit(correct as int, all as int);
        }
        fraction(correct, all)
    }

    /// The longest correct run over the number of responses.
    fn calculate_streak_score(&self, responses: &Vec<QuestionResponse>) -> (r: u128)
        ensures
            r == streak_of(responses@),
            r <= UNIT,
    {
        let best = longest_streak(responses);
        proof {
            lemma_ratio_at_most_unit(best as int, responses.len() as int);
        }
        fraction(best as u128, responses.len() as u128)
    }

    /// How even the response times are: `1 / (1 + cv)`.
    fn calculate_consistency_score(&self, responses: &Vec<QuestionResponse>) -> (r: u128)
        requires
            responses.len() <= u32::MAX,
        ensures
            r == consistency_of(responses@),
            r <= UNIT,
    {
        if responses.len() < 2 {
            return UNIT as u128;
        }
        let total = total_time(responses);
        if total == 0 {
            return UNIT as u128;
        }
        let spread_root = integer_root(spread_of(responses));
        proof {
            lemma_root_unique(spread_root as int, spread(responses@));
            lemma_ratio_at_most_unit(total as int, total + spread_root);
        }
        assert(total <= 0xffff_ffff * 0xffff_ffff) by (nonlinear_arith)
            requires
                total <= responses.len() * u32::MAX,
                responses.len() <= u32::MAX,
        ;
        assert(spread_root <= 0x1_0000_0000_0000_0000) by (nonlinear_arith)
            requires
                spread_root * spread_root <= u128::MAX,
        ;
        fraction(total, total + spread_root)
    }
}

/// With every adaptive weight at zero, the adaptive weighted score is
/// exactly the raw score.
pub proof fn adaptive_without_weights_is_raw(
    rs: Seq<QuestionResponse>,
    skipped: Seq<usize>,
    qs: Seq<Question>,
)
    ensures
        ({
            let s = score_of(
                ScoringStrategy::Adaptive {
                    time_weight: 0,
                    difficulty_weight: 0,
                    streak_weight: 0,
                    consistency_weight: 0,
                },
                rs,
                skipped,
                qs,
            );
            s.weighted_score == s.raw_score
        }),
{
    let raw = raw_of(rs, qs);
    vstd::arithmetic::div_mod::lemma_div_multiples_vanish(raw, UNIT as int);
    assert(raw * (UNIT as int) == (UNIT as int) * raw) by (nonlinear_arith);
}

proof fn lemma_all_correct_weight(rs: Seq<QuestionResponse>, qs: Seq<Question>, e: u32, m: u32, h: u32)
    requires
        forall|i: int| 0 <= i < rs.len() ==> #[trigger] rs[i].is_correct,
    ensures
        response_weight(rs, qs, e, m, h, true) == response_weight(rs, qs, e, m, h, false),
    decreases rs.len(),
{
    if rs.len() > 0 {
        let rest = rs.drop_last();
        assert forall|i: int| 0 <= i < rest.len() implies #[trigger] rest[i].is_correct by {
            assert(rest[i] == rs[i]);
        }
        lemma_all_correct_weight(rest, qs, e, m, h);
        assert(rs.last().is_correct);
    }
}

/// When every response is correct and nothing is skipped, the
/// difficulty-weighted score is one whole, whatever the multipliers, as long
/// as the answered questions carry some weight.
pub proof fn difficulty_weighted_all_correct_is_whole(
    rs: Seq<QuestionResponse>,
    qs: Seq<Question>,
    easy_multiplier: u32,
    medium_multiplier: u32,
    hard_multiplier: u32,
)
    requires
        forall|i: int| 0 <= i < rs.len() ==> #[trigger] rs[i].is_correct,
        response_weight(rs, qs, easy_multiplier, medium_multiplier, hard_multiplier, false) > 0,
    ensures
        score_of(
            ScoringStrategy::DifficultyWeighted { easy_multiplier, medium_multiplier, hard_multiplier },
            rs,
            Seq::empty(),
            qs,
        ).weighted_score == UNIT,
{
    lemma_all_correct_weight(rs, qs, easy_multiplier, medium_multiplier, hard_multiplier);
    let p = response_weight(rs, qs, easy_multiplier, medium_multiplier, hard_multiplier, false);
    assert(skipped_weight(Seq::<usize>::empty(), qs, easy_multiplier, medium_multiplier, hard_multiplier) == 0);
    vstd::arithmetic::div_mod::lemma_div_multiples_vanish(UNIT as int, p);
    assert(p * (UNIT as int) == (UNIT as int) * p) by (nonlinear_arith);
}

} // verus!
