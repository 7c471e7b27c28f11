use crate::fixed::{fraction, lemma_ratio_at_most_unit, ratio, UNIT};
use crate::outside::{new_id, now_millis};
use crate::question::{answer_is_correct, validation_error, Answer, Question};
use std::collections::HashMap;
use vstd::prelude::*;

verus! {

#[derive(Debug, Clone, Copy, PartialEq, Eq, Structural)]
pub enum SessionState {
    NotStarted,
    InProgress,
    Paused,
    Completed,
    Abandoned,
}

/// The recorded outcome of one question within a session.
#[derive(Debug, Clone)]
pub struct QuestionResponse {
    pub question_id: u128,
    pub answer: Answer,
    pub is_correct: bool,
    /// Cumulative over all attempts.
    pub time_taken_seconds: u32,
    pub attempts: u32,
    pub submitted_at: i64,
}

/// One learner's attempt at a quiz. Times are milliseconds since the Unix
/// epoch; `pause_duration` is in milliseconds.
#[derive(Debug, Clone)]
pub struct QuizSession {
    pub id: u128,
    pub quiz_id: u128,
    pub user_id: Option<u128>,
    pub state: SessionState,
    pub current_question_index: usize,
    pub responses: Vec<QuestionResponse>,
    pub skipped_questions: Vec<usize>,
    pub start_time: Option<i64>,
    pub end_time: Option<i64>,
    pub pause_duration: i64,
    pub last_activity: i64,
    pub metadata: HashMap<String, serde_json::Value>,
}

/// The report produced when a session completes. `score` and
/// `completion_rate` are fixed-point; `duration` is in milliseconds.
#[derive(Debug, Clone)]
pub struct SessionSummary {
    pub session_id: u128,
    pub quiz_id: u128,
    pub score: u64,
    pub correct_answers: usize,
    pub total_questions: usize,
    pub skipped_questions: usize,
    pub total_time_seconds: u32,
    pub duration: i64,
    pub average_time_per_question: u32,
    pub completion_rate: u64,
}

/// `x`, brought into the range of `i64`.
pub open spec fn clamp_i64(x: int) -> i64 {
    if x < i64::MIN {
        i64::MIN
    } else if x > i64::MAX {
        i64::MAX
    } else {
        x as i64
    }
}

fn clamp_to_i64(x: i128) -> (r: i64)
    ensures
        r == clamp_i64(x as int),
{
    if x < i64::MIN as i128 {
        i64::MIN
    } else if x > i64::MAX as i128 {
        i64::MAX
    } else {
        x as i64
    }
}

/// How many responses are marked correct.
pub open spec fn count_correct(rs: Seq<QuestionResponse>) -> nat
    decreases rs.len(),
{
    if rs.len() == 0 {
        0
    } else {
        count_correct(rs.drop_last()) + if rs.last().is_correct {
            1nat
        } else {
            0nat
        }
    }
}

/// The total recorded response time, in seconds.
pub open spec fn sum_times(rs: Seq<QuestionResponse>) -> nat
    decreases rs.len(),
{
    if rs.len() == 0 {
        0
    } else {
        sum_times(rs.drop_last()) + rs.last().time_taken_seconds as nat
    }
}

pub proof fn lemma_count_correct_bound(rs: Seq<QuestionResponse>)
    ensures
        count_correct(rs) <= rs.len(),
    decreases rs.len(),
{
    if rs.len() > 0 {
        lemma_count_correct_bound(rs.drop_last());
    }
}

/// How many responses are marked correct.
pub fn correct_count(rs: &Vec<QuestionResponse>) -> (c: usize)
    ensures
        c == count_correct(rs@),
{
    let mut c: usize = 0;
    let mut i: usize = 0;
    while i < rs.len()
        invariant
            i <= rs.len(),
            c == count_correct(rs@.subrange(0, i as int)),
        decreases rs.len() - i,
    {
        proof {
            assert(rs@.subrange(0, i + 1).drop_last() =~= rs@.subrange(0, i as int));
            lemma_count_correct_bound(rs@.subrange(0, i as int));
        }
        if rs[i].is_correct {
            c = c + 1;
        }
        i = i + 1;
    }
    assert(rs@.subrange(0, i as int) =~= rs@);
    c
}

/// The total recorded response time, in seconds, widened so it cannot
/// overflow.
pub fn total_time(rs: &Vec<QuestionResponse>) -> (t: u128)
    ensures
        t == sum_times(rs@),
        t <= rs.len() * (u32::MAX as int),
{
    let mut t: u128 = 0;
    let mut i: usize = 0;
    while i < rs.len()
        invariant
            i <= rs.len(),
            t == sum_times(rs@.subrange(0, i as int)),
            t <= i * (u32::MAX as int),
        decreases rs.len() - i,
    {
        proof {
            assert(rs@.subrange(0, i + 1).drop_last() =~= rs@.subrange(0, i as int));
            assert((i + 1) * (u32::MAX as int) == i * (u32::MAX as int) + u32::MAX) by (nonlinear_arith);
            assert(i * (u32::MAX as int) <= usize::MAX * (u32::MAX as int)) by (nonlinear_arith)
                requires i <= usize::MAX;
        }
        t = t + rs[i].time_taken_seconds as u128;
        i = i + 1;
    }
    assert(rs@.subrange(0, i as int) =~= rs@);
    t
}

/// Whether `x` occurs in `v`.
fn contains_index(v: &Vec<usize>, x: usize) -> (r: bool)
    ensures
        r == v@.contains(x),
{
    let mut i: usize = 0;
    while i < v.len()
        invariant
            i <= v.len(),
            forall|k: int| 0 <= k < i ==> #[trigger] v@[k] != x,
        decreases v.len() - i,
    {
        if v[i] == x {
            assert(v@[i as int] == x);
            return true;
        }
        i = i + 1;
    }
    false
}

/// The letter grade of a fixed-point score.
pub open spec fn grade_of(score: int) -> Seq<char> {
    if score >= 900000 {
        "A"@
    } else if score >= 800000 {
        "B"@
    } else if score >= 700000 {
        "C"@
    } else if score >= 600000 {
        "D"@
    } else {
        "F"@
    }
}

impl QuizSession {
    /// Responses carry distinct question ids.
    pub open spec fn wf(&self) -> bool {
        forall|i: int, j: int|
            0 <= i < j < self.responses.len() ==> #[trigger] self.responses@[i].question_id
                != #[trigger] self.responses@[j].question_id
    }

    /// The session after a successful `start` at `now`.
    pub open spec fn started(self, now: i64) -> QuizSession {
        QuizSession { state: SessionState::InProgress, start_time: Some(now), last_activity: now, ..self }
    }

    /// The session after a successful `pause` at `now`.
    pub open spec fn paused(self, now: i64) -> QuizSession {
        QuizSession { state: SessionState::Paused, last_activity: now, ..self }
    }

    /// The session after a successful `resume` at `now`: the time since the
    /// last activity is added to the pause total.
    pub open spec fn resumed(self, now: i64) -> QuizSession {
        QuizSession {
            state: SessionState::InProgress,
            pause_duration: clamp_i64(self.pause_duration + (now - self.last_activity)),
            last_activity: now,
            ..self
        }
    }

    /// `next` is this session after skipping question `index` at `now`: the
    /// index is recorded once, and the activity time moves to `now`.
    pub open spec fn skipped_into(self, next: QuizSession, index: usize, now: i64) -> bool {
        &&& next.skipped_questions@ == if self.skipped_questions@.contains(index) {
            self.skipped_questions@
        } else {
            self.skipped_questions@.push(index)
        }
        &&& next == QuizSession {
            skipped_questions: next.skipped_questions,
            last_activity: now,
            ..self
        }
    }

    /// A new session that has not started, with no responses and no pauses.
    pub fn new(quiz_id: u128, user_id: Option<u128>) -> (r: QuizSession)
        ensures
            r.wf(),
            r.quiz_id == quiz_id,
            r.user_id == user_id,
            r.state == SessionState::NotStarted,
            r.current_question_index == 0,
            r.responses@.len() == 0,
            r.skipped_questions@.len() == 0,
            r.start_time is None,
            r.end_time is None,
            r.pause_duration == 0,
            r.metadata@ == Map::<String, serde_json::Value>::empty(),
    {
        QuizSession {
            id: new_id(),
            quiz_id,
            user_id,
            state: SessionState::NotStarted,
            current_question_index: 0,
            responses: Vec::new(),
            skipped_questions: Vec::new(),
            start_time: None,
            end_time: None,
            pause_duration: 0,
            last_activity: now_millis(),
            metadata: HashMap::new(),
        }
    }

    /// Starts a session that has not started yet, at time `now`.
    pub fn start_at(&mut self, now: i64) -> (r: Result<(), String>)
        ensures
            old(self).state == SessionState::NotStarted ==> r is Ok && *final(self) == old(
                self,
            ).started(now),
            old(self).state != SessionState::NotStarted ==> r is Err && r->Err_0@
                == "Session already started"@ && *final(self) == *old(self),
    {
        match self.state {
            SessionState::NotStarted => {
                self.state = SessionState::InProgress;
                self.start_time = Some(now);
                self.last_activity = now;
                Ok(())
            },
            _ => Err("Session already started".to_owned()),
        }
    }

    /// Starts a session that has not started yet, now.
    pub fn start(&mut self) -> (r: Result<(), String>)
        ensures
            old(self).state == SessionState::NotStarted ==> r is Ok && exists|now: i64|
                *final(self) == old(self).started(now),
            old(self).state != SessionState::NotStarted ==> r is Err && *final(self) == *old(self),
    {
        self.start_at(now_millis())
    }

    /// Pauses an in-progress session at time `now`.
    pub fn pause_at(&mut self, now: i64) -> (r: Result<(), String>)
        ensures
            old(self).state == SessionState::InProgress ==> r is Ok && *final(self) == old(
                self,
            ).paused(now),
            old(self).state != SessionState::InProgress ==> r is Err && r->Err_0@
                == "Can only pause an in-progress session"@ && *final(self) == *old(self),
    {
        match self.state {
            SessionState::InProgress => {
                self.state = SessionState::Paused;
                self.last_activity = now;
                Ok(())
            },
            _ => Err("Can only pause an in-progress session".to_owned()),
        }
    }

    /// Pauses an in-progress session now.
    pub fn pause(&mut self) -> (r: Result<(), String>)
        ensures
            old(self).state == SessionState::InProgress ==> r is Ok && exists|now: i64|
                *final(self) == old(self).paused(now),
            old(self).state != SessionState::InProgress ==> r is Err && *final(self) == *old(self),
    {
        self.pause_at(now_millis())
    }

    /// Resumes a paused session at time `now`, adding the pause to the
    /// accumulated pause duration.
    pub fn resume_at(&mut self, now: i64) -> (r: Result<(), String>)
        ensures
            old(self).state == SessionState::Paused ==> r is Ok && *final(self) == old(
                self,
            ).resumed(now),
            old(self).state != SessionState::Paused ==> r is Err && r->Err_0@
                == "Can only resume a paused session"@ && *final(self) == *old(self),
    {
        match self.state {
            SessionState::Paused => {
                let paused_for = now as i128 - self.last_activity as i128;
                self.pause_duration = clamp_to_i64(self.pause_duration as i128 + paused_for);
                self.state = SessionState::InProgress;
                self.last_activity = now;
                Ok(())
            },
            _ => Err("Can only resume a paused session".to_owned()),
        }
    }

    /// Resumes a paused session now.
    pub fn resume(&mut self) -> (r: Result<(), String>)
        ensures
            old(self).state == SessionState::Paused ==> r is Ok && exists|now: i64|
                *final(self) == old(self).resumed(now),
            old(self).state != SessionState::Paused ==> r is Err && *final(self) == *old(self),
    {
        self.resume_at(now_millis())
    }

    /// Marks question `index` skipped (once) at time `now`, in any state.
    pub fn skip_question_at(&mut self, index: usize, now: i64)
        ensures
            old(self).skipped_into(*final(self), index, now),
    {
        if !contains_index(&self.skipped_questions, index) {
            self.skipped_questions.push(index);
        }
        self.last_activity = now;
    }

    /// Marks question `index` skipped (once), now.
    pub fn skip_question(&mut self, index: usize)
        ensures
            exists|now: i64| old(self).skipped_into(*final(self), index, now),
    {
        self.skip_question_at(index, now_millis())
    }

    /// `next` is this session after recording, at `now`, an answer to
    /// `question` that took `seconds`: a first answer appends a response with
    /// one attempt; a resubmission replaces the answer and its correctness,
    /// adds one attempt and adds the time to the recorded time.
    pub open spec fn submitted_into(
        self,
        next: QuizSession,
        question: Question,
        answer: Answer,
        seconds: u32,
        now: i64,
    ) -> bool {
        let correct = answer_is_correct(question.question_type, answer);
        &&& next == QuizSession { responses: next.responses, last_activity: now, ..self }
        &&& if has_response(self.responses@, question.id) {
            exists|p: int|
                is_first_response(self.responses@, p, question.id) && next.responses@
                    == self.responses@.update(
                    p,
                    QuestionResponse {
                        question_id: question.id,
                        answer,
                        is_correct: correct,
                        time_taken_seconds: (self.responses@[p].time_taken_seconds
                            + seconds) as u32,
                        attempts: (self.responses@[p].attempts + 1) as u32,
                        submitted_at: now,
                    },
                )
        } else {
            next.responses@ == self.responses@.push(
                QuestionResponse {
                    question_id: question.id,
                    answer,
                    is_correct: correct,
                    time_taken_seconds: seconds,
                    attempts: 1,
                    submitted_at: now,
                },
            )
        }
    }

    /// A resubmission of `question` keeps the cumulative time and the
    /// attempt count within 32 bits.
    pub open spec fn resubmission_fits(self, question_id: u128, seconds: u32) -> bool {
        forall|k: int|
            0 <= k < self.responses.len() && #[trigger] self.responses@[k].question_id
                == question_id ==> self.responses@[k].time_taken_seconds + seconds <= u32::MAX
                && self.responses@[k].attempts < u32::MAX
    }

    /// Records an answer to `question` at time `now`, returning whether it
    /// is correct. Refused unless the session is in progress and the answer
    /// passes validation; a refusal changes nothing.
    pub fn submit_answer_at(&mut self, question: &Question, answer: Answer, seconds: u32, now: i64) -> (r:
        Result<bool, String>)
        requires
            old(self).resubmission_fits(question.id, seconds),
        ensures
            old(self).state != SessionState::InProgress ==> r is Err && r->Err_0@
                == "Session is not in progress"@ && *final(self) == *old(self),
            old(self).state == SessionState::InProgress && validation_error(
                question.question_type,
                answer,
            ) is Some ==> r is Err && r->Err_0@ == validation_error(
                question.question_type,
                answer,
            )->Some_0 && *final(self) == *old(self),
            old(self).state == SessionState::InProgress && validation_error(
                question.question_type,
                answer,
            ) is None ==> r == Ok::<bool, String>(
                answer_is_correct(question.question_type, answer),
            ) && old(self).submitted_into(*final(self), *question, answer, seconds, now),
            old(self).wf() ==> final(self).wf(),
    {
        if self.state != SessionState::InProgress {
            return Err("Session is not in progress".to_owned());
        }
        let correct = match question.validate_answer(&answer) {
            Ok(c) => c,
            Err(e) => {
                return Err(e);
            },
        };
        let mut i: usize = 0;
        while i < self.responses.len()
            invariant
                *self == *old(self),
                old(self).resubmission_fits(question.id, seconds),
                old(self).state == SessionState::InProgress,
                validation_error(question.question_type, answer) is None,
                correct == answer_is_correct(question.question_type, answer),
                i <= self.responses.len(),
                forall|k: int| 0 <= k < i ==> #[trigger] self.responses@[k].question_id != question.id,
            decreases self.responses.len() - i,
        {
            if self.responses[i].question_id == question.id {
                assert(self.responses@[i as int].question_id == question.id);
                let previous_time = self.responses[i].time_taken_seconds;
                let previous_attempts = self.responses[i].attempts;
                let updated = QuestionResponse {
                    question_id: question.id,
                    answer,
                    is_correct: correct,
                    time_taken_seconds: previous_time + seconds,
                    attempts: previous_attempts + 1,
                    submitted_at: now,
                };
                self.responses.set(i, updated);
                self.last_activity = now;
                proof {
                    assert(is_first_response(old(self).responses@, i as int, question.id));
                    assert(has_response(old(self).responses@, question.id));
                    if old(self).wf() {
                        assert forall|a: int, b: int|
                            0 <= a < b < self.responses.len() implies #[trigger] self.responses@[a].question_id
                            != #[trigger] self.responses@[b].question_id by {
                            assert(old(self).responses@[a].question_id
                                != old(self).responses@[b].question_id);
                        }
                    }
                }
                return Ok(correct);
            }
            i = i + 1;
        }
        self.responses.push(
            QuestionResponse {
                question_id: question.id,
                answer,
                is_correct: correct,
                time_taken_seconds: seconds,
                attempts: 1,
                submitted_at: now,
            },
        );
        self.last_activity = now;
        proof {
            assert(!has_response(old(self).responses@, question.id));
        }
        Ok(correct)
    }

    /// Records an answer to `question` now; see `submit_answer_at`.
    pub fn submit_answer(&mut self, question: &Question, answer: Answer, seconds: u32) -> (r: Result<
        bool,
        String,
    >)
        requires
            old(self).resubmission_fits(question.id, seconds),
        ensures
            old(self).state != SessionState::InProgress ==> r is Err && *final(self) == *old(self),
            old(self).state == SessionState::InProgress && validation_error(
                question.question_type,
                answer,
            ) is Some ==> r is Err && r->Err_0@ == validation_error(
                question.question_type,
                answer,
            )->Some_0 && *final(self) == *old(self),
            old(self).state == SessionState::InProgress && validation_error(
                question.question_type,
                answer,
            ) is None ==> r == Ok::<bool, String>(
                answer_is_correct(question.question_type, answer),
            ) && exists|now: i64|
                old(self).submitted_into(*final(self), *question, answer, seconds, now),
            old(self).wf() ==> final(self).wf(),
    {
        self.submit_answer_at(question, answer, seconds, now_millis())
    }
}

impl QuizSession {
    /// The session after moving to question `index` at `now`.
    pub open spec fn moved_to(self, index: usize, now: i64) -> QuizSession {
        QuizSession { current_question_index: index, last_activity: now, ..self }
    }

    /// The session after completing at `now`.
    pub open spec fn completed(self, now: i64) -> QuizSession {
        QuizSession { state: SessionState::Completed, end_time: Some(now), ..self }
    }

    /// The session after abandoning at `now`.
    pub open spec fn abandoned(self, now: i64) -> QuizSession {
        QuizSession { state: SessionState::Abandoned, end_time: Some(now), ..self }
    }

    /// Moves to the next question, at time `now`.
    pub fn next_question_at(&mut self, now: i64) -> (r: Result<(), String>)
        requires
            old(self).current_question_index < usize::MAX,
        ensures
            old(self).state == SessionState::InProgress ==> r is Ok && *final(self) == old(self).moved_to((old(self).current_question_index + 1) as usize, now),
            old(self).state != SessionState::InProgress ==> r is Err && r->Err_0@
                == "Session is not in progress"@ && *final(self) == *old(self),
    {
        if self.state != SessionState::InProgress {
            return Err("Session is not in progress".to_owned());
        }
        self.current_question_index = self.current_question_index + 1;
        self.last_activity = now;
        Ok(())
    }

    /// Moves to the next question, now.
    pub fn next_question(&mut self) -> (r: Result<(), String>)
        requires
            old(self).current_question_index < usize::MAX,
        ensures
            old(self).state == SessionState::InProgress ==> r is Ok && exists|now: i64|
                *final(self) == #[trigger] old(self).moved_to((old(self).current_question_index + 1) as usize, now),
            old(self).state != SessionState::InProgress ==> r is Err && *final(self) == *old(self),
    {
        self.next_question_at(now_millis())
    }

    /// Moves back one question, at time `now`; refused at the first question.
    pub fn previous_question_at(&mut self, now: i64) -> (r: Result<(), String>)
        ensures
            old(self).state != SessionState::InProgress ==> r is Err && r->Err_0@
                == "Session is not in progress"@ && *final(self) == *old(self),
            old(self).state == SessionState::InProgress && old(self).current_question_index == 0
                ==> r is Err && r->Err_0@ == "Already at first question"@ && *final(self) == *old(
                self,
            ),
            old(self).state == SessionState::InProgress && old(self).current_question_index > 0
                ==> r is Ok && *final(self) == old(self).moved_to((old(self).current_question_index - 1) as usize, now),
    {
        if self.state != SessionState::InProgress {
            return Err("Session is not in progress".to_owned());
        }
        if self.current_question_index > 0 {
            self.current_question_index = self.current_question_index - 1;
            self.last_activity = now;
            Ok(())
        } else {
            Err("Already at first question".to_owned())
        }
    }

    /// Moves back one question, now; refused at the first question.
    pub fn previous_question(&mut self) -> (r: Result<(), String>)
        ensures
            old(self).state != SessionState::InProgress ==> r is Err && *final(self) == *old(self),
            old(self).state == SessionState::InProgress && old(self).current_question_index == 0
                ==> r is Err && r->Err_0@ == "Already at first question"@ && *final(self) == *old(
                self,
            ),
            old(self).state == SessionState::InProgress && old(self).current_question_index > 0
                ==> r is Ok && exists|now: i64|
                *final(self) == #[trigger] old(self).moved_to((old(self).current_question_index - 1) as usize, now),
    {
        self.previous_question_at(now_millis())
    }

    /// The counts and the recorded time fit the summary's fields.
    pub open spec fn summary_fits(&self) -> bool {
        &&& self.responses.len() + self.skipped_questions.len() <= usize::MAX
        &&& sum_times(self.responses@) <= u32::MAX
    }

    /// The summary of this session, with `now` standing for the end time
    /// while the session is still open.
    pub open spec fn summary_of(self, now: i64) -> SessionSummary {
        let answered = self.responses.len() as int;
        let total = answered + self.skipped_questions.len();
        let correct = count_correct(self.responses@) as int;
        let time = sum_times(self.responses@) as int;
        SessionSummary {
            session_id: self.id,
            quiz_id: self.quiz_id,
            score: ratio(correct, total) as u64,
            correct_answers: correct as usize,
            total_questions: total as usize,
            skipped_questions: self.skipped_questions.len(),
            total_time_seconds: time as u32,
            duration: match self.start_time {
                None => 0,
                Some(start) => clamp_i64(
                    match self.end_time {
                        Some(end) => end,
                        None => now,
                    } - start - self.pause_duration,
                ),
            },
            average_time_per_question: if answered > 0 {
                (time / answered) as u32
            } else {
                0
            },
            completion_rate: ratio(answered, total) as u64,
        }
    }

    /// Summarises the session: answered plus skipped questions make the
    /// total; score and completion rate are fractions of it (zero for an
    /// empty session); the average time is truncated; the duration excludes
    /// pauses and runs to `now` while the session is open.
    pub fn generate_summary_at(&self, now: i64) -> (r: SessionSummary)
        requires
            self.summary_fits(),
        ensures
            r == self.summary_of(now),
            r.score <= UNIT,
            r.completion_rate <= UNIT,
    {
        let answered = self.responses.len();
        let total = answered + self.skipped_questions.len();
        let correct = correct_count(&self.responses);
        let time = total_time(&self.responses);
        proof {
            lemma_count_correct_bound(self.responses@);
            lemma_ratio_at_most_unit(correct as int, total as int);
            lemma_ratio_at_most_unit(answered as int, total as int);
        }
        let score = fraction(correct as u128, total as u128) as u64;
        let completion_rate = fraction(answered as u128, total as u128) as u64;
        let duration = match self.start_time {
            None => 0,
            Some(start) => {
                let end = match self.end_time {
                    Some(end) => end,
                    None => now,
                };
                clamp_to_i64(end as i128 - start as i128 - self.pause_duration as i128)
            },
        };
        let average = if answered > 0 {
            (time / answered as u128) as u32
        } else {
            0
        };
        SessionSummary {
            session_id: self.id,
            quiz_id: self.quiz_id,
            score,
            correct_answers: correct,
            total_questions: total,
            skipped_questions: self.skipped_questions.len(),
            total_time_seconds: time as u32,
            duration,
            average_time_per_question: average,
            completion_rate,
        }
    }

    /// Summarises the session as of now; see `generate_summary_at`.
    pub fn generate_summary(&self) -> (r: SessionSummary)
        requires
            self.summary_fits(),
        ensures
            exists|now: i64| r == self.summary_of(now),
    {
        self.generate_summary_at(now_millis())
    }

    /// Completes an in-progress session at time `now` and summarises it.
    pub fn complete_at(&mut self, now: i64) -> (r: Result<SessionSummary, String>)
        requires
            old(self).summary_fits(),
        ensures
            old(self).state == SessionState::InProgress ==> *final(self) == old(self).completed(now) && r == Ok::<SessionSummary, String>(final(self).summary_of(now)),
            old(self).state != SessionState::InProgress ==> r is Err && r->Err_0@
                == "Can only complete an in-progress session"@ && *final(self) == *old(self),
    {
        match self.state {
            SessionState::InProgress => {
                self.state = SessionState::Completed;
                self.end_time = Some(now);
                Ok(self.generate_summary_at(now))
            },
            _ => Err("Can only complete an in-progress session".to_owned()),
        }
    }

    /// Completes an in-progress session now and summarises it.
    pub fn complete(&mut self) -> (r: Result<SessionSummary, String>)
        requires
            old(self).summary_fits(),
        ensures
            old(self).state == SessionState::InProgress ==> exists|now: i64|
                *final(self) == #[trigger] old(self).completed(now) && r == Ok::<SessionSummary, String>(final(self).summary_of(now)),
            old(self).state != SessionState::InProgress ==> r is Err && *final(self) == *old(self),
    {
        self.complete_at(now_millis())
    }

    /// Abandons the session from any state, at time `now`.
    pub fn abandon_at(&mut self, now: i64)
        ensures
            *final(self) == old(self).abandoned(now),
    {
        self.state = SessionState::Abandoned;
        self.end_time = Some(now);
    }

    /// Abandons the session from any state, now.
    pub fn abandon(&mut self)
        ensures
            exists|now: i64|
                *final(self) == #[trigger] old(self).abandoned(now),
    {
        self.abandon_at(now_millis())
    }

    /// The fraction of `total_questions` answered so far, fixed-point; zero
    /// when there are no questions.
    pub fn get_progress(&self, total_questions: usize) -> (r: u128)
        ensures
            r == ratio(self.responses.len() as int, total_questions as int),
    {
        fraction(self.responses.len() as u128, total_questions as u128)
    }
}

impl SessionSummary {
    /// Whether the score reaches the threshold (fixed-point).
    pub fn passed(&self, pass_threshold: u64) -> (r: bool)
        ensures
            r == (self.score >= pass_threshold),
    {
        self.score >= pass_threshold
    }

    /// The letter grade: A from 0.9, B from 0.8, C from 0.7, D from 0.6,
    /// F below.
    pub fn get_grade(&self) -> (r: &'static str)
        ensures
            r@ == grade_of(self.score as int),
    {
        if self.score >= 900000 {
            "A"
        } else if self.score >= 800000 {
            "B"
        } else if self.score >= 700000 {
            "C"
        } else if self.score >= 600000 {
            "D"
        } else {
            "F"
        }
    }
}

/// `p` is the position of the first response to question `id`.
pub open spec fn is_first_response(rs: Seq<QuestionResponse>, p: int, id: u128) -> bool {
    &&& 0 <= p < rs.len()
    &&& rs[p].question_id == id
    &&& forall|k: int| 0 <= k < p ==> #[trigger] rs[k].question_id != id
}

/// Some response answers question `id`.
pub open spec fn has_response(rs: Seq<QuestionResponse>, id: u128) -> bool {
    exists|k: int| 0 <= k < rs.len() && #[trigger] rs[k].question_id == id
}

/// Answering a question twice leaves one response for it: two attempts,
/// the two times added, and the correctness of the second answer.
pub proof fn resubmission_accumulates(
    s0: QuizSession,
    s1: QuizSession,
    s2: QuizSession,
    question: Question,
    first: Answer,
    second: Answer,
    first_seconds: u32,
    second_seconds: u32,
    first_now: i64,
    second_now: i64,
)
    requires
        !has_response(s0.responses@, question.id),
        s0.submitted_into(s1, question, first, first_seconds, first_now),
        s1.submitted_into(s2, question, second, second_seconds, second_now),
        first_seconds + second_seconds <= u32::MAX,
    ensures
        s2.responses.len() == s0.responses.len() + 1,
        s2.responses@.last().question_id == question.id,
        s2.responses@.last().attempts == 2,
        s2.responses@.last().time_taken_seconds == first_seconds + second_seconds,
        s2.responses@.last().is_correct == answer_is_correct(question.question_type, second),
        forall|k: int| 0 <= k < s0.responses.len() ==> s2.responses@[k] == s0.responses@[k],
{
    let n = s0.responses.len() as int;
    assert(s1.responses@[n].question_id == question.id);
    assert(has_response(s1.responses@, question.id));
    let p = choose|p: int|
        is_first_response(s1.responses@, p, question.id) && s2.responses@ == s1.responses@.update(
            p,
            QuestionResponse {
                question_id: question.id,
                answer: second,
                is_correct: answer_is_correct(question.question_type, second),
                time_taken_seconds: (s1.responses@[p].time_taken_seconds + second_seconds) as u32,
                attempts: (s1.responses@[p].attempts + 1) as u32,
                submitted_at: second_now,
            },
        );
    if p < n {
        assert(s0.responses@[p].question_id == question.id);
    }
    assert(p == n);
}

} // verus!
