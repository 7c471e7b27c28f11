use crate::fixed::UNIT;
use crate::outside::{new_id, now_millis, shuffle_indices};
use crate::question::{Citation, Question};
use std::collections::HashMap;
use vstd::prelude::*;

verus! {

/// An ordered set of questions with quiz-level settings and fields derived
/// from the questions.
#[derive(Debug)]
pub struct Quiz {
    pub id: u128,
    pub title: String,
    pub description: Option<String>,
    pub questions: Vec<Question>,
    /// Every topic of a question ever added; removal does not prune it.
    pub topic_ids: Vec<u128>,
    /// Lowest and highest difficulty, fixed-point.
    pub difficulty_range: (u32, u32),
    pub estimated_duration_minutes: u32,
    /// Fixed-point, in millionths, within `0..=UNIT`.
    pub pass_threshold: u32,
    pub allow_skip: bool,
    pub show_explanations: bool,
    pub randomize_questions: bool,
    pub randomize_options: bool,
    pub tags: Vec<String>,
    pub metadata: HashMap<String, serde_json::Value>,
    pub created_at: i64,
    pub updated_at: i64,
}

/// The lowest difficulty, folded from `UNIT`.
pub open spec fn min_difficulty(qs: Seq<Question>) -> int
    decreases qs.len(),
{
    if qs.len() == 0 {
        UNIT as int
    } else {
        let rest = min_difficulty(qs.drop_last());
        let d = qs.last().difficulty as int;
        if d < rest {
            d
        } else {
            rest
        }
    }
}

/// The highest difficulty, folded from zero.
pub open spec fn max_difficulty(qs: Seq<Question>) -> int
    decreases qs.len(),
{
    if qs.len() == 0 {
        0
    } else {
        let rest = max_difficulty(qs.drop_last());
        let d = qs.last().difficulty as int;
        if d > rest {
            d
        } else {
            rest
        }
    }
}

/// The difficulty range of a question list: `(0, UNIT)` when it is empty.
pub open spec fn difficulty_range_of(qs: Seq<Question>) -> (int, int) {
    if qs.len() == 0 {
        (0, UNIT as int)
    } else {
        (min_difficulty(qs), max_difficulty(qs))
    }
}

/// The sum of the questions' estimated times, in seconds.
pub open spec fn total_seconds(qs: Seq<Question>) -> nat
    decreases qs.len(),
{
    if qs.len() == 0 {
        0
    } else {
        total_seconds(qs.drop_last()) + qs.last().estimated_time_seconds as nat
    }
}

/// Whole minutes of the estimated times, but at least one.
pub open spec fn duration_minutes_of(qs: Seq<Question>) -> int {
    let m = total_seconds(qs) as int / 60;
    if m < 1 {
        1
    } else {
        m
    }
}

/// `p` is the first position of a question with this id.
pub open spec fn is_first_with_id(qs: Seq<Question>, p: int, id: u128) -> bool {
    &&& 0 <= p < qs.len()
    &&& qs[p].id == id
    &&& forall|k: int| 0 <= k < p ==> #[trigger] qs[k].id != id
}

pub open spec fn has_id(qs: Seq<Question>, id: u128) -> bool {
    exists|k: int| 0 <= k < qs.len() && #[trigger] qs[k].id == id
}

/// Two questions agree on what scoring and ordering read of them.
pub open spec fn same_question_data(a: Question, b: Question) -> bool {
    &&& a.id == b.id
    &&& a.topic_id == b.topic_id
    &&& a.difficulty == b.difficulty
    &&& a.estimated_time_seconds == b.estimated_time_seconds
    &&& a.created_at == b.created_at
    &&& a.updated_at == b.updated_at
}

/// The positions `0..n` in ascending order.
pub open spec fn positions(n: nat) -> Seq<usize> {
    Seq::new(n, |i: int| i as usize)
}

/// `order` lists each position below `n` exactly once.
pub open spec fn is_ordering(order: Seq<usize>, n: nat) -> bool {
    order.len() == n && order.to_multiset() == positions(n).to_multiset()
}

proof fn lemma_total_seconds_prefix(qs: Seq<Question>, i: int)
    requires
        0 <= i <= qs.len(),
    ensures
        total_seconds(qs.subrange(0, i)) <= total_seconds(qs),
    decreases qs.len() - i,
{
    if i < qs.len() {
        lemma_total_seconds_prefix(qs, i + 1);
        assert(qs.subrange(0, i + 1).drop_last() =~= qs.subrange(0, i));
    } else {
        assert(qs.subrange(0, i) =~= qs);
    }
}

proof fn lemma_total_seconds_front(qs: Seq<Question>)
    requires
        qs.len() > 0,
    ensures
        total_seconds(qs) == qs[0].estimated_time_seconds + total_seconds(qs.drop_first()),
    decreases qs.len(),
{
    if qs.len() > 1 {
        lemma_total_seconds_front(qs.drop_last());
        assert(qs.drop_last().drop_first() =~= qs.drop_first().drop_last());
    } else {
        assert(qs.drop_first() =~= qs.drop_last());
    }
}

proof fn lemma_total_seconds_append(a: Seq<Question>, q: Question)
    ensures
        total_seconds(a.push(q)) == total_seconds(a) + q.estimated_time_seconds,
{
    assert(a.push(q).drop_last() =~= a);
}

proof fn lemma_total_seconds_remove(qs: Seq<Question>, p: int)
    requires
        0 <= p < qs.len(),
    ensures
        total_seconds(qs.remove(p)) == total_seconds(qs) - qs[p].estimated_time_seconds,
    decreases qs.len(),
{
    if p < qs.len() - 1 {
        lemma_total_seconds_remove(qs.drop_last(), p);
        assert(qs.remove(p).drop_last() =~= qs.drop_last().remove(p));
        assert(qs.remove(p).last() == qs.last());
    } else {
        assert(qs.remove(p) =~= qs.drop_last());
    }
}

impl Quiz {
    /// A quiz as `new` makes it: no questions, thirty minutes, pass mark
    /// 0.7, skipping and explanations allowed, no randomization.
    pub open spec fn is_new(self, title: String) -> bool {
        &&& self.wf()
        &&& self.title == title
        &&& self.description is None
        &&& self.questions@.len() == 0
        &&& self.topic_ids@.len() == 0
        &&& self.difficulty_range == (0u32, UNIT as u32)
        &&& self.estimated_duration_minutes == 30
        &&& self.pass_threshold == 700000
        &&& self.allow_skip
        &&& self.show_explanations
        &&& !self.randomize_questions
        &&& !self.randomize_options
        &&& self.tags@.len() == 0
        &&& self.metadata@ == Map::<String, serde_json::Value>::empty()
        &&& self.created_at == self.updated_at
    }

    /// The derived fields match the questions.
    pub open spec fn derived_match(self) -> bool {
        &&& self.difficulty_range.0 == difficulty_range_of(self.questions@).0
        &&& self.difficulty_range.1 == difficulty_range_of(self.questions@).1
        &&& self.estimated_duration_minutes == duration_minutes_of(self.questions@)
    }

    /// `next` is this quiz with `question` appended, its topic recorded if
    /// new, and the derived fields recomputed.
    pub open spec fn added_into(self, next: Quiz, question: Question) -> bool {
        &&& next.wf()
        &&& next.questions@ == self.questions@.push(question)
        &&& next.topic_ids@ == if self.topic_ids@.contains(question.topic_id) {
            self.topic_ids@
        } else {
            self.topic_ids@.push(question.topic_id)
        }
        &&& next.derived_match()
        &&& next.same_settings(self)
    }

    /// The estimated times fit the 32-bit total kept by the quiz.
    pub open spec fn wf(&self) -> bool {
        total_seconds(self.questions@) <= u32::MAX
    }

    /// An empty quiz with the default settings: thirty minutes, pass mark
    /// 0.7, skipping and explanations allowed, no randomization.
    pub fn new(title: String) -> (r: Quiz)
        ensures
            r.is_new(title),
    {
        let now = now_millis();
        Quiz {
            id: new_id(),
            title,
            description: None,
            questions: Vec::new(),
            topic_ids: Vec::new(),
            difficulty_range: (0, UNIT as u32),
            estimated_duration_minutes: 30,
            pass_threshold: 700000,
            allow_skip: true,
            show_explanations: true,
            randomize_questions: false,
            randomize_options: false,
            tags: Vec::new(),
            metadata: HashMap::new(),
            created_at: now,
            updated_at: now,
        }
    }

    /// Appends a question, records its topic if new, and recomputes the
    /// difficulty range and the duration estimate.
    pub fn add_question(&mut self, question: Question)
        requires
            old(self).wf(),
            total_seconds(old(self).questions@) + question.estimated_time_seconds <= u32::MAX,
        ensures
            old(self).added_into(*final(self), question),
    {
        if !contains_id(&self.topic_ids, question.topic_id) {
            self.topic_ids.push(question.topic_id);
        }
        self.questions.push(question);
        proof {
            assert(self.questions@.drop_last() =~= old(self).questions@);
        }
        self.update_difficulty_range();
        self.update_estimated_duration();
        self.updated_at = now_millis();
    }

    /// Removes the first question with this id and recomputes the derived
    /// fields; topics stay recorded. Without such a question nothing changes.
    pub fn remove_question(&mut self, question_id: u128) -> (r: Option<Question>)
        requires
            old(self).wf(),
        ensures
            final(self).wf(),
            has_id(old(self).questions@, question_id) ==> exists|p: int|
                is_first_with_id(old(self).questions@, p, question_id) && r == Some(
                    old(self).questions@[p],
                ) && final(self).questions@ == old(self).questions@.remove(p),
            has_id(old(self).questions@, question_id) ==> {
                &&& final(self).topic_ids == old(self).topic_ids
                &&& final(self).difficulty_range.0 == difficulty_range_of(final(self).questions@).0
                &&& final(self).difficulty_range.1 == difficulty_range_of(final(self).questions@).1
                &&& final(self).estimated_duration_minutes == duration_minutes_of(
                    final(self).questions@,
                )
                &&& final(self).same_settings(*old(self))
            },
            !has_id(old(self).questions@, question_id) ==> r is None && *final(self) == *old(self),
    {
        let mut i: usize = 0;
        while i < self.questions.len()
            invariant
                *self == *old(self),
                old(self).wf(),
                i <= self.questions.len(),
                forall|k: int| 0 <= k < i ==> #[trigger] self.questions@[k].id != question_id,
            decreases self.questions.len() - i,
        {
            if self.questions[i].id == question_id {
                let removed = self.questions.remove(i);
                proof {
                    assert(is_first_with_id(old(self).questions@, i as int, question_id));
                    lemma_total_seconds_remove(old(self).questions@, i as int);
                }
                self.update_difficulty_range();
                self.update_estimated_duration();
                self.updated_at = now_millis();
                return Some(removed);
            }
            i = i + 1;
        }
        None
    }

    /// Everything but the questions and the fields derived from them is
    /// as in `other`, the update time aside.
    pub open spec fn same_settings(&self, other: Quiz) -> bool {
        &&& self.id == other.id
        &&& self.title == other.title
        &&& self.description == other.description
        &&& self.pass_threshold == other.pass_threshold
        &&& self.allow_skip == other.allow_skip
        &&& self.show_explanations == other.show_explanations
        &&& self.randomize_questions == other.randomize_questions
        &&& self.randomize_options == other.randomize_options
        &&& self.tags == other.tags
        &&& self.metadata == other.metadata
        &&& self.created_at == other.created_at
    }

    fn update_difficulty_range(&mut self)
        ensures
            final(self).questions == old(self).questions,
            final(self).topic_ids == old(self).topic_ids,
            final(self).estimated_duration_minutes == old(self).estimated_duration_minutes,
            final(self).updated_at == old(self).updated_at,
            final(self).same_settings(*old(self)),
            final(self).difficulty_range.0 == difficulty_range_of(final(self).questions@).0,
            final(self).difficulty_range.1 == difficulty_range_of(final(self).questions@).1,
    {
        if self.questions.len() == 0 {
            self.difficulty_range = (0, UNIT as u32);
            return;
        }
        let mut lo: u32 = UNIT as u32;
        let mut hi: u32 = 0;
        let mut i: usize = 0;
        while i < self.questions.len()
            invariant
                i <= self.questions.len(),
                lo == min_difficulty(self.questions@.subrange(0, i as int)),
                hi == max_difficulty(self.questions@.subrange(0, i as int)),
            decreases self.questions.len() - i,
        {
            proof {
                assert(self.questions@.subrange(0, i + 1).drop_last() =~= self.questions@.subrange(
                    0,
                    i as int,
                ));
            }
            let d = self.questions[i].difficulty;
            if d < lo {
                lo = d;
            }
            if d > hi {
                hi = d;
            }
            i = i + 1;
        }
        proof {
            assert(self.questions@.subrange(0, i as int) =~= self.questions@);
        }
        self.difficulty_range = (lo, hi);
    }

    fn update_estimated_duration(&mut self)
        requires
            old(self).wf(),
        ensures
            final(self).questions == old(self).questions,
            final(self).topic_ids == old(self).topic_ids,
            final(self).difficulty_range == old(self).difficulty_range,
            final(self).updated_at == old(self).updated_at,
            final(self).same_settings(*old(self)),
            final(self).estimated_duration_minutes == duration_minutes_of(final(self).questions@),
    {
        let mut total: u32 = 0;
        let mut i: usize = 0;
        while i < self.questions.len()
            invariant
                i <= self.questions.len(),
                total_seconds(self.questions@) <= u32::MAX,
                total == total_seconds(self.questions@.subrange(0, i as int)),
            decreases self.questions.len() - i,
        {
            proof {
                assert(self.questions@.subrange(0, i + 1).drop_last() =~= self.questions@.subrange(
                    0,
                    i as int,
                ));
                lemma_total_seconds_prefix(self.questions@, i + 1);
            }
            total = total + self.questions[i].estimated_time_seconds;
            i = i + 1;
        }
        proof {
            assert(self.questions@.subrange(0, i as int) =~= self.questions@);
        }
        let minutes = total / 60;
        self.estimated_duration_minutes = if minutes < 1 {
            1
        } else {
            minutes
        };
    }

    /// The questions in session order: quiz order, or a uniformly shuffled
    /// order when question randomization is on. Each call shuffles afresh.
    pub fn get_questions_for_session(&self) -> (r: Vec<Question>)
        ensures
            r.len() == self.questions.len(),
            exists|order: Seq<usize>|
                is_ordering(order, self.questions.len() as nat) && forall|i: int|
                    0 <= i < r.len() ==> same_question_data(
                        #[trigger] r@[i],
                        self.questions@[order[i] as int],
                    ),
            !self.randomize_questions ==> forall|i: int|
                0 <= i < r.len() ==> same_question_data(#[trigger] r@[i], self.questions@[i]),
    {
        broadcast use vstd::seq_lib::group_to_multiset_ensures;

        let n = self.questions.len();
        let mut order: Vec<usize> = Vec::new();
        let mut i: usize = 0;
        while i < n
            invariant
                n == self.questions.len(),
                i <= n,
                order@ == positions(i as nat),
            decreases n - i,
        {
            order.push(i);
            i = i + 1;
            assert(order@ =~= positions(i as nat));
        }
        if self.randomize_questions {
            shuffle_indices(&mut order);
        }
        assert forall|k: int| 0 <= k < order.len() implies #[trigger] order@[k] < n by {
            assert(order@.contains(order@[k]));
            assert(order@.to_multiset().count(order@[k]) > 0);
            assert(positions(n as nat).contains(order@[k]));
        }
        let mut r: Vec<Question> = Vec::new();
        let mut j: usize = 0;
        while j < n
            invariant
                n == self.questions.len(),
                order.len() == n,
                is_ordering(order@, n as nat),
                !self.randomize_questions ==> order@ == positions(n as nat),
                forall|k: int| 0 <= k < order.len() ==> #[trigger] order@[k] < n,
                j <= n,
                r.len() == j,
                forall|k: int|
                    0 <= k < j ==> same_question_data(
                        #[trigger] r@[k],
                        self.questions@[order@[k] as int],
                    ),
            decreases n - j,
        {
            r.push(copy_question(&self.questions[order[j]]));
            j = j + 1;
        }
        r
    }
}

/// A copy of a question, field by field.
fn copy_question(q: &Question) -> (r: Question)
    ensures
        same_question_data(r, *q),
{
    Question {
        id: q.id,
        question_type: q.question_type.clone(),
        topic_id: q.topic_id,
        difficulty: q.difficulty,
        estimated_time_seconds: q.estimated_time_seconds,
        tags: q.tags.clone(),
        citations: copy_citations(&q.citations),
        metadata: q.metadata.clone(),
        created_at: q.created_at,
        updated_at: q.updated_at,
    }
}

fn copy_citations(v: &Vec<Citation>) -> (r: Vec<Citation>)
    ensures
        r.len() == v.len(),
{
    let mut r: Vec<Citation> = Vec::new();
    let mut i: usize = 0;
    while i < v.len()
        invariant
            i <= v.len(),
            r.len() == i,
        decreases v.len() - i,
    {
        let c = &v[i];
        r.push(
            Citation {
                id: c.id,
                source: c.source.clone(),
                url: c.url.clone(),
                excerpt: c.excerpt.clone(),
                confidence: c.confidence,
            },
        );
        i = i + 1;
    }
    r
}

/// Whether `id` occurs in `v`.
fn contains_id(v: &Vec<u128>, id: u128) -> (r: bool)
    ensures
        r == v@.contains(id),
{
    let mut i: usize = 0;
    while i < v.len()
        invariant
            i <= v.len(),
            forall|k: int| 0 <= k < i ==> #[trigger] v@[k] != id,
        decreases v.len() - i,
    {
        if v[i] == id {
            assert(v@[i as int] == id);
            return true;
        }
        i = i + 1;
    }
    false
}

/// A threshold brought into `0..=UNIT`.
pub open spec fn clamp_threshold(t: i64) -> u32 {
    if t < 0 {
        0
    } else if t > UNIT {
        UNIT as u32
    } else {
        t as u32
    }
}

/// Builds a quiz step by step; each step hands the builder back.
pub struct QuizBuilder {
    quiz: Quiz,
}

impl View for QuizBuilder {
    type V = Quiz;

    closed spec fn view(&self) -> Quiz {
        self.quiz
    }
}

impl QuizBuilder {
    pub fn new(title: String) -> (r: QuizBuilder)
        ensures
            r@.is_new(title),
    {
        QuizBuilder { quiz: Quiz::new(title) }
    }

    pub fn description(self, desc: String) -> (r: QuizBuilder)
        ensures
            r@ == (Quiz { description: Some(desc), ..self@ }),
    {
        let mut b = self;
        b.quiz.description = Some(desc);
        b
    }

    /// Sets the pass mark (fixed-point), clamped to `0..=UNIT`.
    pub fn pass_threshold(self, threshold: i64) -> (r: QuizBuilder)
        ensures
            r@ == (Quiz { pass_threshold: clamp_threshold(threshold), ..self@ }),
    {
        let mut b = self;
        b.quiz.pass_threshold = if threshold < 0 {
            0
        } else if threshold > UNIT as i64 {
            UNIT as u32
        } else {
            threshold as u32
        };
        b
    }

    pub fn allow_skip(self, allow: bool) -> (r: QuizBuilder)
        ensures
            r@ == (Quiz { allow_skip: allow, ..self@ }),
    {
        let mut b = self;
        b.quiz.allow_skip = allow;
        b
    }

    pub fn show_explanations(self, show: bool) -> (r: QuizBuilder)
        ensures
            r@ == (Quiz { show_explanations: show, ..self@ }),
    {
        let mut b = self;
        b.quiz.show_explanations = show;
        b
    }

    pub fn randomize_questions(self, randomize: bool) -> (r: QuizBuilder)
        ensures
            r@ == (Quiz { randomize_questions: randomize, ..self@ }),
    {
        let mut b = self;
        b.quiz.randomize_questions = randomize;
        b
    }

    /// Declared for option shuffling, which no question shape applies yet.
    pub fn randomize_options(self, randomize: bool) -> (r: QuizBuilder)
        ensures
            r@ == (Quiz { randomize_options: randomize, ..self@ }),
    {
        let mut b = self;
        b.quiz.randomize_options = randomize;
        b
    }

    pub fn add_question(self, question: Question) -> (r: QuizBuilder)
        requires
            self@.wf(),
            total_seconds(self@.questions@) + question.estimated_time_seconds <= u32::MAX,
        ensures
            self@.added_into(r@, question),
    {
        let mut b = self;
        b.quiz.add_question(question);
        b
    }

    /// Adds the questions in order, as `add_question` would one by one.
    pub fn add_questions(self, questions: Vec<Question>) -> (r: QuizBuilder)
        requires
            self@.wf(),
            total_seconds(self@.questions@) + total_seconds(questions@) <= u32::MAX,
        ensures
            r@.wf(),
            r@.questions@ == self@.questions@ + questions@,
            questions@.len() > 0 ==> r@.derived_match(),
            r@.same_settings(self@),
            forall|t: u128|
                #![trigger r@.topic_ids@.contains(t)]
                r@.topic_ids@.contains(t) <==> self@.topic_ids@.contains(t) || exists|k: int|
                    0 <= k < questions.len() && #[trigger] questions@[k].topic_id == t,
    {
        let count = questions.len();
        let mut b = self;
        let mut rest = questions;
        let ghost all = questions@;
        assert(all.len() == count);
        let ghost start = self@;
        let mut k: usize = 0;
        while rest.len() > 0
            invariant
                b.quiz.wf(),
                all.len() <= usize::MAX,
                k + rest.len() == all.len(),
                rest@ == all.subrange(k as int, all.len() as int),
                b.quiz.questions@ == start.questions@ + all.subrange(0, k as int),
                total_seconds(b.quiz.questions@) + total_seconds(rest@) <= u32::MAX,
                k > 0 ==> b.quiz.derived_match(),
                b.quiz.same_settings(start),
                forall|t: u128|
                    #![trigger b.quiz.topic_ids@.contains(t)]
                    b.quiz.topic_ids@.contains(t) <==> start.topic_ids@.contains(t) || exists|j: int|
                        0 <= j < k && #[trigger] all[j].topic_id == t,
            decreases rest.len(),
        {
            let ghost old_rest = rest@;
            let question = rest.remove(0);
            proof {
                lemma_total_seconds_front(old_rest);
                assert(old_rest.drop_first() =~= rest@);
                assert(question == all[k as int]);
            }
            let ghost before = b.quiz;
            b.quiz.add_question(question);
            proof {
                lemma_total_seconds_append(before.questions@, question);
            }
            k = k + 1;
            proof {
                assert(all.subrange(0, k as int) =~= all.subrange(0, k - 1).push(question));
                assert(rest@ =~= all.subrange(k as int, all.len() as int));
                assert forall|t: u128| #![trigger b.quiz.topic_ids@.contains(t)]
                    b.quiz.topic_ids@.contains(t) <==> start.topic_ids@.contains(t) || exists|j: int|
                        0 <= j < k && #[trigger] all[j].topic_id == t by {
                    if exists|j: int| 0 <= j < k && #[trigger] all[j].topic_id == t {
                        let j = choose|j: int| 0 <= j < k && #[trigger] all[j].topic_id == t;
                        if j == k - 1 {
                            assert(b.quiz.topic_ids@.contains(question.topic_id)) by {
                                if before.topic_ids@.contains(question.topic_id) {
                                } else {
                                    assert(b.quiz.topic_ids@[before.topic_ids@.len() as int]
                                        == question.topic_id);
                                }
                            }
                        } else {
                            assert(before.topic_ids@.contains(t));
                            let i = choose|i: int| 0 <= i < before.topic_ids@.len() && before.topic_ids@[i] == t;
                            assert(b.quiz.topic_ids@[i] == t);
                        }
                    }
                    if b.quiz.topic_ids@.contains(t) && !before.topic_ids@.contains(t) {
                        assert(t == question.topic_id);
                        assert(all[k - 1].topic_id == t);
                    }
                    if start.topic_ids@.contains(t) {
                        assert(before.topic_ids@.contains(t));
                        let i = choose|i: int| 0 <= i < before.topic_ids@.len() && before.topic_ids@[i] == t;
                        assert(b.quiz.topic_ids@[i] == t);
                    }
                }
            }
        }
        proof {
            assert(all.subrange(0, k as int) =~= all);
        }
        b
    }

    /// Adds a tag unless an equal one is there.
    pub fn add_tag(self, tag: String) -> (r: QuizBuilder)
        ensures
            r@ == (Quiz { tags: r@.tags, ..self@ }),
            r@.tags@ == if exists|i: int| 0 <= i < self@.tags@.len() && #[trigger] self@.tags@[i]@
                == tag@ {
                self@.tags@
            } else {
                self@.tags@.push(tag)
            },
    {
        let mut b = self;
        let mut i: usize = 0;
        while i < b.quiz.tags.len()
            invariant
                b == self,
                i <= b.quiz.tags.len(),
                forall|k: int| 0 <= k < i ==> #[trigger] b.quiz.tags@[k]@ != tag@,
            decreases b.quiz.tags.len() - i,
        {
            if b.quiz.tags[i] == tag {
                return b;
            }
            i = i + 1;
        }
        b.quiz.tags.push(tag);
        b
    }

    /// Sets a metadata entry, replacing any under the same key.
    pub fn add_metadata(self, key: String, value: serde_json::Value) -> (r: QuizBuilder)
        ensures
            r@ == (Quiz { metadata: r@.metadata, ..self@ }),
            vstd::std_specs::hash::obeys_key_model::<String>()
                && vstd::std_specs::hash::builds_valid_hashers::<std::hash::RandomState>()
                ==> r@.metadata@ == self@.metadata@.insert(key, value),
    {
        let mut b = self;
        b.quiz.metadata.insert(key, value);
        b
    }

    pub fn build(self) -> (r: Quiz)
        ensures
            r == self@,
    {
        self.quiz
    }
}

} // verus!
