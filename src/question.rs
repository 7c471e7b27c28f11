use crate::outside::{lower_of, lowercase, new_id, now_millis};
use std::collections::HashMap;
use vstd::prelude::*;

verus! {

/// The closed set of question shapes, each with its answer key.
#[derive(Debug, Clone, PartialEq)]
pub enum QuestionType {
    TrueFalse { statement: String, correct_answer: bool, explanation: Option<String> },
    MultipleChoice {
        question: String,
        options: Vec<String>,
        correct_index: usize,
        explanation: Option<String>,
    },
    MultiSelect {
        question: String,
        options: Vec<String>,
        correct_indices: Vec<usize>,
        explanation: Option<String>,
    },
    FillInTheBlank {
        template: String,
        correct_answers: Vec<String>,
        case_sensitive: bool,
        explanation: Option<String>,
    },
    MatchPairs {
        instruction: String,
        left_items: Vec<String>,
        right_items: Vec<String>,
        correct_pairs: Vec<(usize, usize)>,
        explanation: Option<String>,
    },
    /// Graded outside this engine: carries follow-up material only.
    InteractiveInterview {
        topic: String,
        initial_question: String,
        follow_up_rules: Vec<FollowUpRule>,
        /// Fixed-point, in millionths.
        comprehension_threshold: u32,
    },
    /// Graded outside this engine: carries the concepts to look for only.
    TopicExplanation {
        topic: String,
        prompt: String,
        key_concepts: Vec<String>,
        min_word_count: usize,
    },
}

#[derive(Debug, Clone, PartialEq)]
pub struct FollowUpRule {
    pub condition: String,
    pub follow_up_question: String,
    /// Fixed-point, in millionths.
    pub weight: u32,
}

#[derive(Debug, Clone)]
pub struct Citation {
    pub id: u128,
    pub source: String,
    pub url: Option<String>,
    pub excerpt: Option<String>,
    /// Fixed-point, in millionths.
    pub confidence: u32,
}

/// A submitted answer; each variant mirrors one question shape.
#[derive(Debug, Clone)]
pub enum Answer {
    TrueFalse(bool),
    MultipleChoice(usize),
    MultiSelect(Vec<usize>),
    FillInTheBlank(Vec<String>),
    MatchPairs(Vec<(usize, usize)>),
    InteractiveResponse { responses: Vec<String>, time_taken_seconds: u32 },
    TopicExplanation { explanation: String, time_taken_seconds: u32 },
}

#[derive(Debug, Clone)]
pub struct Question {
    pub id: u128,
    pub question_type: QuestionType,
    pub topic_id: u128,
    /// Fixed-point, in millionths: 0 is trivial, `UNIT` the hardest.
    pub difficulty: u32,
    pub estimated_time_seconds: u32,
    pub tags: Vec<String>,
    pub citations: Vec<Citation>,
    pub metadata: HashMap<String, serde_json::Value>,
    pub created_at: i64,
    pub updated_at: i64,
}

pub open spec fn mismatch_message() -> Seq<char> {
    "Answer type does not match question type"@
}

pub open spec fn index_message() -> Seq<char> {
    "Invalid option index"@
}

pub open spec fn count_message() -> Seq<char> {
    "Wrong number of answers"@
}

/// One blank: equal text, or equal after lowercasing both sides when the
/// question is not case sensitive.
pub open spec fn blank_matches(user: Seq<char>, expected: Seq<char>, case_sensitive: bool) -> bool {
    if case_sensitive {
        user == expected
    } else {
        lower_of(user) == lower_of(expected)
    }
}

/// Whether some index of `v` is not below `n`.
pub open spec fn out_of_range(v: Seq<usize>, n: int) -> bool {
    exists|k: int| 0 <= k < v.len() && v[k] >= n
}

/// The error message that validation reports for this question and answer,
/// if any: a shape mismatch, an option index out of range, or a wrong number
/// of blanks.
pub open spec fn validation_error(qt: QuestionType, a: Answer) -> Option<Seq<char>> {
    match qt {
        QuestionType::TrueFalse { .. } => match a {
            Answer::TrueFalse(_) => None,
            _ => Some(mismatch_message()),
        },
        QuestionType::MultipleChoice { options, .. } => match a {
            Answer::MultipleChoice(i) => if i >= options.len() {
                Some(index_message())
            } else {
                None
            },
            _ => Some(mismatch_message()),
        },
        QuestionType::MultiSelect { options, .. } => match a {
            Answer::MultiSelect(v) => if out_of_range(v@, options.len() as int) {
                Some(index_message())
            } else {
                None
            },
            _ => Some(mismatch_message()),
        },
        QuestionType::FillInTheBlank { correct_answers, .. } => match a {
            Answer::FillInTheBlank(v) => if v.len() != correct_answers.len() {
                Some(count_message())
            } else {
                None
            },
            _ => Some(mismatch_message()),
        },
        QuestionType::MatchPairs { .. } => match a {
            Answer::MatchPairs(_) => None,
            _ => Some(mismatch_message()),
        },
        _ => Some(mismatch_message()),
    }
}

/// Whether an answer of the matching shape is right: exact equality for
/// single values, equality as multisets (order ignored) for index lists and
/// pair lists, and blank-by-blank matching for fill-in-the-blank.
pub open spec fn answer_is_correct(qt: QuestionType, a: Answer) -> bool {
    match qt {
        QuestionType::TrueFalse { correct_answer, .. } => match a {
            Answer::TrueFalse(b) => b == correct_answer,
            _ => false,
        },
        QuestionType::MultipleChoice { correct_index, .. } => match a {
            Answer::MultipleChoice(i) => i == correct_index,
            _ => false,
        },
        QuestionType::MultiSelect { correct_indices, .. } => match a {
            Answer::MultiSelect(v) => v@.to_multiset() == correct_indices@.to_multiset(),
            _ => false,
        },
        QuestionType::FillInTheBlank { correct_answers, case_sensitive, .. } => match a {
            Answer::FillInTheBlank(v) => forall|i: int|
                0 <= i < v.len() ==> blank_matches(
                    #[trigger] v@[i]@,
                    correct_answers@[i]@,
                    case_sensitive,
                ),
            _ => false,
        },
        QuestionType::MatchPairs { correct_pairs, .. } => match a {
            Answer::MatchPairs(v) => v@.to_multiset() == correct_pairs@.to_multiset(),
            _ => false,
        },
        _ => false,
    }
}

/// The explanation a gradable question carries; ungraded shapes have none.
pub open spec fn explanation_of(qt: QuestionType) -> Option<String> {
    match qt {
        QuestionType::TrueFalse { explanation, .. } => explanation,
        QuestionType::MultipleChoice { explanation, .. } => explanation,
        QuestionType::MultiSelect { explanation, .. } => explanation,
        QuestionType::FillInTheBlank { explanation, .. } => explanation,
        QuestionType::MatchPairs { explanation, .. } => explanation,
        _ => None,
    }
}

fn message(s: &str) -> (r: String)
    ensures
        r@ == s@,
{
    s.to_owned()
}

/// How often `x` occurs in `v`.
fn occurrences(v: &Vec<usize>, x: usize) -> (c: usize)
    ensures
        c == v@.to_multiset().count(x),
{
    broadcast use vstd::seq_lib::group_to_multiset_ensures, vstd::multiset::group_multiset_axioms;

    let mut c: usize = 0;
    let mut i: usize = 0;
    while i < v.len()
        invariant
            i <= v.len(),
            c <= i,
            c == v@.subrange(0, i as int).to_multiset().count(x),
        decreases v.len() - i,
    {
        let ghost before = v@.subrange(0, i as int);
        assert(v@.subrange(0, i + 1) =~= before.push(v@[i as int]));
        proof {
            before.to_multiset_ensures();
        }
        if v[i] == x {
            c = c + 1;
        }
        i = i + 1;
    }
    assert(v@.subrange(0, v.len() as int) =~= v@);
    c
}

/// How often the pair `x` occurs in `v`.
fn pair_occurrences(v: &Vec<(usize, usize)>, x: (usize, usize)) -> (c: usize)
    ensures
        c == v@.to_multiset().count(x),
{
    broadcast use vstd::seq_lib::group_to_multiset_ensures, vstd::multiset::group_multiset_axioms;

    let mut c: usize = 0;
    let mut i: usize = 0;
    while i < v.len()
        invariant
            i <= v.len(),
            c <= i,
            c == v@.subrange(0, i as int).to_multiset().count(x),
        decreases v.len() - i,
    {
        let ghost before = v@.subrange(0, i as int);
        assert(v@.subrange(0, i + 1) =~= before.push(v@[i as int]));
        proof {
            before.to_multiset_ensures();
        }
        let (p, q) = v[i];
        if p == x.0 && q == x.1 {
            c = c + 1;
        }
        i = i + 1;
    }
    assert(v@.subrange(0, v.len() as int) =~= v@);
    c
}

/// Whether two index lists hold the same elements, counted with
/// multiplicity and in any order.
pub fn same_indices(a: &Vec<usize>, b: &Vec<usize>) -> (r: bool)
    ensures
        r == (a@.to_multiset() == b@.to_multiset()),
{
    broadcast use vstd::seq_lib::group_to_multiset_ensures;

    let mut i: usize = 0;
    while i < a.len()
        invariant
            i <= a.len(),
            forall|k: int|
                0 <= k < i ==> a@.to_multiset().count(#[trigger] a@[k]) == b@.to_multiset().count(
                    a@[k],
                ),
        decreases a.len() - i,
    {
        if occurrences(a, a[i]) != occurrences(b, a[i]) {
            return false;
        }
        i = i + 1;
    }
    let mut j: usize = 0;
    while j < b.len()
        invariant
            j <= b.len(),
            forall|k: int|
                0 <= k < a.len() ==> a@.to_multiset().count(#[trigger] a@[k]) == b@.to_multiset().count(
                    a@[k],
                ),
            forall|k: int|
                0 <= k < j ==> a@.to_multiset().count(#[trigger] b@[k]) == b@.to_multiset().count(
                    b@[k],
                ),
        decreases b.len() - j,
    {
        if occurrences(a, b[j]) != occurrences(b, b[j]) {
            return false;
        }
        j = j + 1;
    }
    assert forall|x: usize| a@.to_multiset().count(x) == b@.to_multiset().count(x) by {
        if a@.contains(x) {
            let k = choose|k: int| 0 <= k < a.len() && a@[k] == x;
            assert(a@.to_multiset().count(a@[k]) == b@.to_multiset().count(a@[k]));
        } else if b@.contains(x) {
            let k = choose|k: int| 0 <= k < b.len() && b@[k] == x;
            assert(a@.to_multiset().count(b@[k]) == b@.to_multiset().count(b@[k]));
        }
    }
    assert(a@.to_multiset() =~= b@.to_multiset());
    true
}

/// Whether two pair lists hold the same pairs, counted with multiplicity and
/// in any order.
pub fn same_pairs(a: &Vec<(usize, usize)>, b: &Vec<(usize, usize)>) -> (r: bool)
    ensures
        r == (a@.to_multiset() == b@.to_multiset()),
{
    broadcast use vstd::seq_lib::group_to_multiset_ensures;

    let mut i: usize = 0;
    while i < a.len()
        invariant
            i <= a.len(),
            forall|k: int|
                0 <= k < i ==> a@.to_multiset().count(#[trigger] a@[k]) == b@.to_multiset().count(
                    a@[k],
                ),
        decreases a.len() - i,
    {
        if pair_occurrences(a, a[i]) != pair_occurrences(b, a[i]) {
            return false;
        }
        i = i + 1;
    }
    let mut j: usize = 0;
    while j < b.len()
        invariant
            j <= b.len(),
            forall|k: int|
                0 <= k < a.len() ==> a@.to_multiset().count(#[trigger] a@[k]) == b@.to_multiset().count(
                    a@[k],
                ),
            forall|k: int|
                0 <= k < j ==> a@.to_multiset().count(#[trigger] b@[k]) == b@.to_multiset().count(
                    b@[k],
                ),
        decreases b.len() - j,
    {
        if pair_occurrences(a, b[j]) != pair_occurrences(b, b[j]) {
            return false;
        }
        j = j + 1;
    }
    assert forall|x: (usize, usize)| a@.to_multiset().count(x) == b@.to_multiset().count(x) by {
        if a@.contains(x) {
            let k = choose|k: int| 0 <= k < a.len() && a@[k] == x;
            assert(a@.to_multiset().count(a@[k]) == b@.to_multiset().count(a@[k]));
        } else if b@.contains(x) {
            let k = choose|k: int| 0 <= k < b.len() && b@[k] == x;
            assert(a@.to_multiset().count(b@[k]) == b@.to_multiset().count(b@[k]));
        }
    }
    assert(a@.to_multiset() =~= b@.to_multiset());
    true
}

/// Whether each text equals the one at the same position.
pub fn same_texts(a: &Vec<String>, b: &Vec<String>) -> (r: bool)
    requires
        a.len() == b.len(),
    ensures
        r == (forall|i: int| 0 <= i < a.len() ==> #[trigger] a@[i]@ == b@[i]@),
{
    let mut i: usize = 0;
    while i < a.len()
        invariant
            a.len() == b.len(),
            i <= a.len(),
            forall|k: int| 0 <= k < i ==> #[trigger] a@[k]@ == b@[k]@,
        decreases a.len() - i,
    {
        if a[i] != b[i] {
            return false;
        }
        i = i + 1;
    }
    true
}

/// Each text of `v`, lowercased.
fn lowered(v: &Vec<String>) -> (r: Vec<String>)
    ensures
        r.len() == v.len(),
        forall|i: int| 0 <= i < v.len() ==> #[trigger] r@[i]@ == lower_of(v@[i]@),
{
    let mut r: Vec<String> = Vec::new();
    let mut i: usize = 0;
    while i < v.len()
        invariant
            i <= v.len(),
            r.len() == i,
            forall|k: int| 0 <= k < i ==> #[trigger] r@[k]@ == lower_of(v@[k]@),
        decreases v.len() - i,
    {
        r.push(lowercase(&v[i]));
        i = i + 1;
    }
    r
}

/// Whether every index lies below `bound`.
fn all_below(v: &Vec<usize>, bound: usize) -> (r: bool)
    ensures
        r == !out_of_range(v@, bound as int),
{
    let mut i: usize = 0;
    while i < v.len()
        invariant
            i <= v.len(),
            forall|k: int| 0 <= k < i ==> #[trigger] v@[k] < bound,
        decreases v.len() - i,
    {
        if v[i] >= bound {
            return false;
        }
        i = i + 1;
    }
    true
}

impl Question {
    /// A question with a fresh id, a one-minute time estimate, no tags,
    /// citations or metadata, created and updated now.
    pub fn new(question_type: QuestionType, topic_id: u128, difficulty: u32) -> (r: Question)
        ensures
            r.question_type == question_type,
            r.topic_id == topic_id,
            r.difficulty == difficulty,
            r.estimated_time_seconds == 60,
            r.tags@.len() == 0,
            r.citations@.len() == 0,
            r.metadata@ == Map::<String, serde_json::Value>::empty(),
            r.created_at == r.updated_at,
    {
        let now = now_millis();
        Question {
            id: new_id(),
            question_type,
            topic_id,
            difficulty,
            estimated_time_seconds: 60,
            tags: Vec::new(),
            citations: Vec::new(),
            metadata: HashMap::new(),
            created_at: now,
            updated_at: now,
        }
    }

    /// Checks a submitted answer against this question's key: `Ok` with its
    /// correctness when the answer has the matching shape and is well formed,
    /// `Err` with a message otherwise. Ungraded shapes are always refused.
    pub fn validate_answer(&self, answer: &Answer) -> (r: Result<bool, String>)
        ensures
            validation_error(self.question_type, *answer) is Some ==> r is Err && r->Err_0@
                == validation_error(self.question_type, *answer)->Some_0,
            validation_error(self.question_type, *answer) is None ==> r == Ok::<bool, String>(
                answer_is_correct(self.question_type, *answer),
            ),
    {
        match &self.question_type {
            QuestionType::TrueFalse { correct_answer, .. } => match answer {
                Answer::TrueFalse(user) => Ok(*user == *correct_answer),
                _ => Err(message("Answer type does not match question type")),
            },
            QuestionType::MultipleChoice { options, correct_index, .. } => match answer {
                Answer::MultipleChoice(user) => {
                    if *user >= options.len() {
                        Err(message("Invalid option index"))
                    } else {
                        Ok(*user == *correct_index)
                    }
                },
                _ => Err(message("Answer type does not match question type")),
            },
            QuestionType::MultiSelect { options, correct_indices, .. } => match answer {
                Answer::MultiSelect(user) => {
                    if !all_below(user, options.len()) {
                        Err(message("Invalid option index"))
                    } else {
                        Ok(same_indices(user, correct_indices))
                    }
                },
                _ => Err(message("Answer type does not match question type")),
            },
            QuestionType::FillInTheBlank { correct_answers, case_sensitive, .. } => match answer {
                Answer::FillInTheBlank(user) => {
                    if user.len() != correct_answers.len() {
                        Err(message("Wrong number of answers"))
                    } else if *case_sensitive {
                        Ok(same_texts(user, correct_answers))
                    } else {
                        let user_lower = lowered(user);
                        let expected_lower = lowered(correct_answers);
                        let r = same_texts(&user_lower, &expected_lower);
                        assert(r == (forall|i: int|
                            0 <= i < user.len() ==> #[trigger] blank_matches(
                                user@[i]@,
                                correct_answers@[i]@,
                                false,
                            ))) by {
                            if r {
                                assert forall|i: int| 0 <= i < user.len() implies #[trigger]
                                    blank_matches(user@[i]@, correct_answers@[i]@, false) by {
                                    assert(user_lower@[i]@ == expected_lower@[i]@);
                                }
                            } else {
                                let k = choose|k: int|
                                    0 <= k < user_lower.len() && !(user_lower@[k]@
                                        == expected_lower@[k]@);
                                assert(!blank_matches(user@[k]@, correct_answers@[k]@, false));
                            }
                        }
                        Ok(r)
                    }
                },
                _ => Err(message("Answer type does not match question type")),
            },
            QuestionType::MatchPairs { correct_pairs, .. } => match answer {
                Answer::MatchPairs(user) => Ok(same_pairs(user, correct_pairs)),
                _ => Err(message("Answer type does not match question type")),
            },
            _ => Err(message("Answer type does not match question type")),
        }
    }

    /// The explanation of a gradable question, if it has one.
    pub fn get_explanation(&self) -> (r: Option<&str>)
        ensures
            r is Some <==> explanation_of(self.question_type) is Some,
            r is Some ==> r->Some_0@ == explanation_of(self.question_type)->Some_0@,
    {
        let explanation = match &self.question_type {
            QuestionType::TrueFalse { explanation, .. } => explanation,
            QuestionType::MultipleChoice { explanation, .. } => explanation,
            QuestionType::MultiSelect { explanation, .. } => explanation,
            QuestionType::FillInTheBlank { explanation, .. } => explanation,
            QuestionType::MatchPairs { explanation, .. } => explanation,
            _ => {
                return None;
            },
        };
        match explanation {
            Some(text) => Some(text.as_str()),
            None => None,
        }
    }
}

/// A true/false question accepts its own key as correct and the opposite
/// value as incorrect, never as an error.
pub proof fn true_false_key_decides(q: Question, c: bool)
    requires
        q.question_type is TrueFalse,
        q.question_type->TrueFalse_correct_answer == c,
    ensures
        validation_error(q.question_type, Answer::TrueFalse(c)) is None,
        validation_error(q.question_type, Answer::TrueFalse(!c)) is None,
        answer_is_correct(q.question_type, Answer::TrueFalse(c)),
        !answer_is_correct(q.question_type, Answer::TrueFalse(!c)),
{
}

/// The outcome of a multi-select answer depends only on which indices it
/// holds, counted with multiplicity, not on their order.
pub proof fn multi_select_order_irrelevant(q: Question, v: Vec<usize>, w: Vec<usize>)
    requires
        q.question_type is MultiSelect,
        v@.to_multiset() == w@.to_multiset(),
    ensures
        validation_error(q.question_type, Answer::MultiSelect(v)) == validation_error(
            q.question_type,
            Answer::MultiSelect(w),
        ),
        answer_is_correct(q.question_type, Answer::MultiSelect(v)) == answer_is_correct(
            q.question_type,
            Answer::MultiSelect(w),
        ),
{
    let n = q.question_type->MultiSelect_options.len();
    v@.to_multiset_ensures();
    w@.to_multiset_ensures();
    assert forall|x: usize| v@.contains(x) <==> w@.contains(x) by {
        assert(v@.to_multiset().count(x) == w@.to_multiset().count(x));
        assert(v@.contains(x) <==> v@.to_multiset().count(x) > 0);
        assert(w@.contains(x) <==> w@.to_multiset().count(x) > 0);
    }
    if out_of_range(v@, n as int) {
        let k = choose|k: int| 0 <= k < v.len() && v@[k] >= n;
        assert(v@.contains(v@[k]));
        let j = choose|j: int| 0 <= j < w.len() && w@[j] == v@[k];
        assert(w@[j] >= n);
    }
    if out_of_range(w@, n as int) {
        let k = choose|k: int| 0 <= k < w.len() && w@[k] >= n;
        assert(w@.contains(w@[k]));
        let j = choose|j: int| 0 <= j < v.len() && v@[j] == w@[k];
        assert(v@[j] >= n);
    }
}

} // verus!
