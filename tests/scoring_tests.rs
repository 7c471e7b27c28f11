use quizlr_core::question::{Answer, Question, QuestionType};
use quizlr_core::scoring::ScoringStrategy;
use quizlr_core::session::{QuestionResponse, QuizSession};

fn new_id() -> u128 {
    uuid::Uuid::new_v4().as_u128()
}

fn create_questions_with_difficulties(difficulties: Vec<u32>) -> Vec<Question> {
    difficulties
        .into_iter()
        .map(|diff| {
            let mut q = Question::new(
                QuestionType::TrueFalse {
                    statement: format!("Question with difficulty {}", diff),
                    correct_answer: true,
                    explanation: None,
                },
                new_id(),
                diff,
            );
            q.estimated_time_seconds = 60;
            q
        })
        .collect()
}

fn create_session_with_responses(
    questions: &[Question],
    correct_mask: Vec<bool>,
    times: Vec<u32>,
) -> QuizSession {
    let mut session = QuizSession::new(new_id(), None);
    for ((question, is_correct), time) in questions.iter().zip(correct_mask.iter()).zip(times.iter())
    {
        session.responses.push(QuestionResponse {
            question_id: question.id,
            answer: Answer::TrueFalse(*is_correct),
            is_correct: *is_correct,
            time_taken_seconds: *time,
            attempts: 1,
            submitted_at: 0,
        });
    }
    session
}

#[test]
fn test_simple_scoring() {
    let strategy = ScoringStrategy::Simple;
    let mut session = QuizSession::new(new_id(), None);

    let questions = vec![
        Question::new(
            QuestionType::TrueFalse {
                statement: "Test 1".to_string(),
                correct_answer: true,
                explanation: None,
            },
            new_id(),
            500_000,
        ),
        Question::new(
            QuestionType::TrueFalse {
                statement: "Test 2".to_string(),
                correct_answer: false,
                explanation: None,
            },
            new_id(),
            500_000,
        ),
    ];

    session.responses.push(QuestionResponse {
        question_id: questions[0].id,
        answer: Answer::TrueFalse(true),
        is_correct: true,
        time_taken_seconds: 10,
        attempts: 1,
        submitted_at: 0,
    });
    session.responses.push(QuestionResponse {
        question_id: questions[1].id,
        answer: Answer::TrueFalse(true),
        is_correct: false,
        time_taken_seconds: 15,
        attempts: 1,
        submitted_at: 0,
    });

    let score = strategy.calculate_score(&session, &questions);
    assert_eq!(score.raw_score, 500_000);
    assert_eq!(score.weighted_score, 500_000);
}

#[test]
fn test_simple_scoring_all_correct() {
    let strategy = ScoringStrategy::Simple;
    let questions = create_questions_with_difficulties(vec![300_000, 500_000, 700_000]);
    let session =
        create_session_with_responses(&questions, vec![true, true, true], vec![30, 45, 60]);

    let score = strategy.calculate_score(&session, &questions);

    assert_eq!(score.raw_score, 1_000_000);
    assert_eq!(score.weighted_score, 1_000_000);
    assert_eq!(score.time_bonus, 0);
    assert_eq!(score.difficulty_bonus, 0);
    assert_eq!(score.streak_bonus, 0);
    assert_eq!(score.components.correctness, 1_000_000);
}

#[test]
fn test_simple_scoring_partial() {
    let strategy = ScoringStrategy::Simple;
    let questions = create_questions_with_difficulties(vec![300_000, 500_000, 700_000, 900_000]);
    let session = create_session_with_responses(
        &questions,
        vec![true, false, true, false],
        vec![30, 45, 60, 90],
    );

    let score = strategy.calculate_score(&session, &questions);

    assert_eq!(score.raw_score, 500_000);
    assert_eq!(score.weighted_score, 500_000);
}

#[test]
fn test_simple_scoring_empty() {
    let strategy = ScoringStrategy::Simple;
    let questions = create_questions_with_difficulties(vec![500_000]);
    let session = QuizSession::new(new_id(), None);

    let score = strategy.calculate_score(&session, &questions);

    assert_eq!(score.raw_score, 0);
    assert_eq!(score.weighted_score, 0);
}

#[test]
fn test_time_weighted_scoring() {
    let strategy =
        ScoringStrategy::TimeWeighted { base_time_seconds: 60, penalty_per_second: 10_000 };

    let questions = create_questions_with_difficulties(vec![500_000, 500_000, 500_000]);
    let session =
        create_session_with_responses(&questions, vec![true, true, true], vec![50, 60, 90]);

    let score = strategy.calculate_score(&session, &questions);

    assert!((score.weighted_score - 900_000).abs() < 1_000);
    assert!(score.time_bonus < 0);
}

#[test]
fn test_time_weighted_scoring_with_incorrect() {
    let strategy =
        ScoringStrategy::TimeWeighted { base_time_seconds: 60, penalty_per_second: 20_000 };

    let questions = create_questions_with_difficulties(vec![500_000, 500_000]);
    let session = create_session_with_responses(&questions, vec![false, true], vec![120, 30]);

    let score = strategy.calculate_score(&session, &questions);

    assert_eq!(score.weighted_score, 500_000);
}

fn buckets() -> ScoringStrategy {
    ScoringStrategy::DifficultyWeighted {
        easy_multiplier: 1_000_000,
        medium_multiplier: 1_500_000,
        hard_multiplier: 2_000_000,
    }
}

#[test]
fn test_difficulty_weighted_scoring() {
    let strategy = buckets();
    let questions = create_questions_with_difficulties(vec![200_000, 500_000, 800_000]);
    let session =
        create_session_with_responses(&questions, vec![true, true, true], vec![30, 45, 60]);

    let score = strategy.calculate_score(&session, &questions);

    assert_eq!(score.weighted_score, 1_000_000);
    assert_eq!(score.raw_score, 1_000_000);
    assert_eq!(score.difficulty_bonus, 0);
}

#[test]
fn test_difficulty_weighted_bonus_when_harder_correct() {
    let strategy = buckets();
    let questions = create_questions_with_difficulties(vec![200_000, 500_000, 800_000]);
    let session =
        create_session_with_responses(&questions, vec![false, true, true], vec![30, 45, 60]);

    let score = strategy.calculate_score(&session, &questions);

    assert!((score.weighted_score - 778_000).abs() < 1_000);
    assert!((score.raw_score - 667_000).abs() < 1_000);
    assert!(score.difficulty_bonus > 0);
}

#[test]
fn test_difficulty_weighted_with_skipped() {
    let strategy = buckets();
    let questions = create_questions_with_difficulties(vec![200_000, 500_000, 800_000]);
    let mut session =
        create_session_with_responses(&questions[..2], vec![true, true], vec![30, 45]);

    session.skipped_questions.push(2);

    let score = strategy.calculate_score(&session, &questions);

    assert!((score.weighted_score - 556_000).abs() < 1_000);
}

#[test]
fn test_adaptive_scoring_comprehensive() {
    let strategy = ScoringStrategy::Adaptive {
        time_weight: 200_000,
        difficulty_weight: 300_000,
        streak_weight: 200_000,
        consistency_weight: 100_000,
    };

    let questions = create_questions_with_difficulties(vec![300_000, 500_000, 700_000, 800_000]);
    let session = create_session_with_responses(
        &questions,
        vec![true, true, true, false],
        vec![50, 55, 60, 100],
    );

    let score = strategy.calculate_score(&session, &questions);

    assert!(score.components.correctness > 0);
    assert!(score.components.speed > 0);
    assert!(score.components.difficulty > 0);
    assert!(score.components.consistency > 0);

    assert!(score.weighted_score >= score.raw_score);
    assert!(score.weighted_score <= 1_000_000);
}

#[test]
fn test_streak_calculation() {
    let strategy = ScoringStrategy::Adaptive {
        time_weight: 0,
        difficulty_weight: 0,
        streak_weight: 1_000_000,
        consistency_weight: 0,
    };

    let questions = create_questions_with_difficulties(vec![500_000; 6]);
    let session = create_session_with_responses(
        &questions,
        vec![true, true, false, true, true, true],
        vec![60; 6],
    );

    let score = strategy.calculate_score(&session, &questions);

    let expected_streak_score = 500_000;
    assert!((score.streak_bonus - expected_streak_score).abs() < 100_000);
}

#[test]
fn test_consistency_calculation() {
    let strategy = ScoringStrategy::Adaptive {
        time_weight: 0,
        difficulty_weight: 0,
        streak_weight: 0,
        consistency_weight: 1_000_000,
    };

    let questions = create_questions_with_difficulties(vec![500_000; 4]);

    let consistent_session =
        create_session_with_responses(&questions, vec![true; 4], vec![60, 61, 59, 60]);
    let consistent_score = strategy.calculate_score(&consistent_session, &questions);

    let inconsistent_session =
        create_session_with_responses(&questions, vec![true; 4], vec![30, 90, 45, 120]);
    let inconsistent_score = strategy.calculate_score(&inconsistent_session, &questions);

    assert!(consistent_score.components.consistency > inconsistent_score.components.consistency);
}

#[test]
fn test_adaptive_all_weights_zero() {
    let strategy = ScoringStrategy::Adaptive {
        time_weight: 0,
        difficulty_weight: 0,
        streak_weight: 0,
        consistency_weight: 0,
    };

    let questions = create_questions_with_difficulties(vec![500_000, 500_000]);
    let session = create_session_with_responses(&questions, vec![true, false], vec![60, 60]);

    let score = strategy.calculate_score(&session, &questions);

    assert_eq!(score.weighted_score, score.raw_score);
    assert_eq!(score.raw_score, 500_000);
}

#[test]
fn test_scoring_with_no_responses() {
    let strategies = vec![
        ScoringStrategy::Simple,
        ScoringStrategy::TimeWeighted { base_time_seconds: 60, penalty_per_second: 10_000 },
        buckets(),
        ScoringStrategy::Adaptive {
            time_weight: 500_000,
            difficulty_weight: 500_000,
            streak_weight: 500_000,
            consistency_weight: 500_000,
        },
    ];

    let questions = create_questions_with_difficulties(vec![500_000]);
    let empty_session = QuizSession::new(new_id(), None);

    for (i, strategy) in strategies.into_iter().enumerate() {
        let score = strategy.calculate_score(&empty_session, &questions);
        assert_eq!(score.raw_score, 0, "Strategy {} raw score mismatch", i);
        if let ScoringStrategy::Adaptive { .. } = strategy {
            // Speed and consistency are whole with no responses, so the
            // blend is (0.5 + 0.5) / 3.
            assert_eq!(score.weighted_score, 333_333, "Strategy {} weighted score mismatch", i);
        } else {
            assert_eq!(score.weighted_score, 0, "Strategy {} weighted score mismatch", i);
        }
    }
}

#[test]
fn test_edge_case_single_response() {
    let strategy = ScoringStrategy::Adaptive {
        time_weight: 300_000,
        difficulty_weight: 300_000,
        streak_weight: 200_000,
        consistency_weight: 200_000,
    };

    let questions = create_questions_with_difficulties(vec![500_000]);
    let session = create_session_with_responses(&questions, vec![true], vec![60]);

    let score = strategy.calculate_score(&session, &questions);

    assert_eq!(score.raw_score, 1_000_000);
    assert_eq!(score.components.correctness, 1_000_000);
    assert_eq!(score.components.consistency, 1_000_000);
    assert_eq!(score.components.speed, 1_000_000);
}

#[test]
fn test_scoring_preserves_percentile_field() {
    let strategy = ScoringStrategy::Simple;
    let questions = create_questions_with_difficulties(vec![500_000]);
    let session = create_session_with_responses(&questions, vec![true], vec![60]);

    let score = strategy.calculate_score(&session, &questions);

    assert!(score.percentile.is_none());
}

#[test]
fn adaptive_components_exact_values() {
    let strategy = ScoringStrategy::Adaptive {
        time_weight: 200_000,
        difficulty_weight: 300_000,
        streak_weight: 200_000,
        consistency_weight: 100_000,
    };
    let questions = create_questions_with_difficulties(vec![300_000, 500_000, 700_000, 800_000]);
    let session = create_session_with_responses(
        &questions,
        vec![true, true, true, false],
        vec![50, 55, 60, 100],
    );
    let score = strategy.calculate_score(&session, &questions);
    assert_eq!(score.raw_score, 750_000);
    // 60 s expected over 66.25 s taken on average.
    assert_eq!(score.components.speed, 905_660);
    // 1.5 of 2.3 difficulty answered correctly.
    assert_eq!(score.components.difficulty, 652_173);
    // 265 s in total; the pairwise spread is 6275, whose root is 79.
    assert_eq!(score.components.consistency, 770_348);
    assert_eq!(score.time_bonus, 181_132);
    assert_eq!(score.difficulty_bonus, 195_651);
    assert_eq!(score.streak_bonus, 150_000);
    assert_eq!(score.weighted_score, 752_121);
}

#[test]
fn consistency_is_whole_when_all_times_are_zero() {
    let strategy = ScoringStrategy::Adaptive {
        time_weight: 0,
        difficulty_weight: 0,
        streak_weight: 0,
        consistency_weight: 1_000_000,
    };
    let questions = create_questions_with_difficulties(vec![500_000; 3]);
    let session = create_session_with_responses(&questions, vec![true; 3], vec![0, 0, 0]);
    let score = strategy.calculate_score(&session, &questions);
    assert_eq!(score.components.consistency, 1_000_000);
}

#[test]
fn difficulty_buckets_at_their_boundaries() {
    let strategy = ScoringStrategy::DifficultyWeighted {
        easy_multiplier: 1_000_000,
        medium_multiplier: 2_000_000,
        hard_multiplier: 4_000_000,
    };
    let questions = create_questions_with_difficulties(vec![329_999, 330_000, 670_000]);
    // Only the medium one is correct: 2 of 1 + 2 + 4.
    let session =
        create_session_with_responses(&questions, vec![false, true, false], vec![10, 10, 10]);
    let score = strategy.calculate_score(&session, &questions);
    assert_eq!(score.weighted_score, 285_714);
}

#[test]
fn responses_to_unknown_questions_are_ignored_by_weighting() {
    let questions = create_questions_with_difficulties(vec![500_000]);
    let other = create_questions_with_difficulties(vec![500_000]);
    let session = create_session_with_responses(&other, vec![true], vec![10]);
    let time = ScoringStrategy::TimeWeighted { base_time_seconds: 60, penalty_per_second: 0 }
        .calculate_score(&session, &questions);
    assert_eq!(time.weighted_score, 0);
    assert_eq!(time.raw_score, 1_000_000);
    let diff = buckets().calculate_score(&session, &questions);
    assert_eq!(diff.weighted_score, 0);
}
