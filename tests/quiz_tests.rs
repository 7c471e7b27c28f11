use quizlr_core::question::{Question, QuestionType};
use quizlr_core::quiz::{Quiz, QuizBuilder};

fn new_id() -> u128 {
    uuid::Uuid::new_v4().as_u128()
}

fn create_sample_question(difficulty: u32) -> Question {
    Question::new(
        QuestionType::TrueFalse {
            statement: format!("Test question with difficulty {}", difficulty),
            correct_answer: true,
            explanation: None,
        },
        new_id(),
        difficulty,
    )
}

#[test]
fn quiz_impl_test_quiz_builder() {
    let quiz = QuizBuilder::new("Test Quiz".to_string())
        .description("A test quiz".to_string())
        .pass_threshold(800_000)
        .randomize_questions(true)
        .add_tag("test".to_string())
        .build();

    assert_eq!(quiz.title, "Test Quiz");
    assert_eq!(quiz.description, Some("A test quiz".to_string()));
    assert_eq!(quiz.pass_threshold, 800_000);
    assert!(quiz.randomize_questions);
    assert!(quiz.tags.contains(&"test".to_string()));
}

#[test]
fn test_add_remove_questions() {
    let mut quiz = Quiz::new("Test Quiz".to_string());
    let topic_id = new_id();

    let question = Question::new(
        QuestionType::TrueFalse {
            statement: "Test statement".to_string(),
            correct_answer: true,
            explanation: None,
        },
        topic_id,
        500_000,
    );

    let question_id = question.id;
    quiz.add_question(question);

    assert_eq!(quiz.questions.len(), 1);
    assert!(quiz.topic_ids.contains(&topic_id));

    quiz.remove_question(question_id);
    assert_eq!(quiz.questions.len(), 0);
}

#[test]
fn test_quiz_creation_defaults() {
    let quiz = Quiz::new("Test Quiz".to_string());

    assert_eq!(quiz.title, "Test Quiz");
    assert_eq!(quiz.description, None);
    assert_eq!(quiz.questions.len(), 0);
    assert_eq!(quiz.topic_ids.len(), 0);
    assert_eq!(quiz.difficulty_range, (0, 1_000_000));
    assert_eq!(quiz.estimated_duration_minutes, 30);
    assert_eq!(quiz.pass_threshold, 700_000);
    assert!(quiz.allow_skip);
    assert!(quiz.show_explanations);
    assert!(!quiz.randomize_questions);
    assert!(!quiz.randomize_options);
}

#[test]
fn test_quiz_builder_fluent_api() {
    let quiz = QuizBuilder::new("Advanced Rust Quiz".to_string())
        .description("Test your knowledge of advanced Rust concepts".to_string())
        .pass_threshold(850_000)
        .allow_skip(false)
        .show_explanations(false)
        .randomize_questions(true)
        .randomize_options(true)
        .add_tag("rust".to_string())
        .add_tag("advanced".to_string())
        .add_metadata(
            "difficulty_level".to_string(),
            serde_json::Value::String("expert".to_string()),
        )
        .build();

    assert_eq!(quiz.title, "Advanced Rust Quiz");
    assert_eq!(
        quiz.description,
        Some("Test your knowledge of advanced Rust concepts".to_string())
    );
    assert_eq!(quiz.pass_threshold, 850_000);
    assert!(!quiz.allow_skip);
    assert!(!quiz.show_explanations);
    assert!(quiz.randomize_questions);
    assert!(quiz.randomize_options);
    assert_eq!(quiz.tags.len(), 2);
    assert!(quiz.tags.contains(&"rust".to_string()));
    assert!(quiz.tags.contains(&"advanced".to_string()));
    assert_eq!(
        quiz.metadata.get("difficulty_level"),
        Some(&serde_json::Value::String("expert".to_string()))
    );
}

#[test]
fn test_pass_threshold_clamping() {
    let quiz1 = QuizBuilder::new("Quiz 1".to_string()).pass_threshold(1_500_000).build();
    assert_eq!(quiz1.pass_threshold, 1_000_000);

    let quiz2 = QuizBuilder::new("Quiz 2".to_string()).pass_threshold(-500_000).build();
    assert_eq!(quiz2.pass_threshold, 0);
}

#[test]
fn test_add_questions_updates_metadata() {
    let mut quiz = Quiz::new("Dynamic Quiz".to_string());
    let topic_id1 = new_id();
    let topic_id2 = new_id();

    let q1 = create_sample_question(300_000);
    let mut q2 = create_sample_question(700_000);
    q2.topic_id = topic_id1;
    q2.estimated_time_seconds = 120;

    let mut q3 = create_sample_question(500_000);
    q3.topic_id = topic_id2;
    q3.estimated_time_seconds = 90;

    quiz.add_question(q1);
    assert_eq!(quiz.questions.len(), 1);
    assert_eq!(quiz.difficulty_range, (300_000, 300_000));
    assert_eq!(quiz.estimated_duration_minutes, 1);
    assert_eq!(quiz.topic_ids.len(), 1);

    quiz.add_question(q2);
    assert_eq!(quiz.questions.len(), 2);
    assert_eq!(quiz.difficulty_range, (300_000, 700_000));
    assert_eq!(quiz.estimated_duration_minutes, 3);
    assert!(quiz.topic_ids.contains(&topic_id1));
    assert_eq!(quiz.topic_ids.len(), 2);

    quiz.add_question(q3);
    assert_eq!(quiz.questions.len(), 3);
    assert_eq!(quiz.difficulty_range, (300_000, 700_000));
    assert_eq!(quiz.estimated_duration_minutes, 4);
    assert!(quiz.topic_ids.contains(&topic_id2));
    assert_eq!(quiz.topic_ids.len(), 3);
}

#[test]
fn test_remove_question() {
    let mut quiz = Quiz::new("Test Quiz".to_string());
    let q1 = create_sample_question(200_000);
    let q2 = create_sample_question(800_000);
    let q3 = create_sample_question(500_000);

    let q1_id = q1.id;
    let q2_id = q2.id;

    quiz.add_question(q1);
    quiz.add_question(q2);
    quiz.add_question(q3);

    assert_eq!(quiz.questions.len(), 3);
    assert_eq!(quiz.difficulty_range, (200_000, 800_000));

    let removed = quiz.remove_question(q2_id);
    assert!(removed.is_some());
    assert_eq!(quiz.questions.len(), 2);
    assert_eq!(quiz.difficulty_range, (200_000, 500_000));

    let not_found = quiz.remove_question(new_id());
    assert!(not_found.is_none());

    quiz.remove_question(q1_id);
    assert_eq!(quiz.questions.len(), 1);
    assert_eq!(quiz.difficulty_range, (500_000, 500_000));
}

#[test]
fn test_empty_quiz_difficulty_range() {
    let mut quiz = Quiz::new("Empty Quiz".to_string());
    let q = create_sample_question(500_000);
    let q_id = q.id;

    quiz.add_question(q);
    quiz.remove_question(q_id);

    assert_eq!(quiz.questions.len(), 0);
    assert_eq!(quiz.difficulty_range, (0, 1_000_000));
}

#[test]
fn test_quiz_builder_with_questions() {
    let questions = vec![
        create_sample_question(300_000),
        create_sample_question(500_000),
        create_sample_question(700_000),
    ];

    let quiz = QuizBuilder::new("Multi-Question Quiz".to_string())
        .add_questions(questions.clone())
        .build();

    assert_eq!(quiz.questions.len(), 3);
    assert_eq!(quiz.difficulty_range, (300_000, 700_000));
}

#[test]
fn test_duplicate_tags() {
    let quiz = QuizBuilder::new("Tagged Quiz".to_string())
        .add_tag("rust".to_string())
        .add_tag("rust".to_string())
        .add_tag("programming".to_string())
        .build();

    assert_eq!(quiz.tags.len(), 2);
    assert!(quiz.tags.contains(&"rust".to_string()));
    assert!(quiz.tags.contains(&"programming".to_string()));
}

#[test]
fn test_get_questions_for_session_no_randomization() {
    let mut quiz = Quiz::new("Ordered Quiz".to_string());

    for i in 0..5 {
        let mut q = create_sample_question(500_000);
        q.id = i as u128;
        quiz.add_question(q);
    }

    let session_questions = quiz.get_questions_for_session();
    assert_eq!(session_questions.len(), 5);

    for (i, q) in session_questions.iter().enumerate() {
        assert_eq!(q.id, i as u128);
    }
}

#[test]
fn test_get_questions_for_session_with_randomization() {
    let mut quiz = Quiz::new("Random Quiz".to_string());
    quiz.randomize_questions = true;

    for i in 0..20u32 {
        quiz.add_question(create_sample_question(i * 1_000_000 / 20));
    }

    let session_questions = quiz.get_questions_for_session();
    assert_eq!(session_questions.len(), 20);
}

#[test]
fn shuffled_session_keeps_every_question_once() {
    let mut quiz = Quiz::new("Random Quiz".to_string());
    quiz.randomize_questions = true;
    for i in 0..20u32 {
        let mut q = create_sample_question(500_000);
        q.id = i as u128;
        quiz.add_question(q);
    }
    let mut ids: Vec<u128> = quiz.get_questions_for_session().iter().map(|q| q.id).collect();
    ids.sort();
    let expected: Vec<u128> = (0..20u128).collect();
    assert_eq!(ids, expected);
}

#[test]
fn difficulty_range_spans_added_questions() {
    let mut quiz = Quiz::new("Range".to_string());
    let ids: Vec<u128> = [300_000u32, 700_000, 500_000]
        .iter()
        .map(|d| {
            let q = create_sample_question(*d);
            let id = q.id;
            quiz.add_question(q);
            id
        })
        .collect();
    assert_eq!(quiz.difficulty_range, (300_000, 700_000));
    for id in ids {
        assert!(quiz.remove_question(id).is_some());
    }
    assert_eq!(quiz.difficulty_range, (0, 1_000_000));
}

#[test]
fn removal_keeps_topics_and_recomputes_duration() {
    let mut quiz = Quiz::new("Topics".to_string());
    let topic = new_id();
    let mut q = create_sample_question(500_000);
    q.topic_id = topic;
    q.estimated_time_seconds = 150;
    let id = q.id;
    quiz.add_question(q);
    assert_eq!(quiz.estimated_duration_minutes, 2);
    quiz.remove_question(id);
    assert!(quiz.topic_ids.contains(&topic));
    assert_eq!(quiz.estimated_duration_minutes, 1);
}

#[test]
fn short_questions_still_estimate_one_minute() {
    let mut quiz = Quiz::new("Short".to_string());
    let mut q = create_sample_question(100_000);
    q.estimated_time_seconds = 5;
    quiz.add_question(q);
    assert_eq!(quiz.estimated_duration_minutes, 1);
}
