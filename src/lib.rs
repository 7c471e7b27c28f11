//! Assessment engine: quiz questions and their accepted answers, a per-learner
//! session state machine, and scoring strategies over recorded responses.
//!
//! Fractional quantities (difficulty, thresholds, weights and scores) are
//! fixed-point integers counted in millionths: `UNIT` stands for 1.0.
//! Identifiers are 128-bit integers and timestamps are milliseconds since the
//! Unix epoch. Operations that read the clock come in two forms: `op_at(now)`
//! takes the time as an argument, `op()` reads the system clock.

pub mod auth;
pub mod curriculum;
pub mod engine;
pub mod error;
pub mod fixed;
pub mod graph;
pub mod llm;
pub mod outside;
pub mod question;
pub mod quiz;
pub mod scoring;
pub mod session;
pub mod storage;

pub use auth::{AuthManager, AuthProvider, User};
pub use engine::QuizlrCore;
pub use error::QuizlrError;
pub use llm::{LlmManager, LlmProvider};
pub use storage::{StorageBackend, StorageManager};
pub use fixed::UNIT;
pub use question::{Answer, Citation, FollowUpRule, Question, QuestionType};
pub use quiz::{Quiz, QuizBuilder};
pub use scoring::{Score, ScoreComponents, ScoringStrategy};
pub use session::{QuestionResponse, QuizSession, SessionState, SessionSummary};
