//! Timed-quiz sessions for a community chat server: exam decks, answer
//! grading, the per-user session state machine and the registry that keeps
//! the running sessions apart.

pub mod answer;
pub mod command;
pub mod command_parser;
pub mod decimal;
pub mod exam;
pub mod examiner;
pub mod loader;
pub mod question;
pub mod registry;
pub mod score;
pub mod seqs;
pub mod shuffle;
pub mod text;
