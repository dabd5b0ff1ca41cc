//! The outcome recorded against one question.

use vstd::prelude::*;

verus! {

/// What was recorded for one question of a session.
#[derive(Debug)]
pub enum Answer {
    /// The time for the question ran out.
    Timeout,
    /// The user stopped the exam at this question.
    Quit,
    /// The text that was given, and it was right.
    Correct(String),
    /// The text that was given, and it was wrong.
    Incorrect(String),
}

/// The mathematical value of an [`Answer`].
pub enum AnswerView {
    Timeout,
    Quit,
    Correct(Seq<char>),
    Incorrect(Seq<char>),
}

impl View for Answer {
    type V = AnswerView;

    open spec fn view(&self) -> AnswerView {
        match self {
            Answer::Timeout => AnswerView::Timeout,
            Answer::Quit => AnswerView::Quit,
            Answer::Correct(s) => AnswerView::Correct(s@),
            Answer::Incorrect(s) => AnswerView::Incorrect(s@),
        }
    }
}

impl Clone for Answer {
    fn clone(&self) -> (r: Self)
        ensures
            r@ == self@,
    {
        match self {
            Answer::Timeout => Answer::Timeout,
            Answer::Quit => Answer::Quit,
            Answer::Correct(s) => Answer::Correct(s.clone()),
            Answer::Incorrect(s) => Answer::Incorrect(s.clone()),
        }
    }
}

impl Answer {
    /// Whether the user stopped the exam here.
    pub fn is_quit(&self) -> (r: bool)
        ensures
            r == (self@ is Quit),
    {
        match self {
            Answer::Quit => true,
            _ => false,
        }
    }

    /// Whether the answer was right.
    pub fn is_correct(&self) -> (r: bool)
        ensures
            r == (self@ is Correct),
    {
        match self {
            Answer::Correct(_) => true,
            _ => false,
        }
    }

    /// Whether the time ran out.
    pub fn is_timeout(&self) -> (r: bool)
        ensures
            r == (self@ is Timeout),
    {
        match self {
            Answer::Timeout => true,
            _ => false,
        }
    }
}

} // verus!
