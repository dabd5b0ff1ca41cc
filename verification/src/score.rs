//! What a session reports: the outcome of one tick and the final score.

use crate::answer::{Answer, AnswerView};
use crate::question::{Question, QuestionView};
use vstd::prelude::*;

verus! {

/// The result of a finished session.
///
/// The score as a fraction is `1 - number_wrong / number_answered`; the two
/// counts are kept as they are so that nothing is rounded.
#[derive(Debug)]
pub struct ExamScore {
    pub passed: bool,
    /// How many of the recorded answers were not right.
    pub number_wrong: usize,
    /// How many answers were recorded.
    pub number_answered: usize,
    /// Every answered question with what was recorded for it, in order.
    pub graded_questions: Vec<(Question, Answer)>,
}

/// The mathematical value of an [`ExamScore`].
pub struct ExamScoreView {
    pub passed: bool,
    pub number_wrong: nat,
    pub number_answered: nat,
    pub graded_questions: Seq<(QuestionView, AnswerView)>,
}

/// The values of a list of graded questions.
pub open spec fn graded_views(graded: Seq<(Question, Answer)>) -> Seq<(QuestionView, AnswerView)> {
    graded.map_values(|p: (Question, Answer)| (p.0@, p.1@))
}

/// The value of an optional graded question.
pub open spec fn graded_view(graded: Option<(Question, Answer)>) -> Option<
    (QuestionView, AnswerView),
> {
    match graded {
        Some(p) => Some((p.0@, p.1@)),
        None => None,
    }
}

impl View for ExamScore {
    type V = ExamScoreView;

    open spec fn view(&self) -> ExamScoreView {
        ExamScoreView {
            passed: self.passed,
            number_wrong: self.number_wrong as nat,
            number_answered: self.number_answered as nat,
            graded_questions: graded_views(self.graded_questions@),
        }
    }
}

/// What one tick of a session did.
#[derive(Debug)]
pub enum TickResult {
    /// Nothing to report: the clock of the current question ran on.
    Nothing,
    /// The current question timed out on this tick. A timeout was recorded
    /// as its answer and a pause of one second begins.
    Timeout,
    /// The next question is posed.
    NextQuestion(Question),
    /// The pause after a timeout is running.
    Pause,
    /// The exam is over, with this score.
    Finished(ExamScore),
}

/// The mathematical value of a [`TickResult`].
pub enum TickResultView {
    Nothing,
    Timeout,
    NextQuestion(QuestionView),
    Pause,
    Finished(ExamScoreView),
}

impl View for TickResult {
    type V = TickResultView;

    open spec fn view(&self) -> TickResultView {
        match self {
            TickResult::Nothing => TickResultView::Nothing,
            TickResult::Timeout => TickResultView::Timeout,
            TickResult::NextQuestion(q) => TickResultView::NextQuestion(q@),
            TickResult::Pause => TickResultView::Pause,
            TickResult::Finished(score) => TickResultView::Finished(score@),
        }
    }
}

impl TickResult {
    /// The question of a [`TickResult::NextQuestion`].
    pub fn unwrap_next_question(self) -> (q: Question)
        requires
            self is NextQuestion,
        ensures
            self@ == TickResultView::NextQuestion(q@),
    {
        match self {
            TickResult::NextQuestion(question) => question,
            _ => {
                proof {
                    assert(false);
                }
                unreached()
            },
        }
    }
}

} // verus!
