//! The definition of an exam: a deck of questions and the rules by which a
//! session over it passes or fails.

use crate::question::{question_views, Question, QuestionView};
use vstd::prelude::*;

verus! {

/// An exam as it was loaded. It is never changed afterwards.
#[derive(Debug)]
pub struct Exam {
    pub name: String,
    pub deck: Vec<Question>,
    /// How many questions a session draws from the deck.
    pub num_questions: usize,
    /// How many answers may be wrong, if there is a cap.
    pub max_wrong: Option<usize>,
    /// Time for one question, in milliseconds.
    pub timelimit: usize,
    pub hsk_level: usize,
}

/// The mathematical value of an [`Exam`].
pub struct ExamView {
    pub name: Seq<char>,
    pub deck: Seq<QuestionView>,
    pub num_questions: nat,
    pub max_wrong: Option<nat>,
    pub timelimit: nat,
    pub hsk_level: nat,
}

/// An optional machine number as an optional natural number.
pub open spec fn optional_nat(n: Option<usize>) -> Option<nat> {
    match n {
        Some(n) => Some(n as nat),
        None => None,
    }
}

impl View for Exam {
    type V = ExamView;

    open spec fn view(&self) -> ExamView {
        ExamView {
            name: self.name@,
            deck: question_views(self.deck@),
            num_questions: self.num_questions as nat,
            max_wrong: optional_nat(self.max_wrong),
            timelimit: self.timelimit as nat,
            hsk_level: self.hsk_level as nat,
        }
    }
}

/// A copy of a list of questions.
pub fn clone_questions(questions: &Vec<Question>) -> (r: Vec<Question>)
    ensures
        question_views(r@) == question_views(questions@),
{
    let mut out: Vec<Question> = Vec::new();
    let mut i: usize = 0;
    while i < questions.len()
        invariant
            i <= questions.len(),
            out@.len() == i,
            forall|j: int| 0 <= j < i ==> out@[j]@ == questions@[j]@,
        decreases questions.len() - i,
    {
        out.push(questions[i].clone());
        i += 1;
    }
    assert(question_views(out@) =~= question_views(questions@));
    out
}

impl Clone for Exam {
    fn clone(&self) -> (r: Self)
        ensures
            r@ == self@,
    {
        Exam {
            name: self.name.clone(),
            deck: clone_questions(&self.deck),
            num_questions: self.num_questions,
            max_wrong: self.max_wrong,
            timelimit: self.timelimit,
            hsk_level: self.hsk_level,
        }
    }
}

} // verus!
