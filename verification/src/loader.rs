//! Exams as they are stored, and how a stored exam becomes an [`Exam`].
//!
//! A stored exam gives its time limit in seconds and always caps the wrong
//! answers.

use crate::exam::{Exam, ExamView};
use crate::question::{clone_texts, question_views, texts, Question, QuestionView};
use vstd::prelude::*;

verus! {

/// A card of a stored deck.
#[derive(Debug)]
pub struct JsonCard {
    pub question: String,
    pub valid_answers: Vec<String>,
    pub meaning: String,
}

impl View for JsonCard {
    type V = QuestionView;

    open spec fn view(&self) -> QuestionView {
        QuestionView {
            question: self.question@,
            valid_answers: texts(self.valid_answers@),
            meaning: self.meaning@,
        }
    }
}

/// An exam as it is stored.
#[derive(Debug)]
pub struct JsonExam {
    pub name: String,
    pub num_questions: usize,
    pub max_wrong: usize,
    /// Time for one question, in seconds.
    pub timelimit: usize,
    pub hsk_level: usize,
    pub deck: Vec<JsonCard>,
}

/// The mathematical value of a [`JsonExam`].
pub struct JsonExamView {
    pub name: Seq<char>,
    pub num_questions: nat,
    pub max_wrong: nat,
    pub timelimit: nat,
    pub hsk_level: nat,
    pub deck: Seq<QuestionView>,
}

/// The values of a list of stored cards.
pub open spec fn card_views(cards: Seq<JsonCard>) -> Seq<QuestionView> {
    cards.map_values(|c: JsonCard| c@)
}

impl View for JsonExam {
    type V = JsonExamView;

    open spec fn view(&self) -> JsonExamView {
        JsonExamView {
            name: self.name@,
            num_questions: self.num_questions as nat,
            max_wrong: self.max_wrong as nat,
            timelimit: self.timelimit as nat,
            hsk_level: self.hsk_level as nat,
            deck: card_views(self.deck@),
        }
    }
}

impl JsonExamView {
    /// The exam that the stored exam stands for: the same deck and numbers,
    /// the cap on wrong answers in force, the time limit in milliseconds.
    pub open spec fn converted(self) -> ExamView {
        ExamView {
            name: self.name,
            deck: self.deck,
            num_questions: self.num_questions,
            max_wrong: Some(self.max_wrong),
            timelimit: self.timelimit * 1000,
            hsk_level: self.hsk_level,
        }
    }
}

/// The question that a stored card stands for.
pub fn convert_card(json_card: &JsonCard) -> (r: Question)
    ensures
        r@ == json_card@,
{
    Question {
        question: json_card.question.clone(),
        valid_answers: clone_texts(&json_card.valid_answers),
        meaning: json_card.meaning.clone(),
    }
}

/// The exam that a stored exam stands for. The time limit in milliseconds
/// has to fit the machine's numbers.
pub fn convert_exam(json_exam: &JsonExam) -> (r: Exam)
    requires
        json_exam.timelimit * 1000 <= usize::MAX,
    ensures
        r@ == json_exam@.converted(),
{
    let mut deck: Vec<Question> = Vec::new();
    let mut i: usize = 0;
    while i < json_exam.deck.len()
        invariant
            i <= json_exam.deck.len(),
            deck@.len() == i,
            forall|j: int| 0 <= j < i ==> deck@[j]@ == json_exam.deck@[j]@,
        decreases json_exam.deck.len() - i,
    {
        deck.push(convert_card(&json_exam.deck[i]));
        i += 1;
    }
    assert(question_views(deck@) =~= card_views(json_exam.deck@));
    Exam {
        name: json_exam.name.clone(),
        deck,
        num_questions: json_exam.num_questions,
        max_wrong: Some(json_exam.max_wrong),
        timelimit: json_exam.timelimit * 1000,
        hsk_level: json_exam.hsk_level,
    }
}

} // verus!
