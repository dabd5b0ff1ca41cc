//! Questions of an exam deck, and how free-text answers are graded.

use crate::seqs::lemma_take_next;
use crate::text::same_chars;
use vstd::prelude::*;

verus! {

/// One card of a deck: the prompt, the answers that count as right (the
/// first is the one shown to the user) and a gloss.
#[derive(Debug)]
pub struct Question {
    pub question: String,
    pub valid_answers: Vec<String>,
    pub meaning: String,
}

/// The mathematical value of a [`Question`].
pub struct QuestionView {
    pub question: Seq<char>,
    pub valid_answers: Seq<Seq<char>>,
    pub meaning: Seq<char>,
}

/// The texts that a list of strings holds.
pub open spec fn texts(strings: Seq<String>) -> Seq<Seq<char>> {
    strings.map_values(|s: String| s@)
}

impl View for Question {
    type V = QuestionView;

    open spec fn view(&self) -> QuestionView {
        QuestionView {
            question: self.question@,
            valid_answers: texts(self.valid_answers@),
            meaning: self.meaning@,
        }
    }
}

/// The values of a list of questions.
pub open spec fn question_views(questions: Seq<Question>) -> Seq<QuestionView> {
    questions.map_values(|q: Question| q@)
}

/// What `str::to_lowercase` makes of a text.
pub uninterp spec fn lowercase_of(text: Seq<char>) -> Seq<char>;

/// Whether grading keeps a character: spaces and the digit `5`, which
/// stands for the neutral tone, are dropped.
pub open spec fn is_kept(c: char) -> bool {
    c != ' ' && c != '5'
}

/// A text without the characters that grading drops.
pub open spec fn stripped(text: Seq<char>) -> Seq<char> {
    text.filter(|c: char| is_kept(c))
}

/// The form in which two texts are compared: lowercased, then stripped.
pub open spec fn normalized(text: Seq<char>) -> Seq<char> {
    stripped(lowercase_of(text))
}

impl QuestionView {
    /// Whether `text` matches one of the valid answers after normalization.
    pub open spec fn accepts(self, text: Seq<char>) -> bool {
        exists|i: int|
            0 <= i < self.valid_answers.len() && #[trigger] normalized(self.valid_answers[i])
                == normalized(text)
    }
}

/// Calls `str::to_lowercase`. The result is the Unicode lowercase form of
/// `s`, a function of the text alone; the contract only gives it its name.
#[verifier::external_body]
fn to_lowercase(s: &str) -> (r: String)
    ensures
        r@ == lowercase_of(s@),
{
    s.to_lowercase()
}

/// Drops every space and every `5` from `text` and keeps the rest in order.
pub fn strip(text: &str) -> (r: Vec<char>)
    ensures
        r@ == stripped(text@),
{
    let mut out: Vec<char> = Vec::new();
    let ghost keep = |c: char| is_kept(c);
    for c in it: text.chars()
        invariant
            it.seq() == text@,
            keep == (|c: char| is_kept(c)),
            out@ == it.seq().take(it.index()).filter(keep),
    {
        proof {
            lemma_take_next(text@, it.index());
            text@.take(it.index()).lemma_filter_push(c, keep);
        }
        if c != ' ' && c != '5' {
            out.push(c);
        }
    }
    assert(text@.take(text@.len() as int) =~= text@);
    out
}

/// The normalized form of `text`.
pub fn normalize(text: &str) -> (r: Vec<char>)
    ensures
        r@ == normalized(text@),
{
    let lowered = to_lowercase(text);
    strip(lowered.as_str())
}

/// A copy of a list of texts.
pub fn clone_texts(strings: &Vec<String>) -> (r: Vec<String>)
    ensures
        texts(r@) == texts(strings@),
{
    let mut out: Vec<String> = Vec::new();
    let mut i: usize = 0;
    while i < strings.len()
        invariant
            i <= strings.len(),
            out@.len() == i,
            forall|j: int| 0 <= j < i ==> out@[j]@ == strings@[j]@,
        decreases strings.len() - i,
    {
        out.push(strings[i].clone());
        i += 1;
    }
    assert(texts(out@) =~= texts(strings@));
    out
}

impl Clone for Question {
    fn clone(&self) -> (r: Self)
        ensures
            r@ == self@,
    {
        Question {
            question: self.question.clone(),
            valid_answers: clone_texts(&self.valid_answers),
            meaning: self.meaning.clone(),
        }
    }
}

impl Question {
    /// Grades a free-text answer: it is right when, after normalization, it
    /// equals one of the valid answers.
    pub fn is_correct(&self, answer: &str) -> (r: bool)
        ensures
            r == self@.accepts(answer@),
    {
        let answer_fixed = normalize(answer);
        let mut i: usize = 0;
        while i < self.valid_answers.len()
            invariant
                i <= self.valid_answers.len(),
                answer_fixed@ == normalized(answer@),
                forall|j: int|
                    0 <= j < i ==> #[trigger] normalized(self@.valid_answers[j]) != normalized(
                        answer@,
                    ),
            decreases self.valid_answers.len() - i,
        {
            let valid_answer_fixed = normalize(self.valid_answers[i].as_str());
            assert(self@.valid_answers[i as int] == self.valid_answers@[i as int]@);
            if same_chars(&answer_fixed, &valid_answer_fixed) {
                return true;
            }
            i += 1;
        }
        false
    }
}

} // verus!
