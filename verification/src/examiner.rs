//! The state machine that administers one exam to one user.
//!
//! A session is driven by ticks, one per fixed interval. The first tick
//! poses the first question; later ticks run the clock down, record a
//! timeout, wait out the pause after it, pose the next question or report
//! the final score. Between ticks the user's text is handed to
//! [`Examiner::answer`], and [`Examiner::give_up`] stops the exam.

use crate::answer::{Answer, AnswerView};
use crate::exam::{optional_nat, Exam, ExamView};
use crate::question::{question_views, Question, QuestionView};
use crate::score::{
    graded_view, graded_views, ExamScore, ExamScoreView, TickResult, TickResultView,
};
use crate::seqs::lemma_take_next;
use crate::shuffle::{draw, draw_order, drawn, is_permutation, shuffled_positions};
use vstd::prelude::*;

verus! {

/// How long a session pauses after a timeout, in milliseconds.
pub const PAUSE_AFTER_TIMEOUT: usize = 1000;

/// The time for one question of a practice session, in milliseconds.
pub const PRACTICE_TIMELIMIT: usize = 30000;

/// `a - b`, or zero where `b` is the larger: a countdown stops at zero.
pub open spec fn count_down(a: nat, b: nat) -> nat {
    if a >= b {
        (a - b) as nat
    } else {
        0
    }
}

/// The mathematical value of an [`Examiner`]: everything a session knows.
pub struct ExaminerView {
    /// The questions of this session, in the order in which they are posed.
    pub questions: Seq<QuestionView>,
    pub max_wrong: Option<nat>,
    pub timelimit: nat,
    pub fail_on_timeout: bool,
    pub millis_per_tick: nat,
    /// The position of the question that was posed last; `-1` before the
    /// first tick.
    pub current_question_index: int,
    pub current_question_time_left: nat,
    /// One answer for each question that is done with, in order.
    pub answers_given: Seq<AnswerView>,
    /// What is left of the pause after a timeout.
    pub pause_time: nat,
}

impl ExaminerView {
    /// The session as it is made from an exam: the questions drawn in the
    /// order that the seed gives, no question posed yet.
    ///
    /// A practice session takes the whole deck, has no cap on wrong answers
    /// and ends at the first timeout.
    pub open spec fn made(exam: ExamView, millis_per_tick: nat, seed: u64, practice: bool) -> Self {
        let order = draw_order(exam.deck.len(), seed);
        let timelimit = if practice {
            PRACTICE_TIMELIMIT as nat
        } else {
            exam.timelimit
        };
        ExaminerView {
            questions: drawn(
                exam.deck,
                order,
                if practice {
                    exam.deck.len()
                } else {
                    exam.num_questions
                },
            ),
            max_wrong: if practice {
                None
            } else {
                exam.max_wrong
            },
            timelimit,
            fail_on_timeout: practice,
            millis_per_tick,
            current_question_index: -1,
            current_question_time_left: timelimit,
            answers_given: Seq::empty(),
            pause_time: 0,
        }
    }

    /// The session that has no questions, no time and no answers. Its exam
    /// is over before the first tick.
    pub open spec fn without_questions() -> Self {
        ExaminerView {
            questions: Seq::empty(),
            max_wrong: None,
            timelimit: 0,
            fail_on_timeout: false,
            millis_per_tick: 0,
            current_question_index: -1,
            current_question_time_left: 0,
            answers_given: Seq::empty(),
            pause_time: 0,
        }
    }

    /// What holds of every session: at most one question is open, it is a
    /// question of the session, nothing is open once the exam is over or
    /// while a pause runs, and neither countdown is above where it starts.
    pub open spec fn wf(self) -> bool {
        &&& -1 <= self.current_question_index < self.questions.len()
        &&& self.current_question_index <= self.answers_given.len()
            <= self.current_question_index + 1
        &&& self.finished() ==> self.ready_for_next_question()
        &&& self.pause_time > 0 ==> self.ready_for_next_question()
        &&& self.pause_time <= PAUSE_AFTER_TIMEOUT
        &&& self.current_question_time_left <= self.timelimit
    }

    /// A bound on the ticks that the session can still take before its
    /// exam is over: for each question without an answer the pause before
    /// it, the tick that poses it, its time, and the tick of its timeout.
    pub open spec fn ticks_left(self) -> nat {
        let per_question = self.timelimit + PAUSE_AFTER_TIMEOUT + 3;
        let unanswered = self.questions.len() - self.answers_given.len();
        if self.finished() || unanswered <= 0 {
            0
        } else if self.ready_for_next_question() {
            (unanswered * per_question + self.pause_time) as nat
        } else {
            ((unanswered - 1) * per_question + PAUSE_AFTER_TIMEOUT + 2
                + self.current_question_time_left) as nat
        }
    }

    /// The question that was posed last.
    pub open spec fn current_question(self) -> QuestionView
        recommends
            0 <= self.current_question_index < self.questions.len(),
    {
        self.questions[self.current_question_index]
    }

    /// Every question that was posed has its answer.
    pub open spec fn ready_for_next_question(self) -> bool {
        self.current_question_index + 1 == self.answers_given.len()
    }

    /// The question that was posed last has no answer yet.
    pub open spec fn ready_for_next_answer(self) -> bool {
        self.current_question_index == self.answers_given.len()
    }

    /// How many of the recorded answers are not right. A timeout and a quit
    /// count as wrong.
    pub open spec fn number_wrong(self) -> nat {
        self.answers_given.filter(|a: AnswerView| !(a is Correct)).len()
    }

    /// How many of the recorded answers are timeouts.
    pub open spec fn number_timeouts(self) -> nat {
        self.answers_given.filter(|a: AnswerView| a is Timeout).len()
    }

    /// The user gave up: one of the answers is a quit.
    pub open spec fn finished_gave_up(self) -> bool {
        exists|i: int| 0 <= i < self.answers_given.len() && self.answers_given[i] is Quit
    }

    /// There is a cap on wrong answers and more than that are wrong.
    pub open spec fn finished_too_many_wrong(self) -> bool {
        self.max_wrong matches Some(max_wrong) && self.number_wrong() > max_wrong
    }

    /// Every question of the session has its answer.
    pub open spec fn finished_all_questions_answered(self) -> bool {
        self.answers_given.len() == self.questions.len()
    }

    /// The session ends at a timeout and there was one.
    pub open spec fn finished_timeout(self) -> bool {
        self.fail_on_timeout && self.number_timeouts() > 0
    }

    /// The exam is over: the user gave up, too many answers were wrong,
    /// every question has its answer, or a practice session timed out.
    pub open spec fn finished(self) -> bool {
        ||| self.finished_gave_up()
        ||| self.finished_too_many_wrong()
        ||| self.finished_all_questions_answered()
        ||| self.finished_timeout()
    }

    /// Whether the exam counts as passed: there is a cap on wrong answers,
    /// the user stopped the exam, and the wrong answers are within the cap.
    pub open spec fn passed(self) -> bool {
        self.max_wrong matches Some(max_wrong) && self.finished_gave_up() && self.number_wrong()
            <= max_wrong
    }

    /// The time for the open question has run out.
    pub open spec fn timed_out(self) -> bool {
        self.current_question_time_left == 0
    }

    /// Each answered question with its answer, in order.
    pub open spec fn graded_questions(self) -> Seq<(QuestionView, AnswerView)> {
        Seq::new(self.answers_given.len(), |i: int| (self.questions[i], self.answers_given[i]))
    }

    /// The score of the session as it stands.
    pub open spec fn score(self) -> ExamScoreView {
        ExamScoreView {
            passed: self.passed(),
            number_wrong: self.number_wrong(),
            number_answered: self.answers_given.len(),
            graded_questions: self.graded_questions(),
        }
    }

    /// The session after one tick. The cases are tried in this order: over,
    /// pausing, ready for the next question, timed out, clock running.
    pub open spec fn after_tick(self) -> Self {
        if self.finished() {
            self
        } else if self.pause_time > 0 {
            ExaminerView { pause_time: count_down(self.pause_time, self.millis_per_tick), ..self }
        } else if self.ready_for_next_question() {
            ExaminerView {
                current_question_index: self.current_question_index + 1,
                current_question_time_left: self.timelimit,
                ..self
            }
        } else if self.timed_out() {
            ExaminerView {
                answers_given: self.answers_given.push(AnswerView::Timeout),
                pause_time: PAUSE_AFTER_TIMEOUT as nat,
                ..self
            }
        } else {
            ExaminerView {
                current_question_time_left: count_down(
                    self.current_question_time_left,
                    self.millis_per_tick,
                ),
                ..self
            }
        }
    }

    /// What one tick reports, by the same cases as [`Self::after_tick`].
    pub open spec fn tick_result(self) -> TickResultView {
        if self.finished() {
            TickResultView::Finished(self.score())
        } else if self.pause_time > 0 {
            TickResultView::Pause
        } else if self.ready_for_next_question() {
            TickResultView::NextQuestion(self.questions[self.current_question_index + 1])
        } else if self.timed_out() {
            TickResultView::Timeout
        } else {
            TickResultView::Nothing
        }
    }

    /// The session after `n` ticks with nothing else in between.
    pub open spec fn after_ticks(self, n: nat) -> Self
        decreases n,
    {
        if n == 0 {
            self
        } else {
            self.after_ticks((n - 1) as nat).after_tick()
        }
    }

    /// Whether an answer is taken now: the exam is not over, a question is
    /// open and no pause runs.
    pub open spec fn accepts_answer(self) -> bool {
        !self.finished() && self.ready_for_next_answer() && self.pause_time == 0
    }

    /// The answer that is recorded for `text` given to the open question.
    pub open spec fn graded(self, text: Seq<char>) -> AnswerView {
        if self.current_question().accepts(text) {
            AnswerView::Correct(text)
        } else {
            AnswerView::Incorrect(text)
        }
    }

    /// The session after `text` was handed in.
    pub open spec fn after_answer(self, text: Seq<char>) -> Self {
        if self.accepts_answer() {
            ExaminerView { answers_given: self.answers_given.push(self.graded(text)), ..self }
        } else {
            self
        }
    }

    /// What handing in `text` gives back: the open question with the answer
    /// recorded for it, or nothing where no answer is taken.
    pub open spec fn answer_result(self, text: Seq<char>) -> Option<(QuestionView, AnswerView)> {
        if self.accepts_answer() {
            Some((self.current_question(), self.graded(text)))
        } else {
            None
        }
    }

    /// The session after the user gave up on the open question.
    pub open spec fn after_give_up(self) -> Self {
        ExaminerView { answers_given: self.answers_given.push(AnswerView::Quit), ..self }
    }
}

/// The state machine that administers an exam.
///
/// Call [`Examiner::tick`] once to get the first question and then once per
/// `millis_per_tick`. Hand the user's text to [`Examiner::answer`]; the next
/// tick goes on from it. The exam ends when a tick returns
/// [`TickResult::Finished`].
#[derive(Debug)]
pub struct Examiner {
    questions: Vec<Question>,
    max_wrong: Option<usize>,
    timelimit: usize,
    fail_on_timeout: bool,
    millis_per_tick: usize,
    /// How many questions were posed: one more than the position of the
    /// current question.
    questions_posed: usize,
    current_question_time_left: usize,
    answers_given: Vec<Answer>,
    pause_time: usize,
}

/// The values of a list of answers.
pub open spec fn answer_views(answers: Seq<Answer>) -> Seq<AnswerView> {
    answers.map_values(|a: Answer| a@)
}

impl View for Examiner {
    type V = ExaminerView;

    closed spec fn view(&self) -> ExaminerView {
        ExaminerView {
            questions: question_views(self.questions@),
            max_wrong: optional_nat(self.max_wrong),
            timelimit: self.timelimit as nat,
            fail_on_timeout: self.fail_on_timeout,
            millis_per_tick: self.millis_per_tick as nat,
            current_question_index: self.questions_posed - 1,
            current_question_time_left: self.current_question_time_left as nat,
            answers_given: answer_views(self.answers_given@),
            pause_time: self.pause_time as nat,
        }
    }
}

impl Examiner {
    #[verifier::type_invariant]
    spec fn inv(&self) -> bool {
        self@.wf()
    }

    /// A session without questions, which is over from the start.
    fn without_questions() -> (r: Examiner)
        ensures
            r@ == ExaminerView::without_questions(),
            r@.wf(),
            r@.finished(),
    {
        let questions: Vec<Question> = Vec::new();
        let answers_given: Vec<Answer> = Vec::new();
        assert(question_views(questions@) =~= Seq::<QuestionView>::empty());
        assert(answer_views(answers_given@) =~= Seq::<AnswerView>::empty());
        Examiner {
            questions,
            max_wrong: None,
            timelimit: 0,
            fail_on_timeout: false,
            millis_per_tick: 0,
            questions_posed: 0,
            current_question_time_left: 0,
            answers_given,
            pause_time: 0,
        }
    }

    /// Records the answer to the open question. The session is put together
    /// anew around the longer list of answers, so that it is well formed at
    /// every step on the way.
    fn record(&mut self, answer: Answer)
        requires
            old(self)@.ready_for_next_answer(),
        ensures
            final(self)@ == (ExaminerView {
                answers_given: old(self)@.answers_given.push(answer@),
                ..old(self)@
            }),
            final(self)@.wf(),
    {
        proof {
            use_type_invariant(&*self);
        }
        let mut session = Examiner::without_questions();
        core::mem::swap(self, &mut session);
        let Examiner {
            questions,
            max_wrong,
            timelimit,
            fail_on_timeout,
            millis_per_tick,
            questions_posed,
            current_question_time_left,
            answers_given,
            pause_time,
        } = session;
        let mut answers_given = answers_given;
        let ghost before = answer_views(answers_given@);
        answers_given.push(answer);
        assert(answer_views(answers_given@) =~= before.push(answer@));
        *self = Examiner {
            questions,
            max_wrong,
            timelimit,
            fail_on_timeout,
            millis_per_tick,
            questions_posed,
            current_question_time_left,
            answers_given,
            pause_time,
        };
    }

    fn make_session(exam: &Exam, millis_per_tick: usize, seed: u64, practice: bool) -> (r: Examiner)
        ensures
            r@ == ExaminerView::made(exam@, millis_per_tick as nat, seed, practice),
            is_permutation(draw_order(exam@.deck.len(), seed), exam@.deck.len()),
            r@.wf(),
    {
        let order = shuffled_positions(exam.deck.len(), seed);
        let count = if practice {
            exam.deck.len()
        } else {
            exam.num_questions
        };
        let questions = draw(&exam.deck, &order, count);
        let timelimit = if practice {
            PRACTICE_TIMELIMIT
        } else {
            exam.timelimit
        };
        let max_wrong = if practice {
            None
        } else {
            exam.max_wrong
        };
        let answers_given: Vec<Answer> = Vec::new();
        assert(answer_views(answers_given@) =~= Seq::<AnswerView>::empty());
        Examiner {
            questions,
            max_wrong,
            timelimit,
            fail_on_timeout: practice,
            millis_per_tick,
            questions_posed: 0,
            current_question_time_left: timelimit,
            answers_given,
            pause_time: 0,
        }
    }

    /// Starts a session over `exam`: shuffles the deck by `seed` and takes
    /// the first `num_questions` cards. The same exam and seed always give
    /// the same questions in the same order.
    pub fn make(exam: &Exam, millis_per_tick: usize, seed: u64) -> (r: Examiner)
        ensures
            r@ == ExaminerView::made(exam@, millis_per_tick as nat, seed, false),
            is_permutation(draw_order(exam@.deck.len(), seed), exam@.deck.len()),
            r@.wf(),
    {
        Self::make_session(exam, millis_per_tick, seed, false)
    }

    /// Starts a practice session over `exam`: the whole deck in the order
    /// that `seed` gives, no cap on wrong answers, over at the first timeout.
    pub fn make_practice(exam: &Exam, millis_per_tick: usize, seed: u64) -> (r: Examiner)
        ensures
            r@ == ExaminerView::made(exam@, millis_per_tick as nat, seed, true),
            is_permutation(draw_order(exam@.deck.len(), seed), exam@.deck.len()),
            r@.wf(),
    {
        Self::make_session(exam, millis_per_tick, seed, true)
    }

    /// The question that was posed last. There is none before the first
    /// tick.
    pub fn current_question(&self) -> (q: &Question)
        requires
            self@.current_question_index >= 0,
        ensures
            q@ == self@.current_question(),
            self@.wf(),
    {
        proof {
            use_type_invariant(self);
        }
        &self.questions[self.questions_posed - 1]
    }

    /// Whether every question that was posed has its answer, so that the
    /// next tick may pose the next one.
    pub fn ready_for_next_question(&self) -> (r: bool)
        ensures
            r == self@.ready_for_next_question(),
    {
        self.questions_posed == self.answers_given.len()
    }

    /// Whether a question is open: the one posed last has no answer yet.
    pub fn ready_for_next_answer(&self) -> (r: bool)
        ensures
            r == self@.ready_for_next_answer(),
    {
        self.questions_posed > 0 && self.questions_posed - 1 == self.answers_given.len()
    }

    /// How many of the recorded answers are not right.
    pub fn number_wrong(&self) -> (r: usize)
        ensures
            r == self@.number_wrong(),
            r <= self@.answers_given.len(),
    {
        let ghost wrong = |a: AnswerView| !(a is Correct);
        let ghost answers = answer_views(self.answers_given@);
        let mut number_wrong: usize = 0;
        let mut i: usize = 0;
        while i < self.answers_given.len()
            invariant
                i <= self.answers_given.len(),
                answers == answer_views(self.answers_given@),
                wrong == (|a: AnswerView| !(a is Correct)),
                number_wrong == answers.take(i as int).filter(wrong).len(),
                number_wrong <= i,
            decreases self.answers_given.len() - i,
        {
            proof {
                lemma_take_next(answers, i as int);
                answers.take(i as int).lemma_filter_push(answers[i as int], wrong);
            }
            if !self.answers_given[i].is_correct() {
                number_wrong += 1;
            }
            i += 1;
        }
        assert(answers.take(i as int) =~= answers);
        number_wrong
    }

    /// How many of the recorded answers are timeouts.
    pub fn _number_timeouts(&self) -> (r: usize)
        ensures
            r == self@.number_timeouts(),
    {
        let ghost timeout = |a: AnswerView| a is Timeout;
        let ghost answers = answer_views(self.answers_given@);
        let mut number_timeout: usize = 0;
        let mut i: usize = 0;
        while i < self.answers_given.len()
            invariant
                i <= self.answers_given.len(),
                answers == answer_views(self.answers_given@),
                timeout == (|a: AnswerView| a is Timeout),
                number_timeout == answers.take(i as int).filter(timeout).len(),
                number_timeout <= i,
            decreases self.answers_given.len() - i,
        {
            proof {
                lemma_take_next(answers, i as int);
                answers.take(i as int).lemma_filter_push(answers[i as int], timeout);
            }
            if self.answers_given[i].is_timeout() {
                number_timeout += 1;
            }
            i += 1;
        }
        assert(answers.take(i as int) =~= answers);
        number_timeout
    }

    /// Whether the user gave up.
    pub fn _finished_gave_up(&self) -> (r: bool)
        ensures
            r == self@.finished_gave_up(),
    {
        let mut i: usize = 0;
        while i < self.answers_given.len()
            invariant
                i <= self.answers_given.len(),
                forall|j: int| 0 <= j < i ==> !(self@.answers_given[j] is Quit),
            decreases self.answers_given.len() - i,
        {
            if self.answers_given[i].is_quit() {
                assert(self@.answers_given[i as int] is Quit);
                return true;
            }
            i += 1;
        }
        false
    }

    /// Whether more answers are wrong than the cap allows.
    pub fn _finished_too_many_wrong(&self) -> (r: bool)
        ensures
            r == self@.finished_too_many_wrong(),
    {
        match self.max_wrong {
            Some(max_wrong) => self.number_wrong() > max_wrong,
            None => false,
        }
    }

    /// Whether every question of the session has its answer.
    pub fn _finished_all_questions_answered(&self) -> (r: bool)
        ensures
            r == self@.finished_all_questions_answered(),
    {
        self.answers_given.len() == self.questions.len()
    }

    /// Whether a timeout has ended a session that ends at the first one.
    pub fn _finished_timeout(&self) -> (r: bool)
        ensures
            r == self@.finished_timeout(),
    {
        self.fail_on_timeout && self._number_timeouts() > 0
    }

    /// Whether the exam is over.
    pub fn finished(&self) -> (r: bool)
        ensures
            r == self@.finished(),
    {
        self._finished_gave_up() || self._finished_too_many_wrong()
            || self._finished_all_questions_answered() || self._finished_timeout()
    }

    /// Whether the exam counts as passed. The question has a meaning only
    /// once the exam is over.
    pub fn passed(&self) -> (r: bool)
        requires
            self@.finished(),
        ensures
            r == self@.passed(),
    {
        match self.max_wrong {
            Some(max_wrong) => self._finished_gave_up() && self.number_wrong() <= max_wrong,
            None => false,
        }
    }

    /// Each answered question with its answer, in order.
    pub fn graded_questions(&self) -> (r: Vec<(Question, Answer)>)
        ensures
            graded_views(r@) == self@.graded_questions(),
            self@.wf(),
    {
        proof {
            use_type_invariant(self);
        }
        let mut results: Vec<(Question, Answer)> = Vec::new();
        let mut i: usize = 0;
        while i < self.answers_given.len()
            invariant
                i <= self.answers_given.len() <= self.questions.len(),
                results@.len() == i,
                forall|j: int|
                    0 <= j < i ==> (#[trigger] results@[j]).0@ == self.questions@[j]@
                        && results@[j].1@ == self.answers_given@[j]@,
            decreases self.answers_given.len() - i,
        {
            results.push((self.questions[i].clone(), self.answers_given[i].clone()));
            i += 1;
        }
        assert(graded_views(results@) =~= self@.graded_questions());
        results
    }

    /// The final score.
    pub fn score(&self) -> (r: ExamScore)
        requires
            self@.finished(),
        ensures
            r@ == self@.score(),
    {
        ExamScore {
            passed: self.passed(),
            number_wrong: self.number_wrong(),
            number_answered: self.answers_given.len(),
            graded_questions: self.graded_questions(),
        }
    }

    /// Whether the time for the open question has run out.
    pub fn timed_out(&self) -> (r: bool)
        ensures
            r == self@.timed_out(),
    {
        self.current_question_time_left == 0
    }

    /// Advances the session by one tick and says what happened.
    pub fn tick(&mut self) -> (r: TickResult)
        ensures
            final(self)@ == old(self)@.after_tick(),
            r@ == old(self)@.tick_result(),
            old(self)@.wf(),
            final(self)@.wf(),
    {
        proof {
            use_type_invariant(&*self);
        }
        if self.finished() {
            TickResult::Finished(self.score())
        } else if self.pause_time > 0 {
            self.pause_time = self.pause_time.saturating_sub(self.millis_per_tick);
            TickResult::Pause
        } else if self.ready_for_next_question() {
            assert(self.questions_posed < self.questions.len());
            self.questions_posed += 1;
            self.current_question_time_left = self.timelimit;
            TickResult::NextQuestion(self.current_question().clone())
        } else if self.timed_out() {
            self.record(Answer::Timeout);
            self.pause_time = PAUSE_AFTER_TIMEOUT;
            TickResult::Timeout
        } else {
            self.current_question_time_left = self.current_question_time_left.saturating_sub(
                self.millis_per_tick,
            );
            TickResult::Nothing
        }
    }

    /// Hands in the user's text for the open question. Where no answer is
    /// taken (the exam is over, no question is open, a pause runs) nothing
    /// changes and nothing is returned; else the text is graded, recorded,
    /// and returned with its question.
    pub fn answer(&mut self, answer: &str) -> (r: Option<(Question, Answer)>)
        ensures
            final(self)@ == old(self)@.after_answer(answer@),
            graded_view(r) == old(self)@.answer_result(answer@),
            old(self)@.wf(),
            final(self)@.wf(),
    {
        proof {
            use_type_invariant(&*self);
        }
        if self.finished() || !self.ready_for_next_answer() || self.pause_time > 0 {
            return None;
        }
        let current_question = self.current_question().clone();
        let correct = current_question.is_correct(answer);
        let recorded = if correct {
            Answer::Correct(answer.to_owned())
        } else {
            Answer::Incorrect(answer.to_owned())
        };
        let returned = recorded.clone();
        self.record(recorded);
        Some((current_question, returned))
    }

    /// Stops the exam at the open question. The caller makes sure that a
    /// question is open.
    pub fn give_up(&mut self)
        requires
            old(self)@.ready_for_next_answer(),
        ensures
            final(self)@ == old(self)@.after_give_up(),
            final(self)@.finished(),
            final(self)@.wf(),
    {
        self.record(Answer::Quit);
        assert(self@.answers_given[self@.answers_given.len() - 1] is Quit);
    }
}

} // verus!

verus! {

/// A session is well formed when it is made, whatever the exam and the seed.
pub proof fn lemma_made_wf(exam: ExamView, millis_per_tick: nat, seed: u64, practice: bool)
    ensures
        ExaminerView::made(exam, millis_per_tick, seed, practice).wf(),
{
}

/// Two sessions made from the same deck with the same seed pose the same
/// questions in the same order, whatever else differs between the exams.
pub proof fn lemma_make_is_deterministic(
    first: ExamView,
    second: ExamView,
    first_tick: nat,
    second_tick: nat,
    seed: u64,
    practice: bool,
)
    requires
        first.deck == second.deck,
        first.num_questions == second.num_questions,
    ensures
        ExaminerView::made(first, first_tick, seed, practice).questions == ExaminerView::made(
            second,
            second_tick,
            seed,
            practice,
        ).questions,
        first == second && first_tick == second_tick ==> ExaminerView::made(
            first,
            first_tick,
            seed,
            practice,
        ) == ExaminerView::made(second, second_tick, seed, practice),
{
}

/// A tick, an answer and giving up each leave a well-formed session well
/// formed.
pub proof fn lemma_steps_preserve_wf(session: ExaminerView, text: Seq<char>)
    requires
        session.wf(),
    ensures
        session.after_tick().wf(),
        session.after_answer(text).wf(),
        session.ready_for_next_answer() ==> session.after_give_up().wf(),
{
    let pushed = session.answers_given.push(AnswerView::Quit);
    assert(pushed[pushed.len() - 1] is Quit);
}

/// Once the exam is over nothing changes any more: every tick reports the
/// same score, no answer is taken, and giving up is not open to the caller.
pub proof fn lemma_finished_is_final(session: ExaminerView, text: Seq<char>)
    requires
        session.wf(),
        session.finished(),
    ensures
        session.after_tick() == session,
        session.tick_result() == TickResultView::Finished(session.score()),
        session.after_answer(text) == session,
        session.answer_result(text) is None,
        !session.ready_for_next_answer(),
{
}

/// After an answer was taken, the question is closed until the next tick:
/// the user can neither give up on it nor answer it again.
pub proof fn lemma_answered_question_is_closed(
    session: ExaminerView,
    text: Seq<char>,
    again: Seq<char>,
)
    requires
        session.wf(),
        session.answer_result(text) is Some,
    ensures
        !session.after_answer(text).ready_for_next_answer(),
        session.after_answer(text).answer_result(again) is None,
        session.after_answer(text).after_answer(again) == session.after_answer(text),
{
}

/// Answers are only ever appended, one at a time: what was recorded stays
/// as it is, in its place.
pub proof fn lemma_answers_are_append_only(session: ExaminerView, text: Seq<char>)
    requires
        session.wf(),
    ensures
        session.answers_given.is_prefix_of(session.after_tick().answers_given),
        session.after_tick().answers_given.len() <= session.answers_given.len() + 1,
        session.answers_given.is_prefix_of(session.after_answer(text).answers_given),
        session.after_answer(text).answers_given.len() <= session.answers_given.len() + 1,
        session.answers_given.is_prefix_of(session.after_give_up().answers_given),
        session.after_give_up().answers_given.len() == session.answers_given.len() + 1,
{
}

/// The score lists every recorded answer exactly once, in the order in
/// which it was recorded, each beside the question it was given to.
pub proof fn lemma_score_holds_every_answer(session: ExaminerView)
    requires
        session.wf(),
    ensures
        session.score().graded_questions.len() == session.answers_given.len(),
        session.score().number_answered == session.answers_given.len(),
        forall|i: int|
            0 <= i < session.answers_given.len() ==> (#[trigger] session.score().graded_questions[i])
                == (session.questions[i], session.answers_given[i]),
        session.score().graded_questions.map_values(|p: (QuestionView, AnswerView)| p.1)
            == session.answers_given,
{
    assert(session.score().graded_questions.map_values(|p: (QuestionView, AnswerView)| p.1)
        =~= session.answers_given);
}

/// No more answers are wrong than were recorded, so the score as a
/// fraction lies between zero and one.
pub proof fn lemma_wrong_within_answered(session: ExaminerView)
    ensures
        session.number_wrong() <= session.answers_given.len(),
        session.number_timeouts() <= session.answers_given.len(),
        session.score().number_wrong <= session.score().number_answered,
{
    session.answers_given.lemma_filter_len(|a: AnswerView| !(a is Correct));
    session.answers_given.lemma_filter_len(|a: AnswerView| a is Timeout);
}

/// A session with at least one question is over only after an answer was
/// recorded, so its score divides by a positive count.
pub proof fn lemma_finished_has_an_answer(session: ExaminerView)
    requires
        session.wf(),
        session.finished(),
        session.questions.len() > 0,
    ensures
        session.answers_given.len() > 0,
{
    lemma_wrong_within_answered(session);
}

/// An exam counts as passed only if the user stopped it: a session that
/// ran to its end without a quit is reported as not passed.
pub proof fn lemma_passed_only_by_giving_up(session: ExaminerView)
    ensures
        session.passed() ==> session.finished_gave_up() && session.finished(),
        session.passed() ==> session.number_wrong() >= 1,
        session.max_wrong == Some(0nat) ==> !session.passed(),
{
    if session.finished_gave_up() {
        let wrong = |a: AnswerView| !(a is Correct);
        let i = choose|i: int|
            0 <= i < session.answers_given.len() && session.answers_given[i] is Quit;
        session.answers_given.lemma_filter_contains(wrong, i);
        assert(session.answers_given.filter(wrong).len() > 0);
    }
}

/// While a question is open and no answer comes, each tick takes one
/// interval off its clock and reports nothing, as long as time was left
/// before the tick. The session takes the time in ticks, not by a clock of
/// its own.
pub proof fn lemma_open_question_runs_down(session: ExaminerView, n: nat)
    requires
        session.wf(),
        session.accepts_answer(),
        n > 0 ==> (n - 1) * session.millis_per_tick < session.current_question_time_left,
    ensures
        session.after_ticks(n) == (ExaminerView {
            current_question_time_left: count_down(
                session.current_question_time_left,
                n * session.millis_per_tick,
            ),
            ..session
        }),
        n > 0 ==> session.after_ticks((n - 1) as nat).tick_result() == TickResultView::Nothing,
    decreases n,
{
    let step = session.millis_per_tick;
    let time = session.current_question_time_left;
    if n == 0 {
        assert(0 * step == 0) by (nonlinear_arith);
    } else {
        let before = (n - 1) as nat;
        if before > 0 {
            assert((before - 1) * step <= before * step) by (nonlinear_arith)
                requires
                    before > 0,
                    step >= 0,
            ;
        }
        lemma_open_question_runs_down(session, before);
        assert(n * step == before * step + step) by (nonlinear_arith)
            requires
                n == before + 1,
        ;
    }
}

/// The tick after the time of an open question has run out records the
/// timeout and begins the pause.
pub proof fn lemma_timeout_when_time_is_up(session: ExaminerView, n: nat)
    requires
        session.wf(),
        session.accepts_answer(),
        n > 0 ==> (n - 1) * session.millis_per_tick < session.current_question_time_left,
        n * session.millis_per_tick >= session.current_question_time_left,
    ensures
        session.after_ticks(n).tick_result() == TickResultView::Timeout,
        session.after_ticks(n + 1) == (ExaminerView {
            current_question_time_left: 0,
            answers_given: session.answers_given.push(AnswerView::Timeout),
            pause_time: PAUSE_AFTER_TIMEOUT as nat,
            ..session
        }),
{
    lemma_open_question_runs_down(session, n);
    assert(session.after_ticks(n + 1) == session.after_ticks(n).after_tick()) by {
        reveal_with_fuel(ExaminerView::after_ticks, 2);
    }
}

/// While a pause runs and the exam is not over, each tick takes one
/// interval off the pause and reports it, and nothing else changes.
pub proof fn lemma_pause_runs_down(session: ExaminerView, n: nat)
    requires
        session.wf(),
        !session.finished(),
        n > 0 ==> (n - 1) * session.millis_per_tick < session.pause_time,
    ensures
        session.after_ticks(n) == (ExaminerView {
            pause_time: count_down(session.pause_time, n * session.millis_per_tick),
            ..session
        }),
        n > 0 ==> session.after_ticks((n - 1) as nat).tick_result() == TickResultView::Pause,
    decreases n,
{
    let step = session.millis_per_tick;
    if n == 0 {
        assert(0 * step == 0) by (nonlinear_arith);
    } else {
        let before = (n - 1) as nat;
        if before > 0 {
            assert((before - 1) * step <= before * step) by (nonlinear_arith)
                requires
                    before > 0,
                    step >= 0,
            ;
        }
        lemma_pause_runs_down(session, before);
        assert(n * step == before * step + step) by (nonlinear_arith)
            requires
                n == before + 1,
        ;
    }
}

/// Ticking `n + 1` times is one tick and then `n` more.
pub proof fn lemma_ticks_shift(session: ExaminerView, n: nat)
    ensures
        session.after_ticks(n + 1) == session.after_tick().after_ticks(n),
    decreases n,
{
    reveal_with_fuel(ExaminerView::after_ticks, 2);
    if n > 0 {
        lemma_ticks_shift(session, (n - 1) as nat);
    }
}

/// As long as the exam is not over, every tick of a positive length brings
/// the session nearer to its end.
pub proof fn lemma_tick_makes_progress(session: ExaminerView)
    requires
        session.wf(),
        session.millis_per_tick > 0,
        !session.finished(),
    ensures
        session.after_tick().ticks_left() < session.ticks_left(),
{
    let per_question = session.timelimit + PAUSE_AFTER_TIMEOUT + 3;
    let unanswered = session.questions.len() - session.answers_given.len();
    let next = session.after_tick();
    assert(unanswered >= 1);
    assert((unanswered - 1) * per_question == unanswered * per_question - per_question)
        by (nonlinear_arith);
    assert(unanswered * per_question >= per_question) by (nonlinear_arith)
        requires
            unanswered >= 1,
            per_question >= 0,
    ;
    if session.pause_time == 0 && !session.ready_for_next_question() && session.timed_out() {
        let fewer = unanswered - 1;
        assert(next.questions.len() - next.answers_given.len() == fewer);
        assert(fewer * per_question >= 0) by (nonlinear_arith)
            requires
                fewer >= 0,
                per_question >= 0,
        ;
    }
}

/// No session is stuck: ticked at a positive length, and whatever the user
/// does not do, its exam is over after no more ticks than
/// [`ExaminerView::ticks_left`] says.
pub proof fn lemma_every_session_ends(session: ExaminerView)
    requires
        session.wf(),
        session.millis_per_tick > 0,
    ensures
        exists|n: nat| n <= session.ticks_left() && #[trigger] session.after_ticks(n).finished(),
    decreases session.ticks_left(),
{
    if session.finished() {
        assert(session.after_ticks(0).finished());
    } else {
        let next = session.after_tick();
        lemma_tick_makes_progress(session);
        lemma_steps_preserve_wf(session, Seq::empty());
        lemma_every_session_ends(next);
        let n = choose|n: nat| n <= next.ticks_left() && #[trigger] next.after_ticks(n).finished();
        lemma_ticks_shift(session, n);
        assert(session.after_ticks(n + 1).finished());
    }
}

} // verus!
