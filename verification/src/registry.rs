//! The registry of running sessions.
//!
//! It holds every active session, keeps them apart by channel and by user
//! (at most one session in a channel, at most one for a user), routes
//! answers and quits to the session of a user, and advances all sessions by
//! one tick in a sweep.

use crate::answer::{Answer, AnswerView};
use crate::exam::{Exam, ExamView};
use crate::examiner::{lemma_made_wf, lemma_steps_preserve_wf, Examiner, ExaminerView};
use crate::question::{Question, QuestionView};
use crate::score::{graded_view, ExamScore, ExamScoreView, TickResult, TickResultView};
use crate::seqs::lemma_take_next;
use rand::Rng;
use vstd::prelude::*;

verus! {

/// The interval between two sweeps, in milliseconds.
pub const MILLIS_PER_TICK: usize = 100;

/// A running session: who takes which exam where.
#[derive(Debug)]
pub struct ActiveExam {
    pub user_id: u64,
    pub channel_id: u64,
    pub examiner: Examiner,
    pub exam: Exam,
    pub seed: u64,
}

/// The mathematical value of an [`ActiveExam`].
pub struct ActiveExamView {
    pub user_id: u64,
    pub channel_id: u64,
    pub examiner: ExaminerView,
    pub exam: ExamView,
    pub seed: u64,
}

impl View for ActiveExam {
    type V = ActiveExamView;

    open spec fn view(&self) -> ActiveExamView {
        ActiveExamView {
            user_id: self.user_id,
            channel_id: self.channel_id,
            examiner: self.examiner@,
            exam: self.exam@,
            seed: self.seed,
        }
    }
}

/// The values of a list of running sessions.
pub open spec fn active_views(sessions: Seq<ActiveExam>) -> Seq<ActiveExamView> {
    sessions.map_values(|a: ActiveExam| a@)
}

/// Why a session was not started.
#[derive(Debug, Clone, Copy, PartialEq, Eq, Structural)]
pub enum StartError {
    /// The channel or the user already has a running session.
    SessionBusy,
    /// The channel is not one in which exams are held.
    InvalidChannel,
}

/// What became of a request to stop a user's exam.
#[derive(Debug, Clone, Copy, PartialEq, Eq, Structural)]
pub enum StopOutcome {
    /// The user gave up on the open question; the next sweep ends the exam.
    Stopped,
    /// The user has a session, but no question is open: nothing was done.
    NoOpenQuestion,
    /// The user has no session: nothing was done.
    NoActiveSession,
}

/// Whether a session goes on after a tick.
#[derive(Debug, Clone, Copy, PartialEq, Eq, Structural)]
pub enum ExamContinue {
    Yes,
    No,
}

/// What is to be shown for a session after a tick.
#[derive(Debug)]
pub enum TickAction {
    /// Nothing that anybody would see.
    Nothing,
    /// Pose this question.
    PoseQuestion(Question),
    /// Say that this question timed out.
    ShowTimeout(Question),
    /// Show the final score. The level is the one that the exam awards when
    /// it is passed.
    EndExam { score: ExamScore, hsk_level: usize },
}

/// The mathematical value of a [`TickAction`].
pub enum TickActionView {
    Nothing,
    PoseQuestion(QuestionView),
    ShowTimeout(QuestionView),
    EndExam { score: ExamScoreView, hsk_level: nat },
}

impl View for TickAction {
    type V = TickActionView;

    open spec fn view(&self) -> TickActionView {
        match self {
            TickAction::Nothing => TickActionView::Nothing,
            TickAction::PoseQuestion(q) => TickActionView::PoseQuestion(q@),
            TickAction::ShowTimeout(q) => TickActionView::ShowTimeout(q@),
            TickAction::EndExam { score, hsk_level } => TickActionView::EndExam {
                score: score@,
                hsk_level: *hsk_level as nat,
            },
        }
    }
}

/// What a sweep reports of one session.
#[derive(Debug)]
pub struct SessionReport {
    pub user_id: u64,
    pub channel_id: u64,
    pub action: TickAction,
}

/// The mathematical value of a [`SessionReport`].
pub struct SessionReportView {
    pub user_id: u64,
    pub channel_id: u64,
    pub action: TickActionView,
}

impl View for SessionReport {
    type V = SessionReportView;

    open spec fn view(&self) -> SessionReportView {
        SessionReportView {
            user_id: self.user_id,
            channel_id: self.channel_id,
            action: self.action@,
        }
    }
}

/// The values of a list of reports.
pub open spec fn report_views(reports: Seq<SessionReport>) -> Seq<SessionReportView> {
    reports.map_values(|r: SessionReport| r@)
}

impl ActiveExamView {
    /// The session as it starts.
    pub open spec fn started(channel_id: u64, user_id: u64, exam: ExamView, seed: u64) -> Self {
        ActiveExamView {
            user_id,
            channel_id,
            examiner: ExaminerView::made(exam, MILLIS_PER_TICK as nat, seed, false),
            exam,
            seed,
        }
    }

    /// The session after one tick.
    pub open spec fn ticked(self) -> Self {
        ActiveExamView { examiner: self.examiner.after_tick(), ..self }
    }

    /// What is to be shown for the session's next tick: a new question is
    /// posed, a timeout is shown with the question that timed out, the end
    /// of the exam with the score; a pause or a running clock shows nothing.
    pub open spec fn tick_action(self) -> TickActionView {
        match self.examiner.tick_result() {
            TickResultView::Nothing => TickActionView::Nothing,
            TickResultView::Pause => TickActionView::Nothing,
            TickResultView::Timeout => TickActionView::ShowTimeout(
                self.examiner.current_question(),
            ),
            TickResultView::NextQuestion(q) => TickActionView::PoseQuestion(q),
            TickResultView::Finished(score) => TickActionView::EndExam {
                score,
                hsk_level: self.exam.hsk_level,
            },
        }
    }

    /// Whether the session goes on after its next tick: it does unless the
    /// tick finds the exam over.
    pub open spec fn continues(self) -> bool {
        !self.examiner.finished()
    }

    /// What a sweep reports of the session.
    pub open spec fn report(self) -> SessionReportView {
        SessionReportView {
            user_id: self.user_id,
            channel_id: self.channel_id,
            action: self.tick_action(),
        }
    }
}

/// The mathematical value of a [`State`].
pub struct StateView {
    pub allowed_channels: Seq<u64>,
    pub active_exams: Seq<ActiveExamView>,
}

impl StateView {
    /// What holds of every registry: each session is well formed and runs
    /// in an allowed channel, and no two sessions share a user or a channel.
    pub open spec fn wf(self) -> bool {
        &&& forall|i: int|
            0 <= i < self.active_exams.len() ==> (#[trigger] self.active_exams[i]).examiner.wf()
        &&& forall|i: int|
            0 <= i < self.active_exams.len() ==> self.allowed_channels.contains(
                (#[trigger] self.active_exams[i]).channel_id,
            )
        &&& forall|i: int, j: int|
            0 <= i < self.active_exams.len() && 0 <= j < self.active_exams.len() && i != j ==> (
            #[trigger] self.active_exams[i]).user_id != (#[trigger] self.active_exams[j]).user_id
        &&& forall|i: int, j: int|
            0 <= i < self.active_exams.len() && 0 <= j < self.active_exams.len() && i != j ==> (
            #[trigger] self.active_exams[i]).channel_id != (
            #[trigger] self.active_exams[j]).channel_id
    }

    /// Whether exams may be held in the channel.
    pub open spec fn is_channel_allowed(self, channel_id: u64) -> bool {
        self.allowed_channels.contains(channel_id)
    }

    /// Whether a session runs in the channel.
    pub open spec fn is_channel_busy(self, channel_id: u64) -> bool {
        exists|i: int|
            0 <= i < self.active_exams.len() && (#[trigger] self.active_exams[i]).channel_id
                == channel_id
    }

    /// Whether the user has a session.
    pub open spec fn is_user_busy(self, user_id: u64) -> bool {
        exists|i: int|
            0 <= i < self.active_exams.len() && (#[trigger] self.active_exams[i]).user_id
                == user_id
    }

    /// Where the session of a busy user stands.
    pub open spec fn position_of(self, user_id: u64) -> int {
        choose|i: int|
            0 <= i < self.active_exams.len() && (#[trigger] self.active_exams[i]).user_id
                == user_id
    }

    /// The session of a user, if there is one.
    pub open spec fn active_exam_for(self, user_id: u64) -> Option<ActiveExamView> {
        if self.is_user_busy(user_id) {
            Some(self.active_exams[self.position_of(user_id)])
        } else {
            None
        }
    }

    /// The session of a user in a channel, if the user has one and it runs
    /// there.
    pub open spec fn active_exam_in(self, channel_id: u64, user_id: u64) -> Option<ActiveExamView> {
        match self.active_exam_for(user_id) {
            Some(session) => if session.channel_id == channel_id {
                Some(session)
            } else {
                None
            },
            None => None,
        }
    }

    /// Whether a session may start: a busy channel or user refuses it, and
    /// so does a channel that is not allowed.
    pub open spec fn start_verdict(self, channel_id: u64, user_id: u64) -> Result<(), StartError> {
        if self.is_channel_busy(channel_id) || self.is_user_busy(user_id) {
            Err(StartError::SessionBusy)
        } else if !self.is_channel_allowed(channel_id) {
            Err(StartError::InvalidChannel)
        } else {
            Ok(())
        }
    }

    /// The registry after a request to start a session.
    pub open spec fn after_start(
        self,
        channel_id: u64,
        user_id: u64,
        exam: ExamView,
        seed: u64,
    ) -> Self {
        if self.start_verdict(channel_id, user_id) is Ok {
            StateView {
                active_exams: self.active_exams.push(
                    ActiveExamView::started(channel_id, user_id, exam, seed),
                ),
                ..self
            }
        } else {
            self
        }
    }

    /// The registry without the session of a user.
    pub open spec fn after_remove(self, user_id: u64) -> Self {
        StateView {
            active_exams: self.active_exams.filter(|a: ActiveExamView| a.user_id != user_id),
            ..self
        }
    }

    /// What becomes of a request to stop a user's exam.
    pub open spec fn stop_outcome(self, user_id: u64) -> StopOutcome {
        match self.active_exam_for(user_id) {
            None => StopOutcome::NoActiveSession,
            Some(session) => if session.examiner.ready_for_next_answer() {
                StopOutcome::Stopped
            } else {
                StopOutcome::NoOpenQuestion
            },
        }
    }

    /// The registry after a request to stop a user's exam.
    pub open spec fn after_stop(self, user_id: u64) -> Self {
        if self.stop_outcome(user_id) == StopOutcome::Stopped {
            let i = self.position_of(user_id);
            let session = self.active_exams[i];
            StateView {
                active_exams: self.active_exams.update(
                    i,
                    ActiveExamView { examiner: session.examiner.after_give_up(), ..session },
                ),
                ..self
            }
        } else {
            self
        }
    }

    /// What a user's text gives back: the graded question, or nothing where
    /// the user has no session or the session takes no answer.
    pub open spec fn answer_result(self, user_id: u64, text: Seq<char>) -> Option<
        (QuestionView, AnswerView),
    > {
        match self.active_exam_for(user_id) {
            None => None,
            Some(session) => session.examiner.answer_result(text),
        }
    }

    /// The registry after a user's text was handed to the user's session.
    pub open spec fn after_answer(self, user_id: u64, text: Seq<char>) -> Self {
        if self.is_user_busy(user_id) {
            let i = self.position_of(user_id);
            let session = self.active_exams[i];
            StateView {
                active_exams: self.active_exams.update(
                    i,
                    ActiveExamView { examiner: session.examiner.after_answer(text), ..session },
                ),
                ..self
            }
        } else {
            self
        }
    }

    /// The registry after a sweep: every session has ticked once, and those
    /// whose tick found the exam over are gone.
    pub open spec fn after_sweep(self) -> Self {
        StateView {
            active_exams: self.active_exams.filter(|a: ActiveExamView| a.continues()).map_values(
                |a: ActiveExamView| a.ticked(),
            ),
            ..self
        }
    }

    /// What a sweep reports: for each session, in order, what is to be
    /// shown, without the sessions for which nothing is.
    pub open spec fn sweep_reports(self) -> Seq<SessionReportView> {
        self.active_exams.map_values(|a: ActiveExamView| a.report()).filter(
            |r: SessionReportView| !(r.action is Nothing),
        )
    }
}

/// The registry of running sessions, with the channels in which exams may
/// be held.
#[derive(Debug)]
pub struct State {
    allowed_channels: Vec<u64>,
    active_exams: Vec<ActiveExam>,
}

impl View for State {
    type V = StateView;

    closed spec fn view(&self) -> StateView {
        StateView {
            allowed_channels: self.allowed_channels@,
            active_exams: active_views(self.active_exams@),
        }
    }
}

/// Draws a seed with `rand::thread_rng().gen::<u64>()`. Any number may come
/// back, so the contract promises nothing of it.
#[verifier::external_body]
fn fresh_seed() -> u64 {
    rand::thread_rng().gen::<u64>()
}

/// Advances one session by a tick and says what is to be shown for it and
/// whether it goes on.
pub fn tick_active_exam(active_exam: &mut ActiveExam) -> (r: (TickAction, ExamContinue))
    ensures
        final(active_exam)@ == old(active_exam)@.ticked(),
        r.0@ == old(active_exam)@.tick_action(),
        (r.1 == ExamContinue::Yes) == old(active_exam)@.continues(),
        old(active_exam)@.examiner.wf(),
        final(active_exam)@.examiner.wf(),
{
    match active_exam.examiner.tick() {
        TickResult::Nothing => (TickAction::Nothing, ExamContinue::Yes),
        TickResult::Pause => (TickAction::Nothing, ExamContinue::Yes),
        TickResult::Timeout => {
            let question = active_exam.examiner.current_question().clone();
            (TickAction::ShowTimeout(question), ExamContinue::Yes)
        },
        TickResult::NextQuestion(question) => (TickAction::PoseQuestion(question), ExamContinue::Yes),
        TickResult::Finished(score) => (
            TickAction::EndExam { score, hsk_level: active_exam.exam.hsk_level },
            ExamContinue::No,
        ),
    }
}

impl State {
    #[verifier::type_invariant]
    spec fn inv(&self) -> bool {
        self@.wf()
    }

    /// A registry without sessions, for exams in the given channels.
    pub fn new(allowed_channels: Vec<u64>) -> (r: State)
        ensures
            r@ == (StateView { allowed_channels: allowed_channels@, active_exams: Seq::empty() }),
            r@.wf(),
    {
        let active_exams: Vec<ActiveExam> = Vec::new();
        assert(active_views(active_exams@) =~= Seq::<ActiveExamView>::empty());
        State { allowed_channels, active_exams }
    }

    /// How many sessions are running.
    pub fn number_of_active_exams(&self) -> (r: usize)
        ensures
            r == self@.active_exams.len(),
    {
        self.active_exams.len()
    }

    /// Whether exams may be held in the channel.
    pub fn is_channel_allowed(&self, channel_id: u64) -> (r: bool)
        ensures
            r == self@.is_channel_allowed(channel_id),
    {
        let mut i: usize = 0;
        while i < self.allowed_channels.len()
            invariant
                i <= self.allowed_channels.len(),
                forall|j: int| 0 <= j < i ==> self.allowed_channels@[j] != channel_id,
            decreases self.allowed_channels.len() - i,
        {
            if self.allowed_channels[i] == channel_id {
                assert(self@.allowed_channels[i as int] == channel_id);
                return true;
            }
            i += 1;
        }
        false
    }

    /// Whether a session runs in the channel.
    pub fn is_channel_busy(&self, channel_id: u64) -> (r: bool)
        ensures
            r == self@.is_channel_busy(channel_id),
    {
        let mut i: usize = 0;
        while i < self.active_exams.len()
            invariant
                i <= self.active_exams.len(),
                forall|j: int| 0 <= j < i ==> (#[trigger] self@.active_exams[j]).channel_id != channel_id,
            decreases self.active_exams.len() - i,
        {
            if self.active_exams[i].channel_id == channel_id {
                assert(self@.active_exams[i as int].channel_id == channel_id);
                return true;
            }
            i += 1;
        }
        false
    }

    /// Whether the user has a session.
    pub fn is_user_busy(&self, user_id: u64) -> (r: bool)
        ensures
            r == self@.is_user_busy(user_id),
    {
        self.position_of_user(user_id).is_some()
    }

    /// Where the session of the user stands.
    fn position_of_user(&self, user_id: u64) -> (r: Option<usize>)
        ensures
            r is Some == self@.is_user_busy(user_id),
            r matches Some(i) ==> i < self@.active_exams.len() && i == self@.position_of(user_id),
            self@.wf(),
    {
        proof {
            use_type_invariant(self);
        }
        let mut i: usize = 0;
        while i < self.active_exams.len()
            invariant
                self@.wf(),
                i <= self.active_exams.len(),
                forall|j: int| 0 <= j < i ==> (#[trigger] self@.active_exams[j]).user_id != user_id,
            decreases self.active_exams.len() - i,
        {
            if self.active_exams[i].user_id == user_id {
                proof {
                    lemma_position_is_unique(self@, user_id, i as int);
                }
                return Some(i);
            }
            i += 1;
        }
        None
    }

    /// The session of a user, if there is one.
    pub fn active_exam_for(&self, user_id: u64) -> (r: Option<&ActiveExam>)
        ensures
            (match r {
                Some(a) => Some(a@),
                None => None,
            }) == self@.active_exam_for(user_id),
            r matches Some(a) ==> a@.user_id == user_id,
            self@.wf(),
    {
        proof {
            use_type_invariant(self);
        }
        match self.position_of_user(user_id) {
            Some(i) => {
                assert(self@.active_exams[i as int] == self.active_exams@[i as int]@);
                Some(&self.active_exams[i])
            },
            None => None,
        }
    }

    /// The session of a user in a channel, if the user has one and it runs
    /// there.
    pub fn active_exam_in(&self, channel_id: u64, user_id: u64) -> (r: Option<&ActiveExam>)
        ensures
            (match r {
                Some(a) => Some(a@),
                None => None,
            }) == self@.active_exam_in(channel_id, user_id),
    {
        proof {
            use_type_invariant(self);
        }
        match self.active_exam_for(user_id) {
            Some(active_exam) => if active_exam.channel_id == channel_id {
                Some(active_exam)
            } else {
                None
            },
            None => None,
        }
    }

    /// Takes all sessions out of the registry, which is left without any.
    fn take_active_exams(&mut self) -> (r: Vec<ActiveExam>)
        ensures
            r == old(self).active_exams,
            final(self).allowed_channels == old(self).allowed_channels,
            final(self).active_exams@.len() == 0,
    {
        let mut active_exams: Vec<ActiveExam> = Vec::new();
        core::mem::swap(&mut self.active_exams, &mut active_exams);
        active_exams
    }

    /// Takes the session of a user out of the registry.
    pub fn remove_active_exam(&mut self, user_id: u64)
        ensures
            final(self)@ == old(self)@.after_remove(user_id),
            final(self)@.wf(),
            !final(self)@.is_user_busy(user_id),
    {
        proof {
            use_type_invariant(&*self);
        }
        let mut old_exams: Vec<ActiveExam> = Vec::new();
        core::mem::swap(&mut self.active_exams, &mut old_exams);
        let ghost before = active_views(old_exams@);
        let ghost others = |a: ActiveExamView| a.user_id != user_id;
        let mut active_exams: Vec<ActiveExam> = Vec::new();
        assert(active_views(active_exams@) =~= before.take(0).filter(others));
        for active_exam in it: old_exams
            invariant
                before == active_views(it.seq()),
                others == (|a: ActiveExamView| a.user_id != user_id),
                active_views(active_exams@) == before.take(it.index()).filter(others),
        {
            proof {
                lemma_take_next(before, it.index());
                before.take(it.index()).lemma_filter_push(before[it.index()], others);
                assert(before[it.index()] == active_exam@);
            }
            if active_exam.user_id != user_id {
                let ghost kept = active_views(active_exams@);
                active_exams.push(active_exam);
                assert(active_views(active_exams@) =~= kept.push(before[it.index()]));
            }
        }
        proof {
            assert(before.take(before.len() as int) =~= before);
            lemma_remove_preserves_wf(old(self)@, user_id);
        }
        self.active_exams = active_exams;
    }

    /// Whether a session for the user may start in the channel, and why
    /// not.
    pub fn check_start(&self, channel_id: u64, user_id: u64) -> (r: Result<(), StartError>)
        ensures
            r == self@.start_verdict(channel_id, user_id),
    {
        if self.is_channel_busy(channel_id) || self.is_user_busy(user_id) {
            Err(StartError::SessionBusy)
        } else if !self.is_channel_allowed(channel_id) {
            Err(StartError::InvalidChannel)
        } else {
            Ok(())
        }
    }

    /// Starts a session for the user in the channel over `exam`, with the
    /// questions drawn by `seed`. It is refused, and nothing changes, where
    /// the channel or the user is busy or the channel is not allowed.
    pub fn exam_start(&mut self, channel_id: u64, user_id: u64, exam: Exam, seed: u64) -> (r: Result<
        (),
        StartError,
    >)
        ensures
            r == old(self)@.start_verdict(channel_id, user_id),
            final(self)@ == old(self)@.after_start(channel_id, user_id, exam@, seed),
            r is Ok ==> final(self)@.is_user_busy(user_id) && final(self)@.is_channel_busy(
                channel_id,
            ),
            final(self)@.wf(),
    {
        proof {
            use_type_invariant(&*self);
        }
        match self.check_start(channel_id, user_id) {
            Err(e) => Err(e),
            Ok(()) => {
                let examiner = Examiner::make(&exam, MILLIS_PER_TICK, seed);
                let active_exam = ActiveExam { user_id, channel_id, examiner, exam, seed };
                let ghost before = self@.active_exams;
                let mut active_exams = self.take_active_exams();
                active_exams.push(active_exam);
                proof {
                    assert(active_views(active_exams@) =~= before.push(
                        ActiveExamView::started(channel_id, user_id, exam@, seed),
                    ));
                    lemma_start_preserves_wf(old(self)@, channel_id, user_id, exam@, seed);
                }
                self.active_exams = active_exams;
                Ok(())
            },
        }
    }

    /// Starts a session as [`State::exam_start`] does, with a seed drawn at
    /// random, and returns the seed.
    pub fn exam_start_with_fresh_seed(&mut self, channel_id: u64, user_id: u64, exam: Exam) -> (r:
        Result<u64, StartError>)
        ensures
            match r {
                Ok(seed) => old(self)@.start_verdict(channel_id, user_id) is Ok && final(self)@
                    == old(self)@.after_start(channel_id, user_id, exam@, seed),
                Err(e) => old(self)@.start_verdict(channel_id, user_id) == Err::<(), StartError>(e)
                    && final(self)@ == old(self)@,
            },
            r is Ok ==> final(self)@.is_user_busy(user_id) && final(self)@.is_channel_busy(
                channel_id,
            ),
            final(self)@.wf(),
    {
        let seed = fresh_seed();
        match self.exam_start(channel_id, user_id, exam, seed) {
            Ok(()) => Ok(seed),
            Err(e) => Err(e),
        }
    }

    /// Stops the exam of a user: the user gives up on the open question, and
    /// the next sweep ends the exam. Where the user has no session, or no
    /// question is open, nothing is done.
    pub fn exam_stop(&mut self, user_id: u64) -> (r: StopOutcome)
        ensures
            r == old(self)@.stop_outcome(user_id),
            final(self)@ == old(self)@.after_stop(user_id),
            final(self)@.wf(),
    {
        proof {
            use_type_invariant(&*self);
        }
        match self.position_of_user(user_id) {
            None => StopOutcome::NoActiveSession,
            Some(i) => {
                let ghost before = self@.active_exams;
                assert(before[i as int] == self.active_exams@[i as int]@);
                if self.active_exams[i].examiner.ready_for_next_answer() {
                    let mut active_exams = self.take_active_exams();
                    active_exams[i].examiner.give_up();
                    proof {
                        assert(active_views(active_exams@) =~= before.update(
                            i as int,
                            ActiveExamView {
                                examiner: before[i as int].examiner.after_give_up(),
                                ..before[i as int]
                            },
                        ));
                        lemma_stop_and_answer_preserve_wf(old(self)@, user_id, Seq::empty());
                    }
                    self.active_exams = active_exams;
                    StopOutcome::Stopped
                } else {
                    StopOutcome::NoOpenQuestion
                }
            },
        }
    }

    /// Hands a user's text to the user's session. Where the user has none,
    /// or the session takes no answer now, nothing changes and nothing is
    /// returned.
    pub fn answer(&mut self, user_id: u64, text: &str) -> (r: Option<(Question, Answer)>)
        ensures
            graded_view(r) == old(self)@.answer_result(user_id, text@),
            final(self)@ == old(self)@.after_answer(user_id, text@),
            final(self)@.wf(),
    {
        proof {
            use_type_invariant(&*self);
        }
        match self.position_of_user(user_id) {
            None => None,
            Some(i) => {
                let ghost before = self@.active_exams;
                assert(before[i as int] == self.active_exams@[i as int]@);
                let mut active_exams = self.take_active_exams();
                let r = active_exams[i].examiner.answer(text);
                proof {
                    assert(active_views(active_exams@) =~= before.update(
                        i as int,
                        ActiveExamView {
                            examiner: before[i as int].examiner.after_answer(text@),
                            ..before[i as int]
                        },
                    ));
                    lemma_stop_and_answer_preserve_wf(old(self)@, user_id, text@);
                }
                self.active_exams = active_exams;
                r
            },
        }
    }

    /// One sweep: advances every session by a tick, in order, takes out the
    /// sessions whose exam is over, and returns what is to be shown.
    pub fn tick_all(&mut self) -> (reports: Vec<SessionReport>)
        ensures
            final(self)@ == old(self)@.after_sweep(),
            report_views(reports@) == old(self)@.sweep_reports(),
            final(self)@.wf(),
    {
        proof {
            use_type_invariant(&*self);
        }
        let mut old_exams: Vec<ActiveExam> = Vec::new();
        core::mem::swap(&mut self.active_exams, &mut old_exams);
        let ghost before = active_views(old_exams@);
        let ghost allowed = self.allowed_channels@;
        let ghost going = |a: ActiveExamView| a.continues();
        let ghost tick = |a: ActiveExamView| a.ticked();
        let ghost report = |a: ActiveExamView| a.report();
        let ghost shown = |r: SessionReportView| !(r.action is Nothing);
        let mut active_exams: Vec<ActiveExam> = Vec::new();
        let mut reports: Vec<SessionReport> = Vec::new();
        assert(active_views(active_exams@) =~= before.take(0).filter(going).map_values(tick));
        assert(report_views(reports@) =~= before.take(0).map_values(report).filter(shown));
        for active_exam in it: old_exams
            invariant
                before == active_views(it.seq()),
                going == (|a: ActiveExamView| a.continues()),
                tick == (|a: ActiveExamView| a.ticked()),
                report == (|a: ActiveExamView| a.report()),
                shown == (|r: SessionReportView| !(r.action is Nothing)),
                active_views(active_exams@) == before.take(it.index()).filter(going).map_values(
                    tick,
                ),
                report_views(reports@) == before.take(it.index()).map_values(report).filter(shown),
                (StateView { allowed_channels: allowed, active_exams: before }).wf(),
        {
            let ghost i = it.index();
            let ghost kept = active_views(active_exams@);
            let ghost told = report_views(reports@);
            proof {
                lemma_take_next(before, i);
                before.take(i).lemma_filter_push(before[i], going);
                assert(before.take(i).push(before[i]).map_values(report) =~= before.take(
                    i,
                ).map_values(report).push(before[i].report()));
                before.take(i).map_values(report).lemma_filter_push(before[i].report(), shown);
                assert(before[i] == active_exam@);
            }
            let mut active_exam = active_exam;
            let (action, goes_on) = tick_active_exam(&mut active_exam);
            match action {
                TickAction::Nothing => {},
                action => {
                    reports.push(
                        SessionReport {
                            user_id: active_exam.user_id,
                            channel_id: active_exam.channel_id,
                            action,
                        },
                    );
                    assert(report_views(reports@) =~= told.push(before[i].report()));
                },
            }
            match goes_on {
                ExamContinue::Yes => {
                    active_exams.push(active_exam);
                    assert(active_views(active_exams@) =~= kept.push(before[i].ticked()));
                    assert(before.take(i).filter(going).push(before[i]).map_values(tick)
                        =~= kept.push(before[i].ticked()));
                },
                ExamContinue::No => {},
            }
        }
        proof {
            assert(before.take(before.len() as int) =~= before);
            lemma_sweep_preserves_wf(old(self)@);
        }
        self.active_exams = active_exams;
        reports
    }
}

/// `kept` is what is left of the first `n` sessions of `before` when some
/// are taken out and the others stay in their order, each as it was or
/// after one tick.
spec fn kept_from(kept: Seq<ActiveExamView>, before: Seq<ActiveExamView>, n: int) -> bool {
    exists|from: Seq<int>| #[trigger] kept_by(kept, before, n, from)
}

/// `from` says for each session of `kept` where it stood in `before`.
spec fn kept_by(
    kept: Seq<ActiveExamView>,
    before: Seq<ActiveExamView>,
    n: int,
    from: Seq<int>,
) -> bool {
    &&& from.len() == kept.len()
    &&& forall|k: int| 0 <= k < kept.len() ==> 0 <= #[trigger] from[k] < n
    &&& forall|k: int, l: int| 0 <= k < l < kept.len() ==> from[k] < from[l]
    &&& forall|k: int|
        0 <= k < kept.len() ==> (#[trigger] kept[k]) == before[from[k]] || kept[k]
            == before[from[k]].ticked()
}

proof fn lemma_kept_none(kept: Seq<ActiveExamView>, before: Seq<ActiveExamView>)
    requires
        kept.len() == 0,
    ensures
        kept_from(kept, before, 0),
{
    assert(kept_by(kept, before, 0, Seq::<int>::empty()));
}

proof fn lemma_kept_push(
    kept: Seq<ActiveExamView>,
    before: Seq<ActiveExamView>,
    n: int,
    next: ActiveExamView,
)
    requires
        kept_from(kept, before, n),
        0 <= n < before.len(),
        next == before[n] || next == before[n].ticked(),
    ensures
        kept_from(kept.push(next), before, n + 1),
{
    let from = choose|from: Seq<int>| #[trigger] kept_by(kept, before, n, from);
    let longer = from.push(n);
    let more = kept.push(next);
    assert forall|k: int| 0 <= k < more.len() implies 0 <= #[trigger] longer[k] < n + 1 by {
        if k < kept.len() {
            assert(longer[k] == from[k]);
        }
    }
    assert forall|k: int, l: int| 0 <= k < l < more.len() implies longer[k] < longer[l] by {
        assert(longer[k] == from[k]);
        if l < kept.len() {
            assert(longer[l] == from[l]);
        }
    }
    assert forall|k: int| 0 <= k < more.len() implies (#[trigger] more[k]) == before[longer[k]]
        || more[k] == before[longer[k]].ticked() by {
        if k < kept.len() {
            assert(more[k] == kept[k]);
            assert(longer[k] == from[k]);
        }
    }
    assert(kept_by(more, before, n + 1, longer));
}

proof fn lemma_kept_skip(kept: Seq<ActiveExamView>, before: Seq<ActiveExamView>, n: int)
    requires
        kept_from(kept, before, n),
    ensures
        kept_from(kept, before, n + 1),
{
    let from = choose|from: Seq<int>| #[trigger] kept_by(kept, before, n, from);
    assert forall|k: int| 0 <= k < kept.len() implies 0 <= #[trigger] from[k] < n + 1 by {
        assert(0 <= from[k] < n);
    }
    assert(kept_by(kept, before, n + 1, from));
}

proof fn lemma_kept_is_wf(kept: Seq<ActiveExamView>, before: Seq<ActiveExamView>, allowed: Seq<u64>)
    requires
        kept_from(kept, before, before.len() as int),
        (StateView { allowed_channels: allowed, active_exams: before }).wf(),
    ensures
        (StateView { allowed_channels: allowed, active_exams: kept }).wf(),
{
    let n = before.len() as int;
    let from = choose|from: Seq<int>| #[trigger] kept_by(kept, before, n, from);
    assert forall|i: int| 0 <= i < kept.len() implies (#[trigger] kept[i]).examiner.wf()
        && allowed.contains(kept[i].channel_id) by {
        assert(0 <= from[i] < n);
        let was = before[from[i]];
        assert(allowed.contains(was.channel_id));
        lemma_steps_preserve_wf(was.examiner, Seq::empty());
    }
    assert forall|i: int, j: int| 0 <= i < kept.len() && 0 <= j < kept.len() && i != j implies (
    #[trigger] kept[i]).user_id != (#[trigger] kept[j]).user_id && kept[i].channel_id
        != kept[j].channel_id by {
        assert(0 <= from[i] < n);
        assert(0 <= from[j] < n);
        if i < j {
            assert(from[i] < from[j]);
        } else {
            assert(from[j] < from[i]);
        }
        assert(before[from[i]].user_id != before[from[j]].user_id);
        assert(before[from[i]].channel_id != before[from[j]].channel_id);
    }
}

proof fn lemma_removed_is_kept(before: Seq<ActiveExamView>, user_id: u64, n: int)
    requires
        0 <= n <= before.len(),
    ensures
        kept_from(before.take(n).filter(|a: ActiveExamView| a.user_id != user_id), before, n),
    decreases n,
{
    let others = |a: ActiveExamView| a.user_id != user_id;
    if n == 0 {
        lemma_kept_none(before.take(0).filter(others), before);
    } else {
        lemma_removed_is_kept(before, user_id, n - 1);
        lemma_take_next(before, n - 1);
        before.take(n - 1).lemma_filter_push(before[n - 1], others);
        if others(before[n - 1]) {
            lemma_kept_push(before.take(n - 1).filter(others), before, n - 1, before[n - 1]);
        } else {
            lemma_kept_skip(before.take(n - 1).filter(others), before, n - 1);
        }
    }
}

proof fn lemma_swept_is_kept(before: Seq<ActiveExamView>, n: int)
    requires
        0 <= n <= before.len(),
    ensures
        kept_from(
            before.take(n).filter(|a: ActiveExamView| a.continues()).map_values(
                |a: ActiveExamView| a.ticked(),
            ),
            before,
            n,
        ),
    decreases n,
{
    let going = |a: ActiveExamView| a.continues();
    let tick = |a: ActiveExamView| a.ticked();
    if n == 0 {
        lemma_kept_none(before.take(0).filter(going).map_values(tick), before);
    } else {
        lemma_swept_is_kept(before, n - 1);
        lemma_take_next(before, n - 1);
        before.take(n - 1).lemma_filter_push(before[n - 1], going);
        let kept = before.take(n - 1).filter(going).map_values(tick);
        if going(before[n - 1]) {
            assert(before.take(n - 1).filter(going).push(before[n - 1]).map_values(tick)
                =~= kept.push(before[n - 1].ticked()));
            lemma_kept_push(kept, before, n - 1, before[n - 1].ticked());
        } else {
            lemma_kept_skip(kept, before, n - 1);
        }
    }
}

/// Taking a user's session out leaves a well-formed registry in which the
/// user is free.
pub proof fn lemma_remove_preserves_wf(state: StateView, user_id: u64)
    requires
        state.wf(),
    ensures
        state.after_remove(user_id).wf(),
        !state.after_remove(user_id).is_user_busy(user_id),
{
    let before = state.active_exams;
    let others = |a: ActiveExamView| a.user_id != user_id;
    lemma_removed_is_kept(before, user_id, before.len() as int);
    assert(before.take(before.len() as int) =~= before);
    lemma_kept_is_wf(before.filter(others), before, state.allowed_channels);
    let after = state.after_remove(user_id).active_exams;
    assert forall|i: int| 0 <= i < after.len() implies (#[trigger] after[i]).user_id
        != user_id by {
        before.lemma_filter_pred(others, i);
    }
}

/// A sweep leaves a well-formed registry.
pub proof fn lemma_sweep_preserves_wf(state: StateView)
    requires
        state.wf(),
    ensures
        state.after_sweep().wf(),
{
    let before = state.active_exams;
    lemma_swept_is_kept(before, before.len() as int);
    assert(before.take(before.len() as int) =~= before);
    lemma_kept_is_wf(state.after_sweep().active_exams, before, state.allowed_channels);
}

/// What is found for a user among the sessions that a condition keeps is
/// the user's session if the condition keeps it, and nothing else.
proof fn lemma_lookup_in_kept(
    state: StateView,
    keep: spec_fn(ActiveExamView) -> bool,
    user_id: u64,
)
    requires
        state.wf(),
    ensures
        ({
            let kept = state.active_exams.filter(keep);
            match state.active_exam_for(user_id) {
                Some(session) => if keep(session) {
                    kept.contains(session) && forall|k: int|
                        0 <= k < kept.len() && (#[trigger] kept[k]).user_id == user_id ==> kept[k]
                            == session
                } else {
                    forall|k: int| 0 <= k < kept.len() ==> (#[trigger] kept[k]).user_id != user_id
                },
                None => forall|k: int|
                    0 <= k < kept.len() ==> (#[trigger] kept[k]).user_id != user_id,
            }
        }),
{
    let before = state.active_exams;
    let kept = before.filter(keep);
    assert forall|k: int| 0 <= k < kept.len() implies before.contains(#[trigger] kept[k]) && keep(
        kept[k],
    ) by {
        before.lemma_filter_pred(keep, k);
        assert(kept.contains(kept[k]));
        before.lemma_filter_contains_rev(keep, kept[k]);
    }
    if state.is_user_busy(user_id) {
        let i = state.position_of(user_id);
        let session = before[i];
        if keep(session) {
            before.lemma_filter_contains(keep, i);
        }
        assert forall|k: int|
            0 <= k < kept.len() && (#[trigger] kept[k]).user_id == user_id implies kept[k]
            == session by {
            let j = choose|j: int| 0 <= j < before.len() && before[j] == kept[k];
            assert(before[j].user_id == before[i].user_id);
        }
    } else {
        assert forall|k: int| 0 <= k < kept.len() implies (#[trigger] kept[k]).user_id
            != user_id by {
            let j = choose|j: int| 0 <= j < before.len() && before[j] == kept[k];
            assert(before[j].user_id != user_id);
        }
    }
}

/// After a sweep a user has a session exactly if the user had one whose
/// exam was not over; it is that session one tick on.
pub proof fn lemma_sweep_keeps_the_unfinished(state: StateView, user_id: u64)
    requires
        state.wf(),
    ensures
        state.after_sweep().active_exam_for(user_id) == match state.active_exam_for(user_id) {
            Some(session) => if session.continues() {
                Some(session.ticked())
            } else {
                None
            },
            None => None,
        },
{
    let going = |a: ActiveExamView| a.continues();
    let tick = |a: ActiveExamView| a.ticked();
    let kept = state.active_exams.filter(going);
    let after = state.after_sweep();
    lemma_lookup_in_kept(state, going, user_id);
    lemma_sweep_preserves_wf(state);
    assert(after.active_exams == kept.map_values(tick));
    let found = match state.active_exam_for(user_id) {
        Some(session) => going(session),
        None => false,
    };
    if found {
        let session = state.active_exam_for(user_id)->0;
        let k = choose|k: int| 0 <= k < kept.len() && kept[k] == session;
        assert(after.active_exams[k] == session.ticked());
        lemma_position_is_unique(after, user_id, k);
    } else {
        assert forall|k: int| 0 <= k < after.active_exams.len() implies (
        #[trigger] after.active_exams[k]).user_id != user_id by {
            assert(after.active_exams[k] == kept[k].ticked());
        }
    }
}

/// After a user's session was taken out, the user has none, and every
/// other user has the session that the user had before.
pub proof fn lemma_remove_keeps_the_others(state: StateView, user_id: u64, other: u64)
    requires
        state.wf(),
    ensures
        state.after_remove(user_id).active_exam_for(other) == if other == user_id {
            None
        } else {
            state.active_exam_for(other)
        },
{
    let others = |a: ActiveExamView| a.user_id != user_id;
    let kept = state.active_exams.filter(others);
    let after = state.after_remove(user_id);
    lemma_lookup_in_kept(state, others, other);
    lemma_remove_preserves_wf(state, user_id);
    if other != user_id && state.is_user_busy(other) {
        let session = state.active_exam_for(other)->0;
        let k = choose|k: int| 0 <= k < kept.len() && kept[k] == session;
        lemma_position_is_unique(after, other, k);
    }
}

/// A request to start a session leaves a well-formed registry, whether it
/// is granted or refused. Once granted, the user and the channel are busy.
pub proof fn lemma_start_preserves_wf(
    state: StateView,
    channel_id: u64,
    user_id: u64,
    exam: ExamView,
    seed: u64,
)
    requires
        state.wf(),
    ensures
        state.after_start(channel_id, user_id, exam, seed).wf(),
        state.start_verdict(channel_id, user_id) is Ok ==> {
            let after = state.after_start(channel_id, user_id, exam, seed);
            after.is_user_busy(user_id) && after.is_channel_busy(channel_id)
        },
{
    if state.start_verdict(channel_id, user_id) is Ok {
        let started = ActiveExamView::started(channel_id, user_id, exam, seed);
        let after = state.after_start(channel_id, user_id, exam, seed);
        let last = state.active_exams.len() as int;
        lemma_made_wf(exam, MILLIS_PER_TICK as nat, seed, false);
        assert(after.active_exams[last] == started);
        assert forall|i: int, j: int|
            0 <= i < after.active_exams.len() && 0 <= j < after.active_exams.len() && i
                != j implies (#[trigger] after.active_exams[i]).user_id != (
        #[trigger] after.active_exams[j]).user_id && after.active_exams[i].channel_id
            != after.active_exams[j].channel_id by {
            if i < last {
                assert(after.active_exams[i] == state.active_exams[i]);
            }
            if j < last {
                assert(after.active_exams[j] == state.active_exams[j]);
            }
        }
        assert forall|i: int| 0 <= i < after.active_exams.len() implies (
        #[trigger] after.active_exams[i]).examiner.wf() && after.allowed_channels.contains(
            after.active_exams[i].channel_id,
        ) by {
            if i < last {
                assert(after.active_exams[i] == state.active_exams[i]);
            }
        }
    }
}

/// In a well-formed registry the session found for a busy user is the only
/// one of that user.
pub proof fn lemma_position_is_unique(state: StateView, user_id: u64, i: int)
    requires
        state.wf(),
        0 <= i < state.active_exams.len(),
        state.active_exams[i].user_id == user_id,
    ensures
        state.is_user_busy(user_id),
        state.position_of(user_id) == i,
{
}

/// A request to stop an exam and a text handed in leave a well-formed
/// registry, and neither changes who is busy.
pub proof fn lemma_stop_and_answer_preserve_wf(state: StateView, user_id: u64, text: Seq<char>)
    requires
        state.wf(),
    ensures
        state.after_stop(user_id).wf(),
        state.after_answer(user_id, text).wf(),
        forall|u: u64| state.after_stop(user_id).is_user_busy(u) == state.is_user_busy(u),
        forall|u: u64| state.after_answer(user_id, text).is_user_busy(u) == state.is_user_busy(u),
        forall|c: u64| state.after_stop(user_id).is_channel_busy(c) == state.is_channel_busy(c),
        forall|c: u64|
            state.after_answer(user_id, text).is_channel_busy(c) == state.is_channel_busy(c),
{
    let stopped = state.after_stop(user_id);
    let answered = state.after_answer(user_id, text);
    if state.is_user_busy(user_id) {
        let i = state.position_of(user_id);
        lemma_steps_preserve_wf(state.active_exams[i].examiner, text);
    }
    lemma_same_ids_same_busy(state, stopped);
    lemma_same_ids_same_busy(state, answered);
    lemma_same_ids_wf(state, stopped);
    lemma_same_ids_wf(state, answered);
}

/// A session that was started is the one found for its user, and every
/// other user has the session that the user had before.
pub proof fn lemma_start_registers_the_session(
    state: StateView,
    channel_id: u64,
    user_id: u64,
    exam: ExamView,
    seed: u64,
    other: u64,
)
    requires
        state.wf(),
        state.start_verdict(channel_id, user_id) is Ok,
    ensures
        state.after_start(channel_id, user_id, exam, seed).active_exam_for(other) == if other
            == user_id {
            Some(ActiveExamView::started(channel_id, user_id, exam, seed))
        } else {
            state.active_exam_for(other)
        },
{
    let after = state.after_start(channel_id, user_id, exam, seed);
    let last = state.active_exams.len() as int;
    lemma_start_preserves_wf(state, channel_id, user_id, exam, seed);
    if other == user_id {
        lemma_position_is_unique(after, user_id, last);
    } else if state.is_user_busy(other) {
        let i = state.position_of(other);
        assert(after.active_exams[i] == state.active_exams[i]);
        lemma_position_is_unique(after, other, i);
    } else {
        assert forall|k: int| 0 <= k < after.active_exams.len() implies (
        #[trigger] after.active_exams[k]).user_id != other by {
            if k < last {
                assert(after.active_exams[k] == state.active_exams[k]);
            }
        }
    }
}

/// A text handed in and a request to stop reach the session of their user
/// and no other: every other session stays as it is.
pub proof fn lemma_sessions_are_isolated(
    state: StateView,
    user_id: u64,
    text: Seq<char>,
    other: u64,
)
    requires
        state.wf(),
    ensures
        state.after_answer(user_id, text).active_exam_for(other) == match state.active_exam_for(
            other,
        ) {
            Some(session) => if other == user_id {
                Some(ActiveExamView { examiner: session.examiner.after_answer(text), ..session })
            } else {
                Some(session)
            },
            None => None,
        },
        state.after_stop(user_id).active_exam_for(other) == match state.active_exam_for(other) {
            Some(session) => if other == user_id && session.examiner.ready_for_next_answer() {
                Some(ActiveExamView { examiner: session.examiner.after_give_up(), ..session })
            } else {
                Some(session)
            },
            None => None,
        },
{
    let answered = state.after_answer(user_id, text);
    let stopped = state.after_stop(user_id);
    lemma_stop_and_answer_preserve_wf(state, user_id, text);
    if state.is_user_busy(other) {
        let i = state.position_of(other);
        lemma_position_is_unique(answered, other, i);
        lemma_position_is_unique(stopped, other, i);
    }
}

/// Whether two registries hold sessions of the same users in the same
/// channels, place by place.
spec fn same_ids(a: StateView, b: StateView) -> bool {
    &&& a.allowed_channels == b.allowed_channels
    &&& a.active_exams.len() == b.active_exams.len()
    &&& forall|i: int|
        0 <= i < a.active_exams.len() ==> (#[trigger] a.active_exams[i]).user_id
            == b.active_exams[i].user_id && a.active_exams[i].channel_id
            == b.active_exams[i].channel_id
}

proof fn lemma_same_ids_same_busy(a: StateView, b: StateView)
    requires
        same_ids(a, b),
    ensures
        forall|u: u64| a.is_user_busy(u) == b.is_user_busy(u),
        forall|c: u64| a.is_channel_busy(c) == b.is_channel_busy(c),
{
    assert forall|u: u64| a.is_user_busy(u) == b.is_user_busy(u) by {
        if a.is_user_busy(u) {
            let i = choose|i: int|
                0 <= i < a.active_exams.len() && (#[trigger] a.active_exams[i]).user_id == u;
            assert(b.active_exams[i].user_id == u);
        }
        if b.is_user_busy(u) {
            let i = choose|i: int|
                0 <= i < b.active_exams.len() && (#[trigger] b.active_exams[i]).user_id == u;
            assert(a.active_exams[i].user_id == u);
        }
    }
    assert forall|c: u64| a.is_channel_busy(c) == b.is_channel_busy(c) by {
        if a.is_channel_busy(c) {
            let i = choose|i: int|
                0 <= i < a.active_exams.len() && (#[trigger] a.active_exams[i]).channel_id == c;
            assert(b.active_exams[i].channel_id == c);
        }
        if b.is_channel_busy(c) {
            let i = choose|i: int|
                0 <= i < b.active_exams.len() && (#[trigger] b.active_exams[i]).channel_id == c;
            assert(a.active_exams[i].channel_id == c);
        }
    }
}

proof fn lemma_same_ids_wf(a: StateView, b: StateView)
    requires
        a.wf(),
        same_ids(a, b),
        forall|i: int| 0 <= i < b.active_exams.len() ==> (#[trigger] b.active_exams[i]).examiner.wf(),
    ensures
        b.wf(),
{
    assert forall|i: int| 0 <= i < b.active_exams.len() implies b.allowed_channels.contains(
        (#[trigger] b.active_exams[i]).channel_id,
    ) by {
        assert(a.active_exams[i].channel_id == b.active_exams[i].channel_id);
    }
    assert forall|i: int, j: int|
        0 <= i < b.active_exams.len() && 0 <= j < b.active_exams.len() && i != j implies (
    #[trigger] b.active_exams[i]).user_id != (#[trigger] b.active_exams[j]).user_id
        && b.active_exams[i].channel_id != b.active_exams[j].channel_id by {
        assert(a.active_exams[i].user_id == b.active_exams[i].user_id);
        assert(a.active_exams[j].user_id == b.active_exams[j].user_id);
        assert(a.active_exams[i].channel_id == b.active_exams[i].channel_id);
        assert(a.active_exams[j].channel_id == b.active_exams[j].channel_id);
    }
}

/// One request to the registry.
pub enum Request {
    Start { channel_id: u64, user_id: u64, exam: ExamView, seed: u64 },
    Stop { user_id: u64 },
    Answer { user_id: u64, text: Seq<char> },
    Remove { user_id: u64 },
    Sweep,
}

impl StateView {
    /// The registry after one request.
    pub open spec fn after(self, request: Request) -> Self {
        match request {
            Request::Start { channel_id, user_id, exam, seed } => self.after_start(
                channel_id,
                user_id,
                exam,
                seed,
            ),
            Request::Stop { user_id } => self.after_stop(user_id),
            Request::Answer { user_id, text } => self.after_answer(user_id, text),
            Request::Remove { user_id } => self.after_remove(user_id),
            Request::Sweep => self.after_sweep(),
        }
    }

    /// The registry after a series of requests, in their order.
    pub open spec fn after_all(self, requests: Seq<Request>) -> Self
        decreases requests.len(),
    {
        if requests.len() == 0 {
            self
        } else {
            self.after_all(requests.drop_last()).after(requests.last())
        }
    }
}

/// Whatever is asked of a registry, and in whatever order, no two of its
/// sessions ever share a user or a channel, and every session is well
/// formed and runs in an allowed channel.
pub proof fn lemma_registry_stays_wf(state: StateView, requests: Seq<Request>)
    requires
        state.wf(),
    ensures
        state.after_all(requests).wf(),
    decreases requests.len(),
{
    if requests.len() > 0 {
        lemma_registry_stays_wf(state, requests.drop_last());
        let so_far = state.after_all(requests.drop_last());
        match requests.last() {
            Request::Start { channel_id, user_id, exam, seed } => {
                lemma_start_preserves_wf(so_far, channel_id, user_id, exam, seed);
            },
            Request::Stop { user_id } => {
                lemma_stop_and_answer_preserve_wf(so_far, user_id, Seq::empty());
            },
            Request::Answer { user_id, text } => {
                lemma_stop_and_answer_preserve_wf(so_far, user_id, text);
            },
            Request::Remove { user_id } => {
                lemma_remove_preserves_wf(so_far, user_id);
            },
            Request::Sweep => {
                lemma_sweep_preserves_wf(so_far);
            },
        }
    }
}

/// After any series of requests, a request to start a session in a busy
/// channel or for a busy user is refused as busy and changes nothing.
pub proof fn lemma_busy_start_is_refused(
    state: StateView,
    requests: Seq<Request>,
    channel_id: u64,
    user_id: u64,
    exam: ExamView,
    seed: u64,
)
    requires
        state.wf(),
    ensures
        ({
            let now = state.after_all(requests);
            now.is_channel_busy(channel_id) || now.is_user_busy(user_id) ==> now.start_verdict(
                channel_id,
                user_id,
            ) == Err::<(), StartError>(StartError::SessionBusy) && now.after_start(
                channel_id,
                user_id,
                exam,
                seed,
            ) == now
        }),
{
}

/// Once a session was started, a second one for the same user or in the
/// same channel is refused as busy for as long as the session is neither
/// taken out nor swept away: stopping it and answering in it do not free
/// the user or the channel.
pub proof fn lemma_second_start_is_refused(
    state: StateView,
    channel_id: u64,
    user_id: u64,
    exam: ExamView,
    seed: u64,
    other_channel: u64,
    other_user: u64,
    text: Seq<char>,
)
    requires
        state.wf(),
        state.start_verdict(channel_id, user_id) is Ok,
    ensures
        ({
            let started = state.after_start(channel_id, user_id, exam, seed);
            let busy = Err::<(), StartError>(StartError::SessionBusy);
            &&& started.start_verdict(channel_id, other_user) == busy
            &&& started.start_verdict(other_channel, user_id) == busy
            &&& started.after_stop(user_id).start_verdict(channel_id, other_user) == busy
            &&& started.after_stop(user_id).start_verdict(other_channel, user_id) == busy
            &&& started.after_answer(user_id, text).start_verdict(channel_id, other_user) == busy
            &&& started.after_answer(user_id, text).start_verdict(other_channel, user_id) == busy
        }),
{
    let started = state.after_start(channel_id, user_id, exam, seed);
    lemma_start_preserves_wf(state, channel_id, user_id, exam, seed);
    lemma_stop_and_answer_preserve_wf(started, user_id, text);
}

} // verus!
