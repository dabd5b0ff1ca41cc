use chairmanmao::answer::Answer;
use chairmanmao::exam::Exam;
use chairmanmao::question::Question;
use chairmanmao::registry::{
    tick_active_exam, ActiveExam, ExamContinue, StartError, State, StopOutcome, TickAction,
    MILLIS_PER_TICK,
};
use chairmanmao::examiner::Examiner;

const HALL: u64 = 100;
const ANNEX: u64 = 200;
const STREET: u64 = 999;
const ANNA: u64 = 1;
const BORIS: u64 = 2;
const CLARA: u64 = 3;

fn exam_of(cards: &[(&str, &str)], timelimit: usize) -> Exam {
    Exam {
        name: "hsk1".to_string(),
        deck: cards
            .iter()
            .map(|(q, a)| Question {
                question: q.to_string(),
                valid_answers: vec![a.to_string()],
                meaning: "".to_string(),
            })
            .collect(),
        num_questions: cards.len(),
        max_wrong: Some(1),
        timelimit,
        hsk_level: 4,
    }
}

fn small_exam() -> Exam {
    exam_of(&[("一", "yi1"), ("二", "er4")], 5000)
}

fn registry() -> State {
    State::new(vec![HALL, ANNEX])
}

#[test]
fn tick_interval_is_a_tenth_of_a_second() {
    assert_eq!(MILLIS_PER_TICK, 100);
}

#[test]
fn new_registry_is_empty() {
    let state = registry();
    assert_eq!(state.number_of_active_exams(), 0);
    assert!(!state.is_channel_busy(HALL));
    assert!(!state.is_user_busy(ANNA));
    assert!(state.is_channel_allowed(HALL));
    assert!(state.is_channel_allowed(ANNEX));
    assert!(!state.is_channel_allowed(STREET));
    assert!(state.active_exam_for(ANNA).is_none());
}

#[test]
fn started_session_makes_user_and_channel_busy() {
    let mut state = registry();
    assert_eq!(state.check_start(HALL, ANNA), Ok(()));
    assert_eq!(state.exam_start(HALL, ANNA, small_exam(), 5), Ok(()));
    assert_eq!(state.number_of_active_exams(), 1);
    assert!(state.is_channel_busy(HALL));
    assert!(state.is_user_busy(ANNA));
    assert!(!state.is_channel_busy(ANNEX));
    assert!(!state.is_user_busy(BORIS));
    let session = state.active_exam_for(ANNA).unwrap();
    assert_eq!(session.user_id, ANNA);
    assert_eq!(session.channel_id, HALL);
    assert_eq!(session.seed, 5);
    assert_eq!(session.exam.name, "hsk1");
}

#[test]
fn second_session_for_a_busy_user_is_refused() {
    let mut state = registry();
    assert_eq!(state.exam_start(HALL, ANNA, small_exam(), 5), Ok(()));
    assert_eq!(state.check_start(ANNEX, ANNA), Err(StartError::SessionBusy));
    assert_eq!(state.exam_start(ANNEX, ANNA, small_exam(), 6), Err(StartError::SessionBusy));
    assert_eq!(state.number_of_active_exams(), 1);
    assert!(!state.is_channel_busy(ANNEX));
}

#[test]
fn second_session_in_a_busy_channel_is_refused() {
    let mut state = registry();
    assert_eq!(state.exam_start(HALL, ANNA, small_exam(), 5), Ok(()));
    assert_eq!(state.exam_start(HALL, BORIS, small_exam(), 6), Err(StartError::SessionBusy));
    assert_eq!(state.number_of_active_exams(), 1);
    assert!(!state.is_user_busy(BORIS));
    assert_eq!(state.exam_start(ANNEX, BORIS, small_exam(), 6), Ok(()));
    assert_eq!(state.number_of_active_exams(), 2);
}

#[test]
fn session_outside_the_allowed_channels_is_refused() {
    let mut state = registry();
    assert_eq!(state.exam_start(STREET, ANNA, small_exam(), 5), Err(StartError::InvalidChannel));
    assert_eq!(state.number_of_active_exams(), 0);
    assert!(!state.is_user_busy(ANNA));
}

#[test]
fn busy_user_in_a_channel_that_is_not_allowed_is_refused_as_busy() {
    let mut state = registry();
    assert_eq!(state.exam_start(HALL, ANNA, small_exam(), 5), Ok(()));
    assert_eq!(state.exam_start(STREET, ANNA, small_exam(), 5), Err(StartError::SessionBusy));
}

#[test]
fn busy_in_every_order_of_starts_and_stops() {
    let mut state = registry();
    assert_eq!(state.exam_start(HALL, ANNA, small_exam(), 1), Ok(()));
    assert_eq!(state.exam_start(ANNEX, BORIS, small_exam(), 2), Ok(()));
    assert_eq!(state.exam_start(HALL, CLARA, small_exam(), 3), Err(StartError::SessionBusy));

    // A stop does not free the user or the channel: the session stays until
    // a sweep finds the exam over.
    state.tick_all();
    assert_eq!(state.exam_stop(ANNA), StopOutcome::Stopped);
    assert_eq!(state.exam_start(HALL, CLARA, small_exam(), 3), Err(StartError::SessionBusy));
    assert_eq!(state.exam_start(ANNEX, ANNA, small_exam(), 3), Err(StartError::SessionBusy));

    state.tick_all();
    assert!(!state.is_user_busy(ANNA));
    assert_eq!(state.exam_start(ANNEX, ANNA, small_exam(), 3), Err(StartError::SessionBusy));
    assert_eq!(state.exam_start(HALL, CLARA, small_exam(), 3), Ok(()));
    assert_eq!(state.exam_start(HALL, ANNA, small_exam(), 3), Err(StartError::SessionBusy));

    state.remove_active_exam(BORIS);
    assert_eq!(state.exam_start(ANNEX, ANNA, small_exam(), 4), Ok(()));
    assert_eq!(state.exam_start(ANNEX, BORIS, small_exam(), 4), Err(StartError::SessionBusy));
    assert_eq!(state.number_of_active_exams(), 2);
}

#[test]
fn removing_a_session_frees_user_and_channel() {
    let mut state = registry();
    assert_eq!(state.exam_start(HALL, ANNA, small_exam(), 5), Ok(()));
    assert_eq!(state.exam_start(ANNEX, BORIS, small_exam(), 5), Ok(()));
    state.remove_active_exam(ANNA);
    assert_eq!(state.number_of_active_exams(), 1);
    assert!(!state.is_user_busy(ANNA));
    assert!(!state.is_channel_busy(HALL));
    assert!(state.is_user_busy(BORIS));
    state.remove_active_exam(CLARA);
    assert_eq!(state.number_of_active_exams(), 1);
    assert_eq!(state.exam_start(HALL, ANNA, small_exam(), 5), Ok(()));
}

#[test]
fn fresh_seed_session_starts_like_any_other() {
    let mut state = registry();
    let seed = state.exam_start_with_fresh_seed(HALL, ANNA, small_exam()).unwrap();
    assert_eq!(state.active_exam_for(ANNA).unwrap().seed, seed);
    assert_eq!(
        state.exam_start_with_fresh_seed(HALL, BORIS, small_exam()),
        Err(StartError::SessionBusy)
    );
    assert_eq!(
        state.exam_start_with_fresh_seed(STREET, BORIS, small_exam()),
        Err(StartError::InvalidChannel)
    );
    assert_eq!(state.number_of_active_exams(), 1);
}

#[test]
fn sweep_poses_questions_and_reports_in_order() {
    let mut state = registry();
    assert_eq!(state.exam_start(HALL, ANNA, small_exam(), 5), Ok(()));
    assert_eq!(state.exam_start(ANNEX, BORIS, small_exam(), 6), Ok(()));

    let reports = state.tick_all();
    assert_eq!(reports.len(), 2);
    assert_eq!((reports[0].user_id, reports[0].channel_id), (ANNA, HALL));
    assert_eq!((reports[1].user_id, reports[1].channel_id), (BORIS, ANNEX));
    assert!(matches!(reports[0].action, TickAction::PoseQuestion(_)));
    assert!(matches!(reports[1].action, TickAction::PoseQuestion(_)));

    // A running clock shows nothing.
    assert!(state.tick_all().is_empty());
    assert_eq!(state.number_of_active_exams(), 2);
}

#[test]
fn answers_go_to_the_session_of_the_user() {
    let mut state = registry();
    assert_eq!(state.exam_start(HALL, ANNA, small_exam(), 5), Ok(()));
    // No question is open before the first sweep.
    assert!(state.answer(ANNA, "yi1").is_none());
    // A user without a session has nothing to answer.
    assert!(state.answer(BORIS, "yi1").is_none());

    let reports = state.tick_all();
    let question = match &reports[0].action {
        TickAction::PoseQuestion(q) => q.question.clone(),
        other => panic!("unexpected {:?}", other),
    };
    let (graded, answer) = state.answer(ANNA, "never").unwrap();
    assert_eq!(graded.question, question);
    assert!(matches!(answer, Answer::Incorrect(_)));
    assert!(state.answer(ANNA, "again").is_none());
    assert_eq!(state.active_exam_for(ANNA).unwrap().examiner.number_wrong(), 1);
}

#[test]
fn stop_is_ignored_unless_a_question_is_open() {
    let mut state = registry();
    assert_eq!(state.exam_stop(ANNA), StopOutcome::NoActiveSession);
    assert_eq!(state.exam_start(HALL, ANNA, small_exam(), 5), Ok(()));
    // Before the first sweep no question is open.
    assert_eq!(state.exam_stop(ANNA), StopOutcome::NoOpenQuestion);
    state.tick_all();
    // After an answer the question is closed until the next sweep.
    assert!(state.answer(ANNA, "never").is_some());
    assert_eq!(state.exam_stop(ANNA), StopOutcome::NoOpenQuestion);
    assert!(!state.active_exam_for(ANNA).unwrap().examiner.finished());
    state.tick_all();
    assert_eq!(state.exam_stop(ANNA), StopOutcome::Stopped);
    assert!(state.active_exam_for(ANNA).unwrap().examiner.finished());
    assert_eq!(state.exam_stop(ANNA), StopOutcome::NoOpenQuestion);
}

#[test]
fn sweep_takes_finished_sessions_out_after_reporting_them() {
    let mut state = registry();
    assert_eq!(state.exam_start(HALL, ANNA, small_exam(), 5), Ok(()));
    assert_eq!(state.exam_start(ANNEX, BORIS, small_exam(), 6), Ok(()));
    state.tick_all();
    assert_eq!(state.exam_stop(ANNA), StopOutcome::Stopped);
    // The session is still there until the sweep sees that it is over.
    assert!(state.is_user_busy(ANNA));

    let reports = state.tick_all();
    assert_eq!(reports.len(), 1);
    assert_eq!(reports[0].user_id, ANNA);
    assert_eq!(reports[0].channel_id, HALL);
    match &reports[0].action {
        TickAction::EndExam { score, hsk_level } => {
            assert_eq!(*hsk_level, 4);
            assert!(score.passed);
            assert_eq!(score.number_answered, 1);
            assert_eq!(score.number_wrong, 1);
        }
        other => panic!("unexpected {:?}", other),
    }
    assert!(!state.is_user_busy(ANNA));
    assert!(!state.is_channel_busy(HALL));
    assert!(state.is_user_busy(BORIS));
    assert_eq!(state.number_of_active_exams(), 1);
}

#[test]
fn sweep_shows_the_question_that_timed_out() {
    let mut state = registry();
    assert_eq!(state.exam_start(HALL, ANNA, exam_of(&[("一", "yi1"), ("二", "er4")], 100), 5), Ok(()));
    let reports = state.tick_all();
    let posed = match &reports[0].action {
        TickAction::PoseQuestion(q) => q.question.clone(),
        other => panic!("unexpected {:?}", other),
    };
    assert!(state.tick_all().is_empty());
    let reports = state.tick_all();
    assert_eq!(reports.len(), 1);
    match &reports[0].action {
        TickAction::ShowTimeout(q) => assert_eq!(q.question, posed),
        other => panic!("unexpected {:?}", other),
    }
    // The pause shows nothing, ten sweeps long; then the next question.
    for _ in 0..10 {
        assert!(state.tick_all().is_empty());
    }
    let reports = state.tick_all();
    assert!(matches!(&reports[0].action, TickAction::PoseQuestion(q) if q.question != posed));
}

#[test]
fn one_session_ticks_to_an_action() {
    let exam = small_exam();
    let examiner = Examiner::make(&exam, MILLIS_PER_TICK, 9);
    let mut session = ActiveExam { user_id: ANNA, channel_id: HALL, examiner, exam, seed: 9 };
    let (action, goes_on) = tick_active_exam(&mut session);
    assert!(matches!(action, TickAction::PoseQuestion(_)));
    assert_eq!(goes_on, ExamContinue::Yes);
    let (action, goes_on) = tick_active_exam(&mut session);
    assert!(matches!(action, TickAction::Nothing));
    assert_eq!(goes_on, ExamContinue::Yes);
    session.examiner.give_up();
    let (action, goes_on) = tick_active_exam(&mut session);
    assert!(matches!(action, TickAction::EndExam { hsk_level: 4, .. }));
    assert_eq!(goes_on, ExamContinue::No);
}

#[test]
fn lookup_by_channel_and_user() {
    let mut state = registry();
    assert_eq!(state.exam_start(HALL, ANNA, small_exam(), 5), Ok(()));
    assert!(state.active_exam_in(HALL, ANNA).is_some());
    assert!(state.active_exam_in(ANNEX, ANNA).is_none());
    assert!(state.active_exam_in(HALL, BORIS).is_none());
    assert_eq!(state.active_exam_in(HALL, ANNA).unwrap().seed, 5);
}

#[test]
fn sessions_do_not_touch_each_other() {
    let mut state = registry();
    assert_eq!(state.exam_start(HALL, ANNA, small_exam(), 5), Ok(()));
    assert_eq!(state.exam_start(ANNEX, BORIS, small_exam(), 5), Ok(()));
    state.tick_all();
    assert!(state.answer(ANNA, "never").is_some());
    assert_eq!(state.active_exam_for(ANNA).unwrap().examiner.number_wrong(), 1);
    assert_eq!(state.active_exam_for(BORIS).unwrap().examiner.number_wrong(), 0);
    assert!(state.active_exam_for(BORIS).unwrap().examiner.ready_for_next_answer());
    assert_eq!(state.exam_stop(BORIS), StopOutcome::Stopped);
    assert!(!state.active_exam_for(ANNA).unwrap().examiner.finished());
    let reports = state.tick_all();
    assert_eq!(reports.len(), 2);
    assert!(matches!(reports[0].action, TickAction::PoseQuestion(_)));
    assert!(matches!(reports[1].action, TickAction::EndExam { .. }));
    assert!(state.is_user_busy(ANNA));
    assert!(!state.is_user_busy(BORIS));
}
