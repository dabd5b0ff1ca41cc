use chairmanmao::answer::Answer;
use chairmanmao::exam::Exam;
use chairmanmao::examiner::{Examiner, PAUSE_AFTER_TIMEOUT, PRACTICE_TIMELIMIT};
use chairmanmao::question::Question;
use chairmanmao::score::{ExamScore, TickResult};

fn card(question: &str, answer: &str) -> Question {
    Question {
        question: question.to_string(),
        valid_answers: vec![answer.to_string()],
        meaning: format!("meaning of {}", question),
    }
}

fn exam_of(cards: &[(&str, &str)], num_questions: usize, max_wrong: Option<usize>, timelimit: usize) -> Exam {
    Exam {
        name: "hsk1".to_string(),
        deck: cards.iter().map(|(q, a)| card(q, a)).collect(),
        num_questions,
        max_wrong,
        timelimit,
        hsk_level: 1,
    }
}

fn fraction(score: &ExamScore) -> f32 {
    1.0 - score.number_wrong as f32 / score.number_answered as f32
}

fn expect_finished(result: TickResult) -> ExamScore {
    match result {
        TickResult::Finished(score) => score,
        other => panic!("expected Finished, found {:?}", other),
    }
}

fn right_answer(question: &Question) -> String {
    question.valid_answers[0].clone()
}

#[test]
fn single_question_answered_right_is_finished_but_not_passed() {
    let exam = exam_of(&[("你", "ni3")], 1, Some(0), 5000);
    let mut examiner = Examiner::make(&exam, 100, 7);

    let first = examiner.tick();
    assert!(matches!(first, TickResult::NextQuestion(_)));
    let question = first.unwrap_next_question();
    assert_eq!(question.question, "你");

    let graded = examiner.answer("ni3");
    assert!(matches!(graded, Some((_, Answer::Correct(_)))));

    let score = expect_finished(examiner.tick());
    assert_eq!(fraction(&score), 1.0);
    assert_eq!(score.number_wrong, 0);
    assert_eq!(score.number_answered, 1);
    assert!(!score.passed);
    assert_eq!(score.graded_questions.len(), 1);
}

#[test]
fn only_question_times_out_and_the_exam_is_over() {
    let timelimit = 500;
    let millis_per_tick = 100;
    let exam = exam_of(&[("你", "ni3")], 1, Some(3), timelimit);
    let mut examiner = Examiner::make(&exam, millis_per_tick, 1);

    assert!(matches!(examiner.tick(), TickResult::NextQuestion(_)));
    for _ in 0..timelimit / millis_per_tick {
        assert!(matches!(examiner.tick(), TickResult::Nothing));
    }
    assert!(matches!(examiner.tick(), TickResult::Timeout));
    // The timeout was the answer to the last question, so the exam is over,
    // and that outranks the pause: no tick reports a pause.
    let score = expect_finished(examiner.tick());
    assert_eq!(score.number_answered, 1);
    assert_eq!(score.number_wrong, 1);
    assert_eq!(fraction(&score), 0.0);
    assert!(!score.passed);
    assert!(matches!(score.graded_questions[0].1, Answer::Timeout));
}

#[test]
fn timeout_before_the_last_question_pauses_for_a_second() {
    let timelimit = 500;
    let millis_per_tick = 100;
    let exam = exam_of(&[("你", "ni3"), ("好", "hao3")], 2, Some(3), timelimit);
    let mut examiner = Examiner::make(&exam, millis_per_tick, 1);

    assert!(matches!(examiner.tick(), TickResult::NextQuestion(_)));
    for _ in 0..timelimit / millis_per_tick {
        assert!(matches!(examiner.tick(), TickResult::Nothing));
    }
    assert!(matches!(examiner.tick(), TickResult::Timeout));
    for _ in 0..PAUSE_AFTER_TIMEOUT / millis_per_tick {
        assert!(matches!(examiner.tick(), TickResult::Pause));
    }
    assert!(matches!(examiner.tick(), TickResult::NextQuestion(_)));
    for _ in 0..timelimit / millis_per_tick {
        assert!(matches!(examiner.tick(), TickResult::Nothing));
    }
    assert!(matches!(examiner.tick(), TickResult::Timeout));
    let score = expect_finished(examiner.tick());
    assert_eq!(score.number_answered, 2);
    assert_eq!(score.number_wrong, 2);
}

#[test]
fn clock_that_does_not_divide_the_time_stops_at_zero() {
    // 250 ms at 100 ms per tick: 250, 150, 50, 0.
    let exam = exam_of(&[("你", "ni3"), ("好", "hao3")], 2, Some(3), 250);
    let mut examiner = Examiner::make(&exam, 100, 1);
    assert!(matches!(examiner.tick(), TickResult::NextQuestion(_)));
    for _ in 0..3 {
        assert!(matches!(examiner.tick(), TickResult::Nothing));
    }
    assert!(matches!(examiner.tick(), TickResult::Timeout));
    // 1000 ms of pause at 300 ms per tick would be 1000, 700, 400, 100, 0;
    // at 100 ms per tick it is ten ticks.
    for _ in 0..10 {
        assert!(matches!(examiner.tick(), TickResult::Pause));
    }
    assert!(matches!(examiner.tick(), TickResult::NextQuestion(_)));
}

#[test]
fn pause_with_a_long_tick_stops_at_zero() {
    let exam = exam_of(&[("你", "ni3"), ("好", "hao3")], 2, Some(3), 0);
    let mut examiner = Examiner::make(&exam, 300, 1);
    assert!(matches!(examiner.tick(), TickResult::NextQuestion(_)));
    // No time at all: the next tick is the timeout.
    assert!(matches!(examiner.tick(), TickResult::Timeout));
    // 1000, 700, 400, 100, 0: four ticks of pause.
    for _ in 0..4 {
        assert!(matches!(examiner.tick(), TickResult::Pause));
    }
    assert!(matches!(examiner.tick(), TickResult::NextQuestion(_)));
}

#[test]
fn answer_is_taken_once_per_question() {
    let exam = exam_of(&[("你", "ni3"), ("好", "hao3")], 2, Some(5), 5000);
    let mut examiner = Examiner::make(&exam, 100, 3);

    // Before the first tick no question is open.
    assert!(examiner.answer("ni3").is_none());
    assert!(!examiner.ready_for_next_answer());
    assert!(examiner.ready_for_next_question());

    let question = examiner.tick().unwrap_next_question();
    assert!(examiner.ready_for_next_answer());
    let graded = examiner.answer("wrong").unwrap();
    assert_eq!(graded.0.question, question.question);
    assert!(matches!(graded.1, Answer::Incorrect(ref s) if s == "wrong"));

    // The question is closed until the next tick: no second answer, and
    // giving up is not open.
    assert!(!examiner.ready_for_next_answer());
    assert!(examiner.answer(&right_answer(&question)).is_none());
    assert_eq!(examiner.number_wrong(), 1);

    assert!(matches!(examiner.tick(), TickResult::NextQuestion(_)));
    assert!(examiner.ready_for_next_answer());
}

#[test]
fn no_answer_is_taken_during_the_pause() {
    let exam = exam_of(&[("你", "ni3"), ("好", "hao3")], 2, Some(5), 100);
    let mut examiner = Examiner::make(&exam, 100, 3);
    assert!(matches!(examiner.tick(), TickResult::NextQuestion(_)));
    assert!(matches!(examiner.tick(), TickResult::Nothing));
    assert!(matches!(examiner.tick(), TickResult::Timeout));
    assert!(examiner.answer("ni3").is_none());
    assert!(!examiner.ready_for_next_answer());
    assert!(matches!(examiner.tick(), TickResult::Pause));
    assert!(examiner.answer("ni3").is_none());
}

#[test]
fn giving_up_ends_the_exam_and_passes_within_the_cap() {
    let exam = exam_of(&[("你", "ni3"), ("好", "hao3"), ("我", "wo3")], 3, Some(1), 5000);
    let mut examiner = Examiner::make(&exam, 100, 3);
    let question = examiner.tick().unwrap_next_question();
    assert!(examiner.answer(&right_answer(&question)).is_some());
    assert!(matches!(examiner.tick(), TickResult::NextQuestion(_)));
    assert!(!examiner.finished());

    assert!(examiner.ready_for_next_answer());
    examiner.give_up();
    assert!(examiner.finished());
    assert!(examiner._finished_gave_up());
    assert!(!examiner.ready_for_next_answer());

    let score = expect_finished(examiner.tick());
    // One right answer and the quit, which counts as wrong: within the cap
    // of one, so the exam counts as passed.
    assert!(score.passed);
    assert_eq!(score.number_answered, 2);
    assert_eq!(score.number_wrong, 1);
    assert_eq!(fraction(&score), 0.5);
    assert!(matches!(score.graded_questions[1].1, Answer::Quit));
}

#[test]
fn giving_up_with_a_cap_of_zero_does_not_pass() {
    let exam = exam_of(&[("你", "ni3")], 1, Some(0), 5000);
    let mut examiner = Examiner::make(&exam, 100, 3);
    assert!(matches!(examiner.tick(), TickResult::NextQuestion(_)));
    examiner.give_up();
    let score = expect_finished(examiner.tick());
    assert!(!score.passed);
    assert_eq!(fraction(&score), 0.0);
}

#[test]
fn giving_up_without_a_cap_does_not_pass() {
    let exam = exam_of(&[("你", "ni3")], 1, None, 5000);
    let mut examiner = Examiner::make(&exam, 100, 3);
    assert!(matches!(examiner.tick(), TickResult::NextQuestion(_)));
    examiner.give_up();
    let score = expect_finished(examiner.tick());
    assert!(!score.passed);
}

#[test]
fn too_many_wrong_answers_end_the_exam() {
    let exam = exam_of(&[("你", "ni3"), ("好", "hao3"), ("我", "wo3")], 3, Some(1), 5000);
    let mut examiner = Examiner::make(&exam, 100, 3);
    assert!(matches!(examiner.tick(), TickResult::NextQuestion(_)));
    assert!(examiner.answer("no").is_some());
    assert!(!examiner.finished());
    assert!(matches!(examiner.tick(), TickResult::NextQuestion(_)));
    assert!(examiner.answer("no").is_some());
    assert!(examiner._finished_too_many_wrong());
    assert!(!examiner._finished_all_questions_answered());
    let score = expect_finished(examiner.tick());
    assert_eq!(score.number_wrong, 2);
    assert_eq!(score.number_answered, 2);
    assert_eq!(fraction(&score), 0.0);
    assert!(!score.passed);
}

#[test]
fn finished_session_does_not_change() {
    let exam = exam_of(&[("你", "ni3")], 1, Some(0), 5000);
    let mut examiner = Examiner::make(&exam, 100, 3);
    assert!(matches!(examiner.tick(), TickResult::NextQuestion(_)));
    assert!(examiner.answer("ni3").is_some());
    for _ in 0..3 {
        let score = expect_finished(examiner.tick());
        assert_eq!(score.number_answered, 1);
        assert_eq!(score.number_wrong, 0);
        assert!(examiner.answer("ni3").is_none());
    }
}

#[test]
fn every_answer_is_in_the_score_once_and_in_order() {
    let cards = [("一", "yi1"), ("二", "er4"), ("三", "san1"), ("四", "si4")];
    let exam = exam_of(&cards, 4, None, 100);
    let mut examiner = Examiner::make(&exam, 100, 11);

    let mut posed: Vec<String> = Vec::new();
    // First question: right. Second: wrong. Third: timeout. Fourth: right.
    let q = examiner.tick().unwrap_next_question();
    posed.push(q.question.clone());
    examiner.answer(&right_answer(&q));
    let q = examiner.tick().unwrap_next_question();
    posed.push(q.question.clone());
    examiner.answer("nothing");
    let q = examiner.tick().unwrap_next_question();
    posed.push(q.question.clone());
    assert!(matches!(examiner.tick(), TickResult::Nothing));
    assert!(matches!(examiner.tick(), TickResult::Timeout));
    for _ in 0..10 {
        assert!(matches!(examiner.tick(), TickResult::Pause));
    }
    let q = examiner.tick().unwrap_next_question();
    posed.push(q.question.clone());
    let last = right_answer(&q);
    examiner.answer(&last);

    let score = expect_finished(examiner.tick());
    assert_eq!(score.graded_questions.len(), 4);
    assert_eq!(score.number_answered, 4);
    assert_eq!(score.number_wrong, 2);
    assert_eq!(fraction(&score), 0.5);
    let asked: Vec<String> = score.graded_questions.iter().map(|(q, _)| q.question.clone()).collect();
    assert_eq!(asked, posed);
    assert!(matches!(score.graded_questions[0].1, Answer::Correct(_)));
    assert!(matches!(score.graded_questions[1].1, Answer::Incorrect(ref s) if s == "nothing"));
    assert!(matches!(score.graded_questions[2].1, Answer::Timeout));
    assert!(matches!(score.graded_questions[3].1, Answer::Correct(ref s) if *s == last));
    // Without a cap, an exam that ran to its end is not passed.
    assert!(!score.passed);
}

#[test]
fn exam_without_questions_is_over_at_once() {
    let exam = exam_of(&[], 3, Some(1), 5000);
    let mut examiner = Examiner::make(&exam, 100, 0);
    assert!(examiner.finished());
    let score = expect_finished(examiner.tick());
    assert_eq!(score.number_answered, 0);
    assert_eq!(score.number_wrong, 0);
    assert!(score.graded_questions.is_empty());
    assert!(!score.passed);
    // Nothing was answered, so the score as a fraction is no number.
    assert!(fraction(&score).is_nan());
}

#[test]
fn drawing_no_questions_is_over_at_once() {
    let exam = exam_of(&[("你", "ni3")], 0, Some(1), 5000);
    let mut examiner = Examiner::make(&exam, 100, 0);
    assert!(matches!(examiner.tick(), TickResult::Finished(_)));
}

#[test]
fn session_takes_no_more_questions_than_the_deck_has() {
    let exam = exam_of(&[("你", "ni3"), ("好", "hao3")], 10, None, 5000);
    let mut examiner = Examiner::make(&exam, 100, 5);
    let mut count: usize = 0;
    loop {
        match examiner.tick() {
            TickResult::NextQuestion(q) => {
                count += 1;
                examiner.answer(&right_answer(&q));
            }
            TickResult::Finished(score) => {
                assert_eq!(score.number_answered, 2);
                assert_eq!(fraction(&score), 1.0);
                break;
            }
            other => panic!("unexpected {:?}", other),
        }
    }
    assert_eq!(count, 2);
}

#[test]
fn practice_takes_the_whole_deck_and_ends_at_the_first_timeout() {
    let cards = [("一", "yi1"), ("二", "er4"), ("三", "san1")];
    let exam = exam_of(&cards, 1, Some(0), 100);
    let millis_per_tick = 1000;
    let mut examiner = Examiner::make_practice(&exam, millis_per_tick, 5);

    // Wrong answers do not end a practice session: there is no cap.
    let q = examiner.tick().unwrap_next_question();
    assert!(examiner.answer("wrong").is_some());
    assert!(!examiner.finished());
    let second = examiner.tick().unwrap_next_question();
    assert!(second.question != q.question);

    // The practice time limit is used, not the exam's.
    for _ in 0..PRACTICE_TIMELIMIT / millis_per_tick {
        assert!(matches!(examiner.tick(), TickResult::Nothing));
    }
    assert!(matches!(examiner.tick(), TickResult::Timeout));
    assert!(examiner._finished_timeout());
    let score = expect_finished(examiner.tick());
    assert_eq!(score.number_answered, 2);
    assert_eq!(score.number_wrong, 2);
    assert!(!score.passed);
}

#[test]
fn timeouts_do_not_end_an_ordinary_session() {
    let exam = exam_of(&[("一", "yi1"), ("二", "er4")], 2, None, 0);
    let mut examiner = Examiner::make(&exam, 1000, 5);
    assert!(matches!(examiner.tick(), TickResult::NextQuestion(_)));
    assert!(matches!(examiner.tick(), TickResult::Timeout));
    assert_eq!(examiner._number_timeouts(), 1);
    assert!(!examiner._finished_timeout());
    assert!(!examiner.finished());
    assert!(matches!(examiner.tick(), TickResult::Pause));
    assert!(matches!(examiner.tick(), TickResult::NextQuestion(_)));
}

#[test]
fn current_question_is_the_one_posed_last() {
    let exam = exam_of(&[("一", "yi1"), ("二", "er4")], 2, None, 5000);
    let mut examiner = Examiner::make(&exam, 100, 5);
    let q = examiner.tick().unwrap_next_question();
    assert_eq!(examiner.current_question().question, q.question);
    assert!(!examiner.timed_out());
    examiner.answer("x");
    let q2 = examiner.tick().unwrap_next_question();
    assert_eq!(examiner.current_question().question, q2.question);
    let graded = examiner.graded_questions();
    assert_eq!(graded.len(), 1);
    assert_eq!(graded[0].0.question, q.question);
}

#[test]
fn unattended_session_ends_by_itself() {
    // Three questions of half a second each at a tenth of a second a tick:
    // each takes the tick that poses it, five ticks of time and the tick of
    // its timeout, and all but the last a pause of ten ticks.
    let exam = exam_of(&[("一", "yi1"), ("二", "er4"), ("三", "san1")], 3, None, 500);
    let mut examiner = Examiner::make(&exam, 100, 8);
    let mut ticks: usize = 0;
    loop {
        if let TickResult::Finished(score) = examiner.tick() {
            assert_eq!(score.number_answered, 3);
            assert_eq!(score.number_wrong, 3);
            break;
        }
        ticks += 1;
        assert!(ticks <= 3 * (500 + PAUSE_AFTER_TIMEOUT + 3));
    }
    assert_eq!(ticks, 7 + 10 + 7 + 10 + 7);
}

#[test]
fn session_with_a_tick_of_no_length_waits_for_the_answer() {
    let exam = exam_of(&[("一", "yi1")], 1, None, 500);
    let mut examiner = Examiner::make(&exam, 0, 8);
    assert!(matches!(examiner.tick(), TickResult::NextQuestion(_)));
    for _ in 0..100 {
        assert!(matches!(examiner.tick(), TickResult::Nothing));
    }
    assert!(examiner.answer("yi1").is_some());
    assert!(matches!(examiner.tick(), TickResult::Finished(_)));
}
