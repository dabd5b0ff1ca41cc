use chairmanmao::loader::{convert_card, convert_exam, JsonCard, JsonExam};

fn stored_card(question: &str, answers: &[&str], meaning: &str) -> JsonCard {
    JsonCard {
        question: question.to_string(),
        valid_answers: answers.iter().map(|a| a.to_string()).collect(),
        meaning: meaning.to_string(),
    }
}

#[test]
fn card_keeps_its_texts() {
    let question = convert_card(&stored_card("你好", &["ni3hao3", "ni hao"], "hello"));
    assert_eq!(question.question, "你好");
    assert_eq!(question.valid_answers, vec!["ni3hao3".to_string(), "ni hao".to_string()]);
    assert_eq!(question.meaning, "hello");
}

#[test]
fn exam_has_its_time_in_milliseconds_and_its_cap_in_force() {
    let stored = JsonExam {
        name: "hsk2".to_string(),
        num_questions: 10,
        max_wrong: 2,
        timelimit: 7,
        hsk_level: 2,
        deck: vec![stored_card("一", &["yi1"], "one"), stored_card("二", &["er4"], "two")],
    };
    let exam = convert_exam(&stored);
    assert_eq!(exam.name, "hsk2");
    assert_eq!(exam.num_questions, 10);
    assert_eq!(exam.max_wrong, Some(2));
    assert_eq!(exam.timelimit, 7000);
    assert_eq!(exam.hsk_level, 2);
    assert_eq!(exam.deck.len(), 2);
    assert_eq!(exam.deck[0].question, "一");
    assert_eq!(exam.deck[1].valid_answers, vec!["er4".to_string()]);
    assert_eq!(exam.deck[1].meaning, "two");
}

#[test]
fn exam_without_cards_and_without_time() {
    let stored = JsonExam {
        name: "".to_string(),
        num_questions: 0,
        max_wrong: 0,
        timelimit: 0,
        hsk_level: 0,
        deck: vec![],
    };
    let exam = convert_exam(&stored);
    assert_eq!(exam.max_wrong, Some(0));
    assert_eq!(exam.timelimit, 0);
    assert!(exam.deck.is_empty());
}
