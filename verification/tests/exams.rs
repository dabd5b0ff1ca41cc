use chairmanmao::exam::Exam;
use chairmanmao::examiner::Examiner;
use chairmanmao::question::Question;

#[test]
fn test1() {
    let name = "hsk1".to_string();
    let deck = vec![
        Question {
            question: "hello".to_string(),
            valid_answers: vec!["world".to_string()],
            meaning: "Greeting".to_string(),
        },
        Question {
            question: "foo".to_string(),
            valid_answers: vec!["bar".to_string()],
            meaning: "foobar".to_string(),
        },
        Question {
            question: "foobar".to_string(),
            valid_answers: vec!["baz".to_string()],
            meaning: "foobar~baz".to_string(),
        },
    ];

    let num_questions = 1;
    let max_wrong = Some(1);
    let timelimit = 5;
    let hsk_level = 1;

    let exam = Exam {
        name,
        deck,
        num_questions,
        max_wrong,
        timelimit,
        hsk_level,
    };

    let mut examiner = Examiner::make(&exam, 100, 0);
    let tick_result = examiner.tick();
    let question = tick_result.unwrap_next_question();

    println!("{}", question.question);
    examiner.answer("world");
    let tick_result = examiner.tick();
    println!("{:?}", &tick_result);
}
