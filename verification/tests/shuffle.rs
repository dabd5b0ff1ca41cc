use chairmanmao::exam::Exam;
use chairmanmao::examiner::Examiner;
use chairmanmao::question::Question;
use chairmanmao::score::TickResult;
use chairmanmao::shuffle::{draw, shuffled_positions};
use rand::rngs::StdRng;
use rand::seq::SliceRandom;
use rand::SeedableRng;

fn deck_of(n: usize) -> Vec<Question> {
    (0..n)
        .map(|i| Question {
            question: format!("q{}", i),
            valid_answers: vec![format!("a{}", i)],
            meaning: format!("m{}", i),
        })
        .collect()
}

fn exam_of(n: usize, num_questions: usize) -> Exam {
    Exam {
        name: "deck".to_string(),
        deck: deck_of(n),
        num_questions,
        max_wrong: None,
        timelimit: 1000,
        hsk_level: 1,
    }
}

fn questions_posed(exam: &Exam, seed: u64) -> Vec<String> {
    let mut examiner = Examiner::make(exam, 100, seed);
    let mut posed = Vec::new();
    loop {
        match examiner.tick() {
            TickResult::NextQuestion(q) => {
                posed.push(q.question.clone());
                examiner.answer("x");
            }
            TickResult::Finished(_) => break,
            other => panic!("unexpected {:?}", other),
        }
    }
    posed
}

#[test]
fn same_seed_gives_the_same_order() {
    let exam = exam_of(10, 10);
    for seed in [0u64, 1, 2, 3, 1234567] {
        assert_eq!(questions_posed(&exam, seed), questions_posed(&exam, seed));
        assert_eq!(shuffled_positions(10, seed), shuffled_positions(10, seed));
    }
}

#[test]
fn orders_of_known_seeds() {
    assert_eq!(shuffled_positions(5, 0), vec![1, 0, 3, 2, 4]);
    assert_eq!(shuffled_positions(10, 0), vec![5, 2, 9, 1, 6, 3, 4, 0, 7, 8]);
    assert_eq!(shuffled_positions(10, 1), vec![0, 4, 9, 2, 5, 6, 1, 3, 7, 8]);
    assert_eq!(shuffled_positions(5, 2), vec![2, 3, 4, 1, 0]);
    assert_eq!(shuffled_positions(10, 42), vec![7, 3, 9, 5, 0, 8, 6, 4, 2, 1]);
}

#[test]
fn seeds_give_different_orders() {
    assert!(shuffled_positions(10, 0) != shuffled_positions(10, 1));
    assert!(shuffled_positions(10, 0) != (0..10).collect::<Vec<usize>>());
}

#[test]
fn order_names_every_position_once() {
    for n in [0usize, 1, 2, 7, 100] {
        for seed in [0u64, 9, 77] {
            let mut order = shuffled_positions(n, seed);
            assert_eq!(order.len(), n);
            order.sort();
            assert_eq!(order, (0..n).collect::<Vec<usize>>());
        }
    }
}

#[test]
fn session_poses_the_deck_as_a_shuffle_of_it_would() {
    for seed in [0u64, 5, 99] {
        let exam = exam_of(8, 8);
        let mut shuffled: Vec<String> = exam.deck.iter().map(|q| q.question.clone()).collect();
        let mut rng = StdRng::seed_from_u64(seed);
        shuffled.shuffle(&mut rng);
        assert_eq!(questions_posed(&exam, seed), shuffled);
    }
}

#[test]
fn session_takes_the_first_questions_of_the_shuffled_deck() {
    let seed: u64 = 31;
    let full = questions_posed(&exam_of(8, 8), seed);
    let short = questions_posed(&exam_of(8, 3), seed);
    assert_eq!(short.len(), 3);
    assert_eq!(short[..], full[..3]);
}

#[test]
fn draw_takes_cards_in_the_given_order() {
    let deck = deck_of(4);
    let order = vec![2, 0, 3, 1];
    let drawn = draw(&deck, &order, 2);
    let names: Vec<&str> = drawn.iter().map(|q| q.question.as_str()).collect();
    assert_eq!(names, vec!["q2", "q0"]);
    let all = draw(&deck, &order, 9);
    let names: Vec<&str> = all.iter().map(|q| q.question.as_str()).collect();
    assert_eq!(names, vec!["q2", "q0", "q3", "q1"]);
    assert_eq!(all[0].valid_answers, vec!["a2".to_string()]);
    assert_eq!(all[0].meaning, "m2");
    assert!(draw(&deck, &order, 0).is_empty());
}
