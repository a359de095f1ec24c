use kanji_kana::session::{check_meaning, Session};
use kanji_kana::subject::{ReviewItem, Subject};

fn make_subject(ch: &str, meaning: &str) -> Subject {
    Subject {
        id: 1,
        characters: ch.to_string(),
        meanings: vec![meaning.to_string()],
        readings: vec![],
    }
}

#[test]
fn session_progresses_and_scores() {
    let s1 = make_subject("一", "one");
    let s2 = make_subject("二", "two");
    let items = vec![ReviewItem::new(s1), ReviewItem::new(s2)];
    let mut session = Session::new(items);

    // initial
    assert_eq!(session.current_index, 0);
    assert!(session.next_question().is_some());

    // submit correct
    session.submit_answer(true);
    assert_eq!(session.current_index, 1);

    // submit incorrect
    session.submit_answer(false);
    assert_eq!(session.current_index, 2);

    assert!(session.next_question().is_none());
}

#[test]
fn next_question_gives_items_in_order() {
    let items = vec![
        ReviewItem::new(make_subject("一", "one")),
        ReviewItem::new(make_subject("二", "two")),
    ];
    let mut session = Session::new(items);
    assert_eq!(session.next_question().unwrap().characters, "一");
    // asking again does not move on
    assert_eq!(session.next_question().unwrap().characters, "一");
    session.submit_answer(false);
    assert_eq!(session.next_question().unwrap().characters, "二");
}

#[test]
fn one_pass_records_each_answer_once() {
    let items = vec![
        ReviewItem::new(make_subject("一", "one")),
        ReviewItem::new(make_subject("二", "two")),
        ReviewItem::new(make_subject("三", "three")),
    ];
    let mut session = Session::new(items);
    for correct in [true, false, true] {
        session.submit_answer(correct);
    }
    assert!(session.next_question().is_none());
    let seen: Vec<usize> = session.items.iter().map(|i| i.seen).collect();
    let right: Vec<usize> = session.items.iter().map(|i| i.correct).collect();
    assert_eq!(seen, vec![1, 1, 1]);
    assert_eq!(right, vec![1, 0, 1]);
    assert_eq!(session.current_index, 3);
}

#[test]
fn submit_after_the_end_only_moves_the_index() {
    let mut session = Session::new(vec![ReviewItem::new(make_subject("一", "one"))]);
    session.submit_answer(true);
    session.submit_answer(true);
    assert_eq!(session.current_index, 2);
    assert_eq!(session.items[0].seen, 1);
    assert_eq!(session.items[0].correct, 1);
}

#[test]
fn empty_session_has_no_question() {
    let mut session = Session::new(vec![]);
    assert!(session.next_question().is_none());
}

#[test]
fn meaning_check_ignores_case_and_surrounding_space() {
    let s = make_subject("一", "One");
    assert!(check_meaning(&s, "one"));
    assert!(check_meaning(&s, "  ONE \n"));
    assert!(!check_meaning(&s, "two"));
    assert!(!check_meaning(&s, "o ne"));
}

#[test]
fn meaning_check_uses_only_the_first_meaning() {
    let s = Subject {
        id: 2,
        characters: "人".to_string(),
        meanings: vec!["Person".to_string(), "People".to_string()],
        readings: vec![],
    };
    assert!(check_meaning(&s, "person"));
    assert!(!check_meaning(&s, "people"));
    let none = Subject { id: 3, characters: "口".to_string(), meanings: vec![], readings: vec![] };
    assert!(!check_meaning(&none, ""));
}

use kanji_kana::session::Review;

#[test]
fn review_counts_right_answers() {
    let items = vec![
        ReviewItem::new(make_subject("一", "One")),
        ReviewItem::new(make_subject("二", "Two")),
        ReviewItem::new(make_subject("三", "Three")),
    ];
    let mut review = Review::new(items);
    assert_eq!(review.answer(" one "), Some(true));
    assert_eq!(review.answer("three"), Some(false));
    assert_eq!(review.answer("THREE"), Some(true));
    assert_eq!(review.answer("four"), None);
    assert_eq!(review.score, 2);
    assert_eq!(review.session.current_index, 3);
    let right: Vec<usize> = review.session.items.iter().map(|i| i.correct).collect();
    assert_eq!(right, vec![1, 0, 1]);
}

#[test]
fn fewer_answers_than_items() {
    let items = vec![
        ReviewItem::new(make_subject("一", "one")),
        ReviewItem::new(make_subject("二", "two")),
        ReviewItem::new(make_subject("三", "three")),
    ];
    let mut session = Session::new(items);
    session.submit_answer(true);
    let seen: Vec<usize> = session.items.iter().map(|i| i.seen).collect();
    let right: Vec<usize> = session.items.iter().map(|i| i.correct).collect();
    assert_eq!(seen, vec![1, 0, 0]);
    assert_eq!(right, vec![1, 0, 0]);
    assert_eq!(session.next_question().unwrap().characters, "二");
    for i in &session.items {
        assert!(i.correct <= i.seen);
    }
}
