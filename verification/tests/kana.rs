use kanji_kana::kana::{
    build_pairs, hiragana_pairs, parse_direction, parse_rounds, parse_script_choice, to_katakana,
    wants_to_quit, Direction, KanaQuiz, ScriptMode,
};

#[test]
fn katakana_of_hiragana() {
    assert_eq!(to_katakana("あいうえお"), "アイウエオ");
    assert_eq!(to_katakana("きゃ"), "キャ");
    assert_eq!(to_katakana("ぁゖ"), "ァヶ");
    assert_eq!(to_katakana("ん"), "ン");
}

#[test]
fn katakana_leaves_other_characters() {
    assert_eq!(to_katakana("ka カ 漢 ゝ"), "ka カ 漢 ゝ");
    assert_eq!(to_katakana(""), "");
}

#[test]
fn katakana_twice_is_katakana_once() {
    for s in ["あいう", "カタカナ", "mixed あア", "ゔゕゖ"] {
        let once = to_katakana(s);
        assert_eq!(to_katakana(&once), once);
        assert_eq!(once.chars().count(), s.chars().count());
    }
}

#[test]
fn hiragana_table_contents() {
    let t = hiragana_pairs();
    assert_eq!(t.len(), 104);
    assert_eq!(t[0], ("あ".to_string(), "a".to_string()));
    assert_eq!(t[11], ("し".to_string(), "shi".to_string()));
    assert_eq!(t[45], ("ん".to_string(), "n".to_string()));
    assert_eq!(t[103], ("ぴょ".to_string(), "pyo".to_string()));
}

#[test]
fn practice_sets_by_mode() {
    let h = build_pairs(ScriptMode::Hiragana);
    let k = build_pairs(ScriptMode::Katakana);
    let m = build_pairs(ScriptMode::Mixed);
    assert_eq!(h.len(), 104);
    assert_eq!(k.len(), 104);
    assert_eq!(m.len(), 208);
    assert_eq!(k[0], ("ア".to_string(), "a".to_string()));
    assert_eq!(k[74], ("シャ".to_string(), "sha".to_string()));
    assert_eq!(m[..104], h[..]);
    assert_eq!(m[104..], k[..]);
    for i in 0..104 {
        assert_eq!(h[i].1, k[i].1);
        assert_eq!(to_katakana(&h[i].0), k[i].0);
    }
}

#[test]
fn script_choice_replies() {
    assert_eq!(parse_script_choice("h"), Some(ScriptMode::Hiragana));
    assert_eq!(parse_script_choice("H"), Some(ScriptMode::Hiragana));
    assert_eq!(parse_script_choice("k"), Some(ScriptMode::Katakana));
    assert_eq!(parse_script_choice("K"), Some(ScriptMode::Katakana));
    assert_eq!(parse_script_choice("m"), Some(ScriptMode::Mixed));
    assert_eq!(parse_script_choice("M"), Some(ScriptMode::Mixed));
    assert_eq!(parse_script_choice("x"), None);
    assert_eq!(parse_script_choice("hh"), None);
    assert_eq!(parse_script_choice(""), None);
}

#[test]
fn direction_replies() {
    assert_eq!(parse_direction("1"), Some(Direction::KanaToRomaji));
    assert_eq!(parse_direction("2"), Some(Direction::RomajiToKana));
    assert_eq!(parse_direction("3"), None);
    assert_eq!(parse_direction("12"), None);
    assert_eq!(parse_direction(""), None);
}

#[test]
fn rounds_replies() {
    assert_eq!(parse_rounds("0"), Some(None));
    assert_eq!(parse_rounds("5"), Some(Some(5)));
    assert_eq!(parse_rounds("+3"), Some(Some(3)));
    assert_eq!(parse_rounds("ten"), None);
    assert_eq!(parse_rounds(""), None);
    assert_eq!(parse_rounds("-2"), None);
}

#[test]
fn quit_replies() {
    assert!(wants_to_quit("q"));
    assert!(wants_to_quit("Q"));
    assert!(wants_to_quit("  q \n"));
    assert!(!wants_to_quit(""));
    assert!(!wants_to_quit("quit"));
    assert!(!wants_to_quit("x"));
}

fn one_pair() -> Vec<(String, String)> {
    vec![("か".to_string(), "ka".to_string())]
}

#[test]
fn quiz_with_rounds_asks_that_many() {
    let mut quiz = KanaQuiz::new(one_pair(), Direction::KanaToRomaji, Some(2));
    assert!(!quiz.is_unlimited());
    let q = quiz.next_question().unwrap();
    assert_eq!(q.prompt, "か");
    assert_eq!(q.expected, "ka");
    assert_eq!(quiz.answer(" KA "), Some(true));
    let _ = quiz.next_question().unwrap();
    assert_eq!(quiz.answer("ki"), Some(false));
    assert!(quiz.next_question().is_none());
    assert_eq!(quiz.score(), 1);
    assert_eq!(quiz.asked(), 2);
}

#[test]
fn quiz_romaji_to_kana() {
    let mut quiz = KanaQuiz::new(one_pair(), Direction::RomajiToKana, None);
    assert!(quiz.is_unlimited());
    let q = quiz.next_question().unwrap();
    assert_eq!(q.prompt, "ka");
    assert_eq!(q.expected, "か");
    assert_eq!(quiz.answer("か"), Some(true));
    assert_eq!(quiz.score(), 1);
}

#[test]
fn quiz_answer_without_question() {
    let mut quiz = KanaQuiz::new(one_pair(), Direction::KanaToRomaji, None);
    assert_eq!(quiz.answer("ka"), None);
    let _ = quiz.next_question().unwrap();
    assert_eq!(quiz.answer("ka"), Some(true));
    // the question is closed: a second answer counts nothing
    assert_eq!(quiz.answer("ka"), None);
    assert_eq!(quiz.score(), 1);
    assert_eq!(quiz.asked(), 1);
}

#[test]
fn quiz_with_zero_rounds_asks_nothing() {
    let mut quiz = KanaQuiz::new(one_pair(), Direction::KanaToRomaji, Some(0));
    assert!(quiz.next_question().is_none());
    assert_eq!(quiz.asked(), 0);
}

#[test]
fn quiz_questions_come_from_the_set() {
    let pairs = build_pairs(ScriptMode::Mixed);
    let mut quiz = KanaQuiz::new(pairs.clone(), Direction::KanaToRomaji, Some(50));
    while let Some(q) = quiz.next_question() {
        assert!(pairs.iter().any(|(k, r)| *k == q.prompt && *r == q.expected));
        let reply = q.expected.clone();
        assert_eq!(quiz.answer(&reply), Some(true));
    }
    assert_eq!(quiz.score(), 50);
    assert_eq!(quiz.asked(), 50);
}

#[test]
fn quiz_without_pairs_and_without_rounds() {
    let mut quiz = KanaQuiz::new(vec![], Direction::KanaToRomaji, Some(0));
    assert!(quiz.next_question().is_none());
    assert_eq!(quiz.score(), 0);
    assert_eq!(quiz.asked(), 0);
}
