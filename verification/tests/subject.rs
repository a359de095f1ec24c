use kanji_kana::json::Json;
use kanji_kana::subject::{review_items_from_response, Subject};

fn s(t: &str) -> Json {
    Json::Str(t.to_string())
}

fn obj(members: Vec<(&str, Json)>) -> Json {
    Json::Object(members.into_iter().map(|(k, v)| (k.to_string(), v)).collect())
}

fn meaning(text: &str, primary: bool) -> Json {
    obj(vec![("meaning", s(text)), ("primary", Json::Bool(primary))])
}

fn reading(text: &str) -> Json {
    obj(vec![("reading", s(text)), ("primary", Json::Bool(true))])
}

fn subject_value(id: u64) -> Json {
    obj(vec![
        ("id", Json::Number(Some(id))),
        ("object", s("kanji")),
        (
            "data",
            obj(vec![
                ("characters", s("一")),
                (
                    "meanings",
                    Json::Array(vec![meaning("One", false), meaning("Uno", true), meaning("One", false)]),
                ),
                ("readings", Json::Array(vec![reading("いち"), reading("ひと"), reading("いち")])),
            ]),
        ),
    ])
}

#[test]
fn subject_reads_id_characters_meanings_readings() {
    let sub = Subject::from_wanikani_value(&subject_value(440)).unwrap();
    assert_eq!(sub.id, 440);
    assert_eq!(sub.characters, "一");
    // primary first, then the others once each
    assert_eq!(sub.meanings, vec!["Uno".to_string(), "One".to_string()]);
    // readings keep every entry, repeats too
    assert_eq!(sub.readings, vec!["いち".to_string(), "ひと".to_string(), "いち".to_string()]);
}

#[test]
fn subject_needs_unsigned_id_and_data() {
    let no_id = obj(vec![("data", obj(vec![]))]);
    assert!(Subject::from_wanikani_value(&no_id).is_none());
    let bad_id = obj(vec![("id", Json::Number(None)), ("data", obj(vec![]))]);
    assert!(Subject::from_wanikani_value(&bad_id).is_none());
    let text_id = obj(vec![("id", s("1")), ("data", obj(vec![]))]);
    assert!(Subject::from_wanikani_value(&text_id).is_none());
    let no_data = obj(vec![("id", Json::Number(Some(1)))]);
    assert!(Subject::from_wanikani_value(&no_data).is_none());
    assert!(Subject::from_wanikani_value(&Json::Null).is_none());
    assert!(Subject::from_wanikani_value(&Json::Array(vec![])).is_none());
}

#[test]
fn subject_with_empty_data() {
    let v = obj(vec![("id", Json::Number(Some(7))), ("data", obj(vec![]))]);
    let sub = Subject::from_wanikani_value(&v).unwrap();
    assert_eq!(sub.id, 7);
    assert_eq!(sub.characters, "");
    assert!(sub.meanings.is_empty());
    assert!(sub.readings.is_empty());
}

#[test]
fn subject_data_that_is_no_object() {
    let v = obj(vec![("id", Json::Number(Some(8))), ("data", Json::Null)]);
    let sub = Subject::from_wanikani_value(&v).unwrap();
    assert_eq!(sub.characters, "");
    assert!(sub.meanings.is_empty());
}

#[test]
fn subject_without_primary_meaning() {
    let v = obj(vec![
        ("id", Json::Number(Some(9))),
        (
            "data",
            obj(vec![
                ("characters", Json::Null),
                ("meanings", Json::Array(vec![meaning("B", false), meaning("A", false), meaning("B", false)])),
            ]),
        ),
    ]);
    let sub = Subject::from_wanikani_value(&v).unwrap();
    assert_eq!(sub.characters, "");
    assert_eq!(sub.meanings, vec!["B".to_string(), "A".to_string()]);
}

#[test]
fn primary_without_text_is_passed_over() {
    let v = obj(vec![
        ("id", Json::Number(Some(10))),
        (
            "data",
            obj(vec![(
                "meanings",
                Json::Array(vec![
                    obj(vec![("primary", Json::Bool(true))]),
                    meaning("Second", true),
                    meaning("First", false),
                ]),
            )]),
        ),
    ]);
    let sub = Subject::from_wanikani_value(&v).unwrap();
    assert_eq!(sub.meanings, vec!["Second".to_string(), "First".to_string()]);
}

#[test]
fn first_member_of_a_key_counts() {
    let v = obj(vec![
        ("id", Json::Number(Some(1))),
        ("id", Json::Number(Some(2))),
        ("data", obj(vec![])),
    ]);
    assert_eq!(Subject::from_wanikani_value(&v).unwrap().id, 1);
}

#[test]
fn cloned_subject_is_equal() {
    let sub = Subject::from_wanikani_value(&subject_value(5)).unwrap();
    let c = sub.clone();
    assert_eq!(c.id, sub.id);
    assert_eq!(c.characters, sub.characters);
    assert_eq!(c.meanings, sub.meanings);
    assert_eq!(c.readings, sub.readings);
}

#[test]
fn response_gives_fresh_items_for_valid_subjects() {
    let response = obj(vec![
        ("object", s("collection")),
        ("data", Json::Array(vec![subject_value(1), Json::Null, subject_value(2)])),
    ]);
    let items = review_items_from_response(&response).unwrap();
    assert_eq!(items.len(), 2);
    assert_eq!(items[0].subject.id, 1);
    assert_eq!(items[1].subject.id, 2);
    assert!(items.iter().all(|i| i.seen == 0 && i.correct == 0));
}

#[test]
fn response_without_data_array() {
    assert!(review_items_from_response(&obj(vec![("data", obj(vec![]))])).is_none());
    assert!(review_items_from_response(&obj(vec![])).is_none());
    let empty = review_items_from_response(&obj(vec![("data", Json::Array(vec![]))])).unwrap();
    assert!(empty.is_empty());
}
