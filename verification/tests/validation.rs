use music_quiz::document::{Kind, Node, Table};
use music_quiz::quiz::{Quiz, QuizError};

fn text(s: &str) -> Node {
    Node { shown: format!("{:?}", s), kind: Kind::String(s.to_string()) }
}

fn number(i: i64) -> Node {
    Node { shown: i.to_string(), kind: Kind::Integer(i) }
}

fn truth(b: bool) -> Node {
    Node { shown: b.to_string(), kind: Kind::Boolean(b) }
}

fn list(items: Vec<Node>) -> Node {
    let shown: Vec<String> = items.iter().map(|n| n.shown.clone()).collect();
    Node { shown: format!("[{}]", shown.join(", ")), kind: Kind::Array(items) }
}

fn texts(items: &[&str]) -> Node {
    list(items.iter().map(|s| text(s)).collect())
}

fn entry(settings: Vec<(&str, Node)>) -> Node {
    let mut table = Table::new();
    for (name, value) in settings {
        table.insert(name.to_string(), value);
    }
    Node { shown: "{ .. }".to_string(), kind: Kind::Table(table) }
}

fn many_answers(n: usize) -> Node {
    list((0..n).map(|i| text(&format!("answer {}", i))).collect())
}

fn with_threshold(threshold: i64, answers: usize) -> Node {
    entry(vec![
        ("hints", texts(&["first", "second"])),
        ("length", number(10)),
        ("threshold", number(threshold)),
        ("answers", many_answers(answers)),
    ])
}

#[test]
fn a_complete_entry_is_a_quiz() {
    let quiz = Quiz::try_new(&entry(vec![
        ("hints", texts(&["h1", "h2"])),
        ("length", number(4)),
        ("answers", texts(&["x", "y"])),
        ("threshold", number(2)),
    ]))
    .unwrap();
    assert_eq!(quiz.hints(), &vec!["h1".to_string(), "h2".to_string()]);
    assert_eq!(quiz.length(), 4);
    assert_eq!(quiz.answers(), &vec!["x".to_string(), "y".to_string()]);
    assert_eq!(quiz.threshold(), 2);
}

#[test]
fn settings_may_come_in_any_order() {
    let quiz = Quiz::try_new(&entry(vec![
        ("threshold", number(1)),
        ("answers", texts(&["b", "a", "b"])),
        ("length", number(0)),
        ("hints", texts(&["second?", "first?"])),
    ]))
    .unwrap();
    assert_eq!(quiz.hints(), &vec!["second?".to_string(), "first?".to_string()]);
    assert_eq!(quiz.length(), 0);
    assert_eq!(quiz.answers(), &vec!["b".to_string(), "a".to_string(), "b".to_string()]);
    assert_eq!(quiz.threshold(), 1);
}

#[test]
fn a_missing_threshold_is_one() {
    let quiz = Quiz::try_new(&entry(vec![
        ("hints", texts(&["h1", "h2"])),
        ("length", number(4)),
        ("answers", texts(&["x"])),
    ]))
    .unwrap();
    assert_eq!(quiz.threshold(), 1);
}

#[test]
fn threshold_zero_is_rejected() {
    assert_eq!(
        Quiz::try_new(&with_threshold(0, 5)).unwrap_err(),
        QuizError::ThresholdOutOfRange { value: 0 }
    );
}

#[test]
fn threshold_193_is_rejected() {
    assert_eq!(
        Quiz::try_new(&with_threshold(193, 200)).unwrap_err(),
        QuizError::ThresholdOutOfRange { value: 193 }
    );
}

#[test]
fn threshold_one_is_accepted() {
    let quiz = Quiz::try_new(&with_threshold(1, 1)).unwrap();
    assert_eq!(quiz.threshold(), 1);
    assert_eq!(quiz.answers().len(), 1);
}

#[test]
fn threshold_192_is_accepted() {
    let quiz = Quiz::try_new(&with_threshold(192, 192)).unwrap();
    assert_eq!(quiz.threshold(), 192);
    assert_eq!(quiz.answers().len(), 192);
}

#[test]
fn thresholds_beyond_a_byte_are_rejected() {
    assert_eq!(
        Quiz::try_new(&with_threshold(256, 300)).unwrap_err(),
        QuizError::ThresholdOutOfRange { value: 256 }
    );
    assert_eq!(
        Quiz::try_new(&with_threshold(-1, 3)).unwrap_err(),
        QuizError::ThresholdOutOfRange { value: -1 }
    );
    assert_eq!(
        Quiz::try_new(&with_threshold(255, 300)).unwrap_err(),
        QuizError::ThresholdOutOfRange { value: 255 }
    );
}

#[test]
fn too_few_answers_are_rejected_with_both_numbers() {
    let error = Quiz::try_new(&with_threshold(3, 2)).unwrap_err();
    assert_eq!(error, QuizError::InsufficientAnswers { required: 3, given: 2 });
    assert_eq!(
        error.message(),
        "insufficient answers for required threshold: 2 given, 3 required"
    );
}

#[test]
fn no_answers_at_all_are_too_few() {
    let error = Quiz::try_new(&entry(vec![
        ("hints", texts(&["h1", "h2"])),
        ("length", number(4)),
    ]))
    .unwrap_err();
    assert_eq!(error, QuizError::InsufficientAnswers { required: 1, given: 0 });
}

#[test]
fn hints_must_be_two() {
    for given in [0usize, 1, 3] {
        let hints: Vec<Node> = (0..given).map(|i| text(&format!("hint {}", i))).collect();
        let error = Quiz::try_new(&entry(vec![
            ("hints", list(hints)),
            ("length", number(4)),
            ("answers", texts(&["x"])),
        ]))
        .unwrap_err();
        assert_eq!(error, QuizError::HintCount { given });
    }
    let error = Quiz::try_new(&entry(vec![("length", number(4)), ("answers", texts(&["x"]))]))
        .unwrap_err();
    assert_eq!(error, QuizError::HintCount { given: 0 });
    assert_eq!(error.message(), "hints must be exactly two: 0 given");
}

#[test]
fn length_must_be_declared() {
    let error = Quiz::try_new(&entry(vec![
        ("hints", texts(&["h1", "h2"])),
        ("answers", texts(&["x"])),
    ]))
    .unwrap_err();
    assert_eq!(error, QuizError::LengthMissing);
    assert_eq!(error.message(), "length must be a non-negative number: none is declared");
}

#[test]
fn length_must_not_be_negative() {
    let error = Quiz::try_new(&entry(vec![
        ("hints", texts(&["h1", "h2"])),
        ("length", number(-4)),
        ("answers", texts(&["x"])),
    ]))
    .unwrap_err();
    assert_eq!(error, QuizError::LengthOutOfRange { value: -4 });
    assert_eq!(error.message(), "length must be a non-negative number: -4 is out of range");
}

#[test]
fn length_must_fit_in_32_bits() {
    let quiz = Quiz::try_new(&entry(vec![
        ("hints", texts(&["h1", "h2"])),
        ("length", number(4294967295)),
        ("answers", texts(&["x"])),
    ]))
    .unwrap();
    assert_eq!(quiz.length(), 4294967295);
    let error = Quiz::try_new(&entry(vec![
        ("hints", texts(&["h1", "h2"])),
        ("length", number(4294967296)),
        ("answers", texts(&["x"])),
    ]))
    .unwrap_err();
    assert_eq!(error, QuizError::LengthOutOfRange { value: 4294967296 });
}

#[test]
fn an_entry_must_be_a_table() {
    let error = Quiz::try_new(&number(5)).unwrap_err();
    assert_eq!(error, QuizError::NotATable { found: "5".to_string() });
    assert_eq!(error.message(), "5 must be a table");
    let error = Quiz::try_new(&texts(&["a"])).unwrap_err();
    assert_eq!(error, QuizError::NotATable { found: "[\"a\"]".to_string() });
}

#[test]
fn wrong_kinds_are_reported_with_the_value() {
    let error = Quiz::try_new(&entry(vec![("hints", text("one"))])).unwrap_err();
    assert_eq!(error, QuizError::HintsNotArray { found: "\"one\"".to_string() });
    assert_eq!(error.message(), "hints \"one\" must be an array");

    let error =
        Quiz::try_new(&entry(vec![("hints", list(vec![text("a"), number(7), truth(true)]))]))
            .unwrap_err();
    assert_eq!(error, QuizError::HintNotString { found: "7".to_string() });
    assert_eq!(error.message(), "hint 7 must be a string");

    let error = Quiz::try_new(&entry(vec![("length", text("long"))])).unwrap_err();
    assert_eq!(error, QuizError::LengthNotInteger { found: "\"long\"".to_string() });
    assert_eq!(error.message(), "length \"long\" must be a number");

    let error = Quiz::try_new(&entry(vec![("answers", number(3))])).unwrap_err();
    assert_eq!(error, QuizError::AnswersNotArray { found: "3".to_string() });
    assert_eq!(error.message(), "answers 3 must be an array");

    let error = Quiz::try_new(&entry(vec![("answers", list(vec![truth(false), number(1)]))]))
        .unwrap_err();
    assert_eq!(error, QuizError::AnswerNotString { found: "false".to_string() });
    assert_eq!(error.message(), "answer false must be a string");

    let error = Quiz::try_new(&entry(vec![("threshold", truth(true))])).unwrap_err();
    assert_eq!(error, QuizError::ThresholdNotInteger { found: "true".to_string() });
    assert_eq!(error.message(), "threshold true must be a number");
}

#[test]
fn an_unknown_setting_is_reported() {
    let error = Quiz::try_new(&entry(vec![
        ("hints", texts(&["h1", "h2"])),
        ("length", number(4)),
        ("answers", texts(&["x"])),
        ("hint", texts(&["h3"])),
    ]))
    .unwrap_err();
    assert_eq!(error, QuizError::UnknownKey { key: "hint".to_string() });
    assert_eq!(
        error.message(),
        "\"hint\" is not a valid setting; the settings are \"hints\", \"length\", \"answers\" and \"threshold\""
    );
}

#[test]
fn the_first_faulty_setting_decides() {
    let error = Quiz::try_new(&entry(vec![
        ("length", text("long")),
        ("comment", number(1)),
        ("threshold", number(1000)),
    ]))
    .unwrap_err();
    assert_eq!(error, QuizError::LengthNotInteger { found: "\"long\"".to_string() });

    let error = Quiz::try_new(&entry(vec![
        ("comment", number(1)),
        ("length", text("long")),
    ]))
    .unwrap_err();
    assert_eq!(error, QuizError::UnknownKey { key: "comment".to_string() });
}

#[test]
fn faulty_settings_come_before_missing_ones() {
    let error = Quiz::try_new(&entry(vec![
        ("hints", texts(&["only one"])),
        ("threshold", number(300)),
    ]))
    .unwrap_err();
    assert_eq!(error, QuizError::ThresholdOutOfRange { value: 300 });
}

#[test]
fn the_hint_count_comes_before_the_threshold() {
    let error = Quiz::try_new(&entry(vec![
        ("threshold", number(0)),
        ("hints", texts(&["only one"])),
        ("length", number(1)),
    ]))
    .unwrap_err();
    assert_eq!(error, QuizError::HintCount { given: 1 });

    let error = Quiz::try_new(&entry(vec![
        ("threshold", number(0)),
        ("hints", texts(&["one", "two"])),
    ]))
    .unwrap_err();
    assert_eq!(error, QuizError::LengthMissing);

    let error = Quiz::try_new(&entry(vec![
        ("threshold", number(200)),
        ("hints", texts(&["one", "two"])),
        ("length", number(1)),
    ]))
    .unwrap_err();
    assert_eq!(error, QuizError::ThresholdOutOfRange { value: 200 });
}

#[test]
fn threshold_messages_name_the_value() {
    let error = QuizError::ThresholdOutOfRange { value: 193 };
    assert_eq!(error.message(), "threshold must be from 1 to 192: 193 is out of range");
    let error = QuizError::ThresholdOutOfRange { value: -12 };
    assert_eq!(error.message(), "threshold must be from 1 to 192: -12 is out of range");
    let error = QuizError::LengthOutOfRange { value: i64::MIN };
    assert_eq!(
        error.message(),
        "length must be a non-negative number: -9223372036854775808 is out of range"
    );
}
