use music_quiz::config::{BuildError, Config, LoadError};
use music_quiz::document::{Kind, Node};
use music_quiz::quiz::QuizError;

const TWO_QUIZZES: &str = r#"
[A]
hints = ["h1", "h2"]
length = 4
threshold = 1
answers = ["x", "y"]

[B]
hints = ["h3", "h4"]
length = 5
threshold = 1
answers = ["y", "z"]
"#;

fn build(text: &str) -> Result<Config, BuildError> {
    Config::try_new(Node::parse(text).unwrap())
}

#[test]
fn two_quizzes_share_a_code() {
    let config = Config::load(TWO_QUIZZES).unwrap();
    assert_eq!(config.quiz_count(), 2);
    assert_eq!(config.titles(), &vec!["A".to_string(), "B".to_string()]);
    assert_eq!(config.hints1(), &vec!["h1".to_string(), "h3".to_string()]);
    assert_eq!(config.hints2(), &vec!["h2".to_string(), "h4".to_string()]);
    assert_eq!(config.lengths(), &vec![4u32, 5]);
    assert_eq!(config.thresholds(), &vec![1u8, 1]);
    let rows = config.answers();
    assert_eq!(rows, &vec![vec![2u64, 3], vec![3, 4]]);
    assert_eq!(rows[0][1], rows[1][0]);
    assert_ne!(rows[0][0], rows[1][1]);
    let table = config.table();
    assert_eq!(table.len(), 10);
    assert_eq!(table.lookup(&"x".to_string()), Some(2));
    assert_eq!(table.lookup(&"y".to_string()), Some(3));
    assert_eq!(table.lookup(&"z".to_string()), Some(4));
    assert_eq!(table.text_of(3), Some("y".to_string()));
    let entries = table.entries();
    assert_eq!(entries.len(), 10);
    assert_eq!(entries[0], ("kick #1".to_string(), 1000));
    assert_eq!(entries[6], ("kick #7".to_string(), 1006));
    assert_eq!(entries[7], ("x".to_string(), 2));
    assert_eq!(entries[8], ("y".to_string(), 3));
    assert_eq!(entries[9], ("z".to_string(), 4));
}

#[test]
fn the_artifact_lists_the_table_and_the_declarations() {
    let config = Config::load(TWO_QUIZZES).unwrap();
    let expected = r#"/*
[chatEvent]
__addr__: 0x58D900
kick #1 : 1000
kick #2 : 1001
kick #3 : 1002
kick #4 : 1003
kick #5 : 1004
kick #6 : 1005
kick #7 : 1006
x : 2
y : 3
z : 4
*/
const A = py_eval("lambda *args: EUDArray(args)");
const MusicNumber = 2;  //음악갯수
const MusicHint1 = A(Db("h1"), Db("h3"));
const MusicHint2 = A(Db("h2"), Db("h4"));
const MusicLength = A(4, 5);
const MusicAnswer = A(Db("A"), Db("B"));
const answerCount = A(1, 1);  // 맞춰야 넘어가는 개수
const answerLen = A(2, 2);  // 문제별 정답 총 개수
const answers = A(A(2, 3), A(3, 4));  // 문제별 채팅 인식 목록
const answerText = A(A(Db("x"), Db("y")), A(Db("y"), Db("z")));  // 문제별 실제 정답 텍스트"#;
    assert_eq!(config.export(), expected);
}

#[test]
fn the_artifact_of_an_empty_document() {
    let config = Config::load("").unwrap();
    assert_eq!(config.quiz_count(), 0);
    assert_eq!(config.table().len(), 7);
    let expected = r#"/*
[chatEvent]
__addr__: 0x58D900
kick #1 : 1000
kick #2 : 1001
kick #3 : 1002
kick #4 : 1003
kick #5 : 1004
kick #6 : 1005
kick #7 : 1006
*/
const A = py_eval("lambda *args: EUDArray(args)");
const MusicNumber = 0;  //음악갯수
const MusicHint1 = A(Db(""));
const MusicHint2 = A(Db(""));
const MusicLength = A();
const MusicAnswer = A(Db(""));
const answerCount = A();  // 맞춰야 넘어가는 개수
const answerLen = A();  // 문제별 정답 총 개수
const answers = A(A());  // 문제별 채팅 인식 목록
const answerText = A(A(Db("")));  // 문제별 실제 정답 텍스트"#;
    assert_eq!(config.export(), expected);
}

#[test]
fn the_artifact_of_one_quiz_with_a_moderation_command_as_answer() {
    let config = Config::load(
        r#"
["Song, the first"]
hints = ["a", "b"]
length = 123
threshold = 2
answers = ["one", "kick #2", "one", "two"]
"#,
    )
    .unwrap();
    assert_eq!(config.answers(), &vec![vec![2u64, 1001, 2, 3]]);
    let text = config.export();
    assert!(text.contains("one : 2\ntwo : 3\n*/"));
    assert!(text.contains("const MusicNumber = 1;"));
    assert!(text.contains("const MusicLength = A(123);"));
    assert!(text.contains("const MusicAnswer = A(Db(\"Song, the first\"));"));
    assert!(text.contains("const answerCount = A(2);"));
    assert!(text.contains("const answerLen = A(4);"));
    assert!(text.contains("const answers = A(A(2, 1001, 2, 3));"));
    assert!(text.contains(
        "const answerText = A(A(Db(\"one\"), Db(\"kick #2\"), Db(\"one\"), Db(\"two\")));"
    ));
}

#[test]
fn entries_are_taken_in_the_order_of_the_document() {
    let config = Config::load(
        r#"
[zebra]
hints = ["1", "2"]
length = 1
answers = ["late", "early"]

[aardvark]
hints = ["3", "4"]
length = 2
answers = ["early", "new"]
"#,
    )
    .unwrap();
    assert_eq!(config.titles(), &vec!["zebra".to_string(), "aardvark".to_string()]);
    assert_eq!(config.answers(), &vec![vec![2u64, 3], vec![3, 4]]);
    assert_eq!(config.thresholds(), &vec![1u8, 1]);
}

#[test]
fn the_first_invalid_entry_ends_the_build() {
    let error = build(
        r#"
[good]
hints = ["1", "2"]
length = 1
answers = ["a"]

[bad]
hints = ["1"]
length = 1
answers = ["a"]

[worse]
length = -1
"#,
    )
    .unwrap_err();
    assert_eq!(
        error,
        BuildError::Entry { title: "bad".to_string(), error: QuizError::HintCount { given: 1 } }
    );
    assert_eq!(error.message(), "entry 'bad' error: hints must be exactly two: 1 given");
}

#[test]
fn an_invalid_entry_is_reported_with_its_title() {
    let error = build("[A]\nhints = [\"h1\", \"h2\"]\nlength = 4\nthreshold = 3\nanswers = [\"x\", \"y\"]\n")
        .unwrap_err();
    assert_eq!(
        error,
        BuildError::Entry {
            title: "A".to_string(),
            error: QuizError::InsufficientAnswers { required: 3, given: 2 },
        }
    );
    assert_eq!(
        error.message(),
        "entry 'A' error: insufficient answers for required threshold: 2 given, 3 required"
    );
}

#[test]
fn an_unknown_setting_is_reported_without_a_title() {
    let error = build(
        r#"
[A]
hints = ["h1", "h2"]
length = 4
lenght = 5
answers = ["x"]
"#,
    )
    .unwrap_err();
    assert_eq!(error, BuildError::UnknownKey { key: "lenght".to_string() });
    assert_eq!(
        error.message(),
        "\"lenght\" is not a valid setting; the settings are \"hints\", \"length\", \"answers\" and \"threshold\""
    );
}

#[test]
fn an_earlier_invalid_entry_comes_before_an_unknown_setting() {
    let error = build(
        r#"
[first]
hints = ["h1", "h2"]
answers = ["x"]

[second]
unknown = 1
"#,
    )
    .unwrap_err();
    assert_eq!(
        error,
        BuildError::Entry { title: "first".to_string(), error: QuizError::LengthMissing }
    );
}

#[test]
fn an_entry_that_is_no_table_is_reported_with_its_value() {
    let error = build("A = 5\n").unwrap_err();
    assert_eq!(
        error,
        BuildError::Entry {
            title: "A".to_string(),
            error: QuizError::NotATable { found: "5".to_string() },
        }
    );
    assert_eq!(error.message(), "entry 'A' error: 5 must be a table");
}

#[test]
fn values_of_the_wrong_kind_are_shown_as_the_document_writes_them() {
    let error = build("[A]\nlength = 1.5\n").unwrap_err();
    assert_eq!(
        error,
        BuildError::Entry {
            title: "A".to_string(),
            error: QuizError::LengthNotInteger { found: "1.5".to_string() },
        }
    );
    let error = build("[A]\nhints = [\"a\", true]\n").unwrap_err();
    assert_eq!(
        error,
        BuildError::Entry {
            title: "A".to_string(),
            error: QuizError::HintNotString { found: "true".to_string() },
        }
    );
    let error = build("[A]\nanswers = \"just one\"\n").unwrap_err();
    assert_eq!(
        error,
        BuildError::Entry {
            title: "A".to_string(),
            error: QuizError::AnswersNotArray { found: "\"just one\"".to_string() },
        }
    );
    let error = build("[A]\nthreshold = 1979-05-27\n").unwrap_err();
    assert_eq!(
        error,
        BuildError::Entry {
            title: "A".to_string(),
            error: QuizError::ThresholdNotInteger { found: "1979-05-27".to_string() },
        }
    );
}

#[test]
fn a_document_must_be_a_table() {
    let document = Node { shown: "5".to_string(), kind: Kind::Integer(5) };
    let error = Config::try_new(document).unwrap_err();
    assert_eq!(error, BuildError::NotATable);
    assert_eq!(error.message(), "the document must be a table of entries");
}

#[test]
fn a_text_that_is_no_document_is_a_syntax_error() {
    match Config::load("[A\nhints = ") {
        Err(LoadError::Syntax(error)) => assert!(!error.message.is_empty()),
        other => panic!("expected a syntax error, got {:?}", other.map(|c| c.quiz_count())),
    }
}

#[test]
fn a_build_error_comes_through_loading() {
    let error = Config::load("[A]\nhints = []\n").map(|c| c.quiz_count()).unwrap_err();
    assert_eq!(
        error,
        LoadError::Build(BuildError::Entry {
            title: "A".to_string(),
            error: QuizError::HintCount { given: 0 },
        })
    );
}

#[test]
fn builds_do_not_share_their_tables() {
    let first = Config::load(TWO_QUIZZES).unwrap();
    let second = Config::load("[C]\nhints = [\"a\", \"b\"]\nlength = 1\nanswers = [\"z\"]\n").unwrap();
    assert_eq!(first.table().lookup(&"z".to_string()), Some(4));
    assert_eq!(second.table().lookup(&"z".to_string()), Some(2));
    assert_eq!(second.table().len(), 8);
}
