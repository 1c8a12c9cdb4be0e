//! Validation of one quiz entry.

use crate::document::{Kind, Node};
use crate::pairs::{found, keys_differ, lemma_found_step};
use crate::text::{framed, integer_text, signed_decimal, text_views};
use vstd::prelude::*;

verus! {

/// The largest number of answers that a quiz can ask for.
pub const MAX_THRESHOLD: u8 = 192;

/// The number of hints of every quiz.
pub const HINT_COUNT: usize = 2;

/// A validated quiz, as a mathematical value.
pub struct QuizView {
    /// The hints, in order.
    pub hints: Seq<Seq<char>>,
    /// The length of the song.
    pub length: u32,
    /// The accepted answers, in the order of their declaration.
    pub answers: Seq<Seq<char>>,
    /// How many of the answers a player has to give.
    pub threshold: u8,
}

impl QuizView {
    /// What holds of every validated quiz.
    pub open spec fn wf(self) -> bool {
        &&& self.hints.len() == HINT_COUNT
        &&& 1 <= self.threshold <= MAX_THRESHOLD
        &&& self.answers.len() >= self.threshold
    }
}

/// Why an entry is no quiz, as a mathematical value.
pub enum QuizErrorView {
    NotATable { found: Seq<char> },
    UnknownKey { key: Seq<char> },
    HintsNotArray { found: Seq<char> },
    HintNotString { found: Seq<char> },
    LengthNotInteger { found: Seq<char> },
    LengthOutOfRange { value: int },
    AnswersNotArray { found: Seq<char> },
    AnswerNotString { found: Seq<char> },
    ThresholdNotInteger { found: Seq<char> },
    ThresholdOutOfRange { value: int },
    HintCount { given: nat },
    LengthMissing,
    InsufficientAnswers { required: nat, given: nat },
}

impl QuizErrorView {
    /// The message that reports the error.
    pub open spec fn message(self) -> Seq<char> {
        match self {
            QuizErrorView::NotATable { found } => found + " must be a table"@,
            QuizErrorView::UnknownKey { key } => "\""@ + key
                + "\" is not a valid setting; the settings are \"hints\", \"length\", \"answers\" and \"threshold\""@,
            QuizErrorView::HintsNotArray { found } => "hints "@ + found + " must be an array"@,
            QuizErrorView::HintNotString { found } => "hint "@ + found + " must be a string"@,
            QuizErrorView::LengthNotInteger { found } => "length "@ + found
                + " must be a number"@,
            QuizErrorView::LengthOutOfRange { value } => "length must be a non-negative number: "@
                + signed_decimal(value) + " is out of range"@,
            QuizErrorView::AnswersNotArray { found } => "answers "@ + found
                + " must be an array"@,
            QuizErrorView::AnswerNotString { found } => "answer "@ + found
                + " must be a string"@,
            QuizErrorView::ThresholdNotInteger { found } => "threshold "@ + found
                + " must be a number"@,
            QuizErrorView::ThresholdOutOfRange { value } => "threshold must be from 1 to 192: "@
                + signed_decimal(value) + " is out of range"@,
            QuizErrorView::HintCount { given } => "hints must be exactly two: "@ + signed_decimal(
                given as int,
            ) + " given"@,
            QuizErrorView::LengthMissing => "length must be a non-negative number: none is declared"@,
            QuizErrorView::InsufficientAnswers { required, given } => {
                "insufficient answers for required threshold: "@ + signed_decimal(given as int)
                    + " given, "@ + signed_decimal(required as int) + " required"@
            },
        }
    }
}

/// Why an entry is no quiz. `found` is the text that shows the offending value.
#[derive(Debug, Clone, PartialEq, Eq)]
pub enum QuizError {
    /// The entry is not a table.
    NotATable { found: String },
    /// The entry has a setting that is none of the four. Unlike the others,
    /// this one is reported without the entry's title.
    UnknownKey { key: String },
    /// The hints are not an array.
    HintsNotArray { found: String },
    /// A hint is not a string.
    HintNotString { found: String },
    /// The length is not an integer.
    LengthNotInteger { found: String },
    /// The length is negative or too large.
    LengthOutOfRange { value: i64 },
    /// The answers are not an array.
    AnswersNotArray { found: String },
    /// An answer is not a string.
    AnswerNotString { found: String },
    /// The threshold is not an integer.
    ThresholdNotInteger { found: String },
    /// The threshold is not between 1 and `MAX_THRESHOLD`.
    ThresholdOutOfRange { value: i64 },
    /// There are not exactly two hints.
    HintCount { given: usize },
    /// No length is declared.
    LengthMissing,
    /// There are fewer answers than the threshold asks for.
    InsufficientAnswers { required: u8, given: usize },
}

impl View for QuizError {
    type V = QuizErrorView;

    open spec fn view(&self) -> QuizErrorView {
        match *self {
            QuizError::NotATable { found } => QuizErrorView::NotATable { found: found@ },
            QuizError::UnknownKey { key } => QuizErrorView::UnknownKey { key: key@ },
            QuizError::HintsNotArray { found } => QuizErrorView::HintsNotArray { found: found@ },
            QuizError::HintNotString { found } => QuizErrorView::HintNotString { found: found@ },
            QuizError::LengthNotInteger { found } => QuizErrorView::LengthNotInteger {
                found: found@,
            },
            QuizError::LengthOutOfRange { value } => QuizErrorView::LengthOutOfRange {
                value: value as int,
            },
            QuizError::AnswersNotArray { found } => QuizErrorView::AnswersNotArray {
                found: found@,
            },
            QuizError::AnswerNotString { found } => QuizErrorView::AnswerNotString {
                found: found@,
            },
            QuizError::ThresholdNotInteger { found } => QuizErrorView::ThresholdNotInteger {
                found: found@,
            },
            QuizError::ThresholdOutOfRange { value } => QuizErrorView::ThresholdOutOfRange {
                value: value as int,
            },
            QuizError::HintCount { given } => QuizErrorView::HintCount { given: given as nat },
            QuizError::LengthMissing => QuizErrorView::LengthMissing,
            QuizError::InsufficientAnswers { required, given } => {
                QuizErrorView::InsufficientAnswers { required: required as nat, given: given as nat }
            },
        }
    }
}

impl QuizError {
    /// The message that reports the error.
    pub fn message(&self) -> (s: String)
        ensures
            s@ == self@.message(),
    {
        match self {
            QuizError::NotATable { found } => {
                let mut s = found.clone();
                s.append(" must be a table");
                s
            },
            QuizError::UnknownKey { key } => framed(
                "\"",
                key.as_str(),
                "\" is not a valid setting; the settings are \"hints\", \"length\", \"answers\" and \"threshold\"",
            ),
            QuizError::HintsNotArray { found } => framed(
                "hints ",
                found.as_str(),
                " must be an array",
            ),
            QuizError::HintNotString { found } => framed(
                "hint ",
                found.as_str(),
                " must be a string",
            ),
            QuizError::LengthNotInteger { found } => framed(
                "length ",
                found.as_str(),
                " must be a number",
            ),
            QuizError::LengthOutOfRange { value } => framed(
                "length must be a non-negative number: ",
                integer_text(*value as i128).as_str(),
                " is out of range",
            ),
            QuizError::AnswersNotArray { found } => framed(
                "answers ",
                found.as_str(),
                " must be an array",
            ),
            QuizError::AnswerNotString { found } => framed(
                "answer ",
                found.as_str(),
                " must be a string",
            ),
            QuizError::ThresholdNotInteger { found } => framed(
                "threshold ",
                found.as_str(),
                " must be a number",
            ),
            QuizError::ThresholdOutOfRange { value } => framed(
                "threshold must be from 1 to 192: ",
                integer_text(*value as i128).as_str(),
                " is out of range",
            ),
            QuizError::HintCount { given } => framed(
                "hints must be exactly two: ",
                integer_text(*given as i128).as_str(),
                " given",
            ),
            QuizError::LengthMissing => String::from_str(
                "length must be a non-negative number: none is declared",
            ),
            QuizError::InsufficientAnswers { required, given } => {
                let mut s = framed(
                    "insufficient answers for required threshold: ",
                    integer_text(*given as i128).as_str(),
                    " given, ",
                );
                s.append(integer_text(*required as i128).as_str());
                s.append(" required");
                s
            },
        }
    }
}

/// The list settings of an entry.
#[derive(Clone, Copy)]
pub enum List {
    Hints,
    Answers,
}

/// The number settings of an entry.
#[derive(Clone, Copy)]
pub enum Number {
    Length,
    Threshold,
}

/// The string that `v` holds, where it is a string.
pub open spec fn string_of(v: Node) -> Seq<char> {
    match v.kind {
        Kind::String(s) => s@,
        _ => Seq::empty(),
    }
}

/// The integer that `v` holds, where it is an integer.
pub open spec fn integer_of(v: Node) -> int {
    match v.kind {
        Kind::Integer(i) => i as int,
        _ => 0,
    }
}

/// The strings of the array `v`, in order; nothing where `v` is no array.
pub open spec fn texts_of(v: Node) -> Seq<Seq<char>> {
    match v.kind {
        Kind::Array(items) => Seq::new(items@.len(), |i: int| string_of(items@[i])),
        _ => Seq::empty(),
    }
}

/// `i` is the first position of `items` that holds no string.
pub open spec fn is_first_non_string(items: Seq<Node>, i: int) -> bool {
    &&& 0 <= i < items.len()
    &&& !(items[i].kind is String)
    &&& forall|j: int| 0 <= j < i ==> (#[trigger] items[j]).kind is String
}

/// What is wrong with `v` as a list of strings, if anything: it must be an
/// array, and the first element that is no string is reported.
pub open spec fn list_fault(v: Node, which: List) -> Option<QuizErrorView> {
    match v.kind {
        Kind::Array(items) => {
            if exists|i: int| is_first_non_string(items@, i) {
                let found = items@[choose|i: int| is_first_non_string(items@, i)].shown@;
                Some(
                    match which {
                        List::Hints => QuizErrorView::HintNotString { found },
                        List::Answers => QuizErrorView::AnswerNotString { found },
                    },
                )
            } else {
                None
            }
        },
        _ => Some(
            match which {
                List::Hints => QuizErrorView::HintsNotArray { found: v.shown@ },
                List::Answers => QuizErrorView::AnswersNotArray { found: v.shown@ },
            },
        ),
    }
}

/// The largest value that a number setting can be read as: a length fits in
/// 32 bits, a threshold in 8. (Which thresholds a quiz may have is decided
/// once all settings are read.)
pub open spec fn number_limit(which: Number) -> int {
    match which {
        Number::Length => u32::MAX as int,
        Number::Threshold => u8::MAX as int,
    }
}

/// What is wrong with `v` as a number, if anything: it must be an integer
/// from 0 to the setting's limit.
pub open spec fn number_fault(v: Node, which: Number) -> Option<QuizErrorView> {
    match v.kind {
        Kind::Integer(i) => {
            if 0 <= i <= number_limit(which) {
                None
            } else {
                Some(
                    match which {
                        Number::Length => QuizErrorView::LengthOutOfRange { value: i as int },
                        Number::Threshold => QuizErrorView::ThresholdOutOfRange { value: i as int },
                    },
                )
            }
        },
        _ => Some(
            match which {
                Number::Length => QuizErrorView::LengthNotInteger { found: v.shown@ },
                Number::Threshold => QuizErrorView::ThresholdNotInteger { found: v.shown@ },
            },
        ),
    }
}

/// What is wrong with the setting `key`, declared as `v`, if anything. A key
/// that is none of the four is a fault whatever it is declared as.
pub open spec fn setting_fault(key: Seq<char>, v: Node) -> Option<QuizErrorView> {
    if key == "hints"@ {
        list_fault(v, List::Hints)
    } else if key == "length"@ {
        number_fault(v, Number::Length)
    } else if key == "answers"@ {
        list_fault(v, List::Answers)
    } else if key == "threshold"@ {
        number_fault(v, Number::Threshold)
    } else {
        Some(QuizErrorView::UnknownKey { key })
    }
}

/// `i` is the first position of `settings` whose setting has a fault.
pub open spec fn is_first_fault(settings: Seq<(Seq<char>, Node)>, i: int) -> bool {
    &&& 0 <= i < settings.len()
    &&& setting_fault(settings[i].0, settings[i].1) is Some
    &&& forall|j: int|
        0 <= j < i ==> setting_fault((#[trigger] settings[j]).0, settings[j].1) is None
}

/// The strings declared under `key`; nothing where the key is missing.
pub open spec fn declared_texts(settings: Seq<(Seq<char>, Node)>, key: Seq<char>) -> Seq<
    Seq<char>,
> {
    match found(settings, key) {
        Some(v) => texts_of(v),
        None => Seq::empty(),
    }
}

/// The integer declared under `key`, if the key is there.
pub open spec fn declared_integer(settings: Seq<(Seq<char>, Node)>, key: Seq<char>) -> Option<
    int,
> {
    match found(settings, key) {
        Some(v) => Some(integer_of(v)),
        None => None,
    }
}

/// The threshold of the settings: the declared one, or 1.
pub open spec fn declared_threshold(settings: Seq<(Seq<char>, Node)>) -> int {
    match declared_integer(settings, "threshold"@) {
        Some(t) => t,
        None => 1,
    }
}

/// The quiz that the settings of a table describe, or why they describe none.
///
/// The fault of the first faulty setting wins. Where no setting has a fault:
/// there must be two hints, a length, a threshold from 1 to `MAX_THRESHOLD`
/// (1 where none is declared) and at least as many answers as the threshold;
/// the first of these that fails is reported.
pub open spec fn validated(settings: Seq<(Seq<char>, Node)>) -> Result<QuizView, QuizErrorView> {
    let hints = declared_texts(settings, "hints"@);
    let answers = declared_texts(settings, "answers"@);
    let length = declared_integer(settings, "length"@);
    let threshold = declared_threshold(settings);
    if exists|i: int| is_first_fault(settings, i) {
        let i = choose|i: int| is_first_fault(settings, i);
        Err(setting_fault(settings[i].0, settings[i].1)->0)
    } else if hints.len() != HINT_COUNT {
        Err(QuizErrorView::HintCount { given: hints.len() })
    } else if length is None {
        Err(QuizErrorView::LengthMissing)
    } else if threshold < 1 || threshold > MAX_THRESHOLD {
        Err(QuizErrorView::ThresholdOutOfRange { value: threshold })
    } else if answers.len() < threshold {
        Err(
            QuizErrorView::InsufficientAnswers {
                required: threshold as nat,
                given: answers.len(),
            },
        )
    } else {
        Ok(QuizView { hints, length: length->0 as u32, answers, threshold: threshold as u8 })
    }
}

/// The quiz that the entry `entry` describes, or why it describes none. An
/// entry must be a table.
pub open spec fn quiz_of(entry: Node) -> Result<QuizView, QuizErrorView> {
    match entry.kind {
        Kind::Table(table) => validated(table@),
        _ => Err(QuizErrorView::NotATable { found: entry.shown@ }),
    }
}

/// The four setting names differ from one another.
pub proof fn lemma_setting_names_differ()
    ensures
        "hints"@ != "length"@,
        "hints"@ != "answers"@,
        "hints"@ != "threshold"@,
        "length"@ != "answers"@,
        "length"@ != "threshold"@,
        "answers"@ != "threshold"@,
{
    reveal_strlit("hints");
    reveal_strlit("length");
    reveal_strlit("answers");
    reveal_strlit("threshold");
    assert("hints"@.len() == 5);
    assert("length"@.len() == 6);
    assert("answers"@.len() == 7);
    assert("threshold"@.len() == 9);
}

/// Only one position is the first that holds no string.
pub proof fn lemma_first_non_string(items: Seq<Node>, i: int)
    requires
        is_first_non_string(items, i),
    ensures
        (choose|k: int| is_first_non_string(items, k)) == i,
{
    let k = choose|k: int| is_first_non_string(items, k);
    assert(is_first_non_string(items, k));
    if k < i {
        assert(items[k].kind is String);
    } else if i < k {
        assert(items[i].kind is String);
    }
}

/// Only one position is the first whose setting has a fault.
pub proof fn lemma_first_fault(settings: Seq<(Seq<char>, Node)>, i: int)
    requires
        is_first_fault(settings, i),
    ensures
        (choose|k: int| is_first_fault(settings, k)) == i,
{
    let k = choose|k: int| is_first_fault(settings, k);
    assert(is_first_fault(settings, k));
    if k < i {
        assert(setting_fault(settings[k].0, settings[k].1) is None);
    } else if i < k {
        assert(setting_fault(settings[i].0, settings[i].1) is None);
    }
}

/// A quiz that validation lets through is well-formed.
pub proof fn lemma_validated_wf(settings: Seq<(Seq<char>, Node)>)
    requires
        validated(settings) is Ok,
    ensures
        validated(settings)->Ok_0.wf(),
{
}

/// Whether no setting of `settings` has a fault.
pub open spec fn faultless(settings: Seq<(Seq<char>, Node)>) -> bool {
    forall|i: int|
        0 <= i < settings.len() ==> setting_fault((#[trigger] settings[i]).0, settings[i].1) is None
}

/// The threshold decides: an entry whose settings have no fault, with two
/// hints and a length, is a quiz if and only if its threshold lies from 1 to
/// `MAX_THRESHOLD` and it has at least that many answers. A threshold outside
/// these bounds is reported with its value; too few answers are reported with
/// the threshold and their number.
pub proof fn lemma_threshold_decides(settings: Seq<(Seq<char>, Node)>)
    requires
        faultless(settings),
        declared_texts(settings, "hints"@).len() == HINT_COUNT,
        declared_integer(settings, "length"@) is Some,
    ensures
        validated(settings) is Ok <==> 1 <= declared_threshold(settings) <= MAX_THRESHOLD
            && declared_texts(settings, "answers"@).len() >= declared_threshold(settings),
        !(1 <= declared_threshold(settings) <= MAX_THRESHOLD) ==> validated(settings) == Err::<
            QuizView,
            QuizErrorView,
        >(QuizErrorView::ThresholdOutOfRange { value: declared_threshold(settings) }),
        1 <= declared_threshold(settings) <= MAX_THRESHOLD && declared_texts(
            settings,
            "answers"@,
        ).len() < declared_threshold(settings) ==> validated(settings) == Err::<
            QuizView,
            QuizErrorView,
        >(
            QuizErrorView::InsufficientAnswers {
                required: declared_threshold(settings) as nat,
                given: declared_texts(settings, "answers"@).len(),
            },
        ),
{
    assert forall|i: int| !is_first_fault(settings, i) by {
        if 0 <= i < settings.len() {
            assert(setting_fault(settings[i].0, settings[i].1) is None);
        }
    }
}

/// A faulty setting is never let through: where some setting has a fault,
/// the entry is no quiz.
pub proof fn lemma_fault_is_reported(settings: Seq<(Seq<char>, Node)>, i: int)
    requires
        0 <= i < settings.len(),
        setting_fault(settings[i].0, settings[i].1) is Some,
    ensures
        validated(settings) is Err,
    decreases i,
{
    if forall|j: int| 0 <= j < i ==> setting_fault((#[trigger] settings[j]).0, settings[j].1) is None {
        assert(is_first_fault(settings, i));
    } else {
        let j = choose|j: int|
            0 <= j < i && !(setting_fault((#[trigger] settings[j]).0, settings[j].1) is None);
        lemma_fault_is_reported(settings, j);
    }
}

/// What validation returns, as a mathematical value.
pub open spec fn outcome(r: Result<Quiz, QuizError>) -> Result<QuizView, QuizErrorView> {
    match r {
        Ok(quiz) => Ok(quiz@),
        Err(e) => Err(e@),
    }
}

/// Reads `value` as a list of strings.
fn read_list(value: &Node, which: List) -> (r: Result<Vec<String>, QuizError>)
    ensures
        match r {
            Ok(texts) => list_fault(*value, which) is None && text_views(texts@) == texts_of(
                *value,
            ),
            Err(e) => list_fault(*value, which) == Some(e@),
        },
{
    match &value.kind {
        Kind::Array(items) => {
            let mut texts: Vec<String> = Vec::new();
            let mut i: usize = 0;
            while i < items.len()
                invariant
                    i <= items@.len(),
                    texts@.len() == i,
                    value.kind == Kind::Array(*items),
                    forall|j: int| 0 <= j < i ==> (#[trigger] items@[j]).kind is String,
                    forall|j: int| 0 <= j < i ==> (#[trigger] texts@[j])@ == string_of(items@[j]),
                decreases items@.len() - i,
            {
                match &items[i].kind {
                    Kind::String(text) => {
                        texts.push(text.clone());
                    },
                    _ => {
                        proof {
                            assert(is_first_non_string(items@, i as int));
                            lemma_first_non_string(items@, i as int);
                        }
                        let found = items[i].shown.clone();
                        return Err(
                            match which {
                                List::Hints => QuizError::HintNotString { found },
                                List::Answers => QuizError::AnswerNotString { found },
                            },
                        );
                    },
                }
                i = i + 1;
            }
            proof {
                assert forall|k: int| !is_first_non_string(items@, k) by {
                    if 0 <= k < items@.len() {
                        assert(items@[k].kind is String);
                    }
                }
                assert(text_views(texts@) =~= texts_of(*value));
            }
            Ok(texts)
        },
        _ => {
            let found = value.shown.clone();
            Err(
                match which {
                    List::Hints => QuizError::HintsNotArray { found },
                    List::Answers => QuizError::AnswersNotArray { found },
                },
            )
        },
    }
}

/// Reads `value` as a number from 0 to `limit`, the limit of the setting.
fn read_number(value: &Node, which: Number, limit: i64) -> (r: Result<i64, QuizError>)
    requires
        limit == number_limit(which),
    ensures
        match r {
            Ok(n) => number_fault(*value, which) is None && n == integer_of(*value) && 0 <= n
                <= limit,
            Err(e) => number_fault(*value, which) == Some(e@),
        },
{
    match &value.kind {
        Kind::Integer(n) => {
            let n: i64 = *n;
            if 0 <= n && n <= limit {
                Ok(n)
            } else {
                Err(
                    match which {
                        Number::Length => QuizError::LengthOutOfRange { value: n },
                        Number::Threshold => QuizError::ThresholdOutOfRange { value: n },
                    },
                )
            }
        },
        _ => {
            let found = value.shown.clone();
            Err(
                match which {
                    Number::Length => QuizError::LengthNotInteger { found },
                    Number::Threshold => QuizError::ThresholdNotInteger { found },
                },
            )
        },
    }
}

/// A validated quiz: two hints, a length, a threshold from 1 to
/// `MAX_THRESHOLD`, and at least as many answers as the threshold.
#[derive(Debug)]
pub struct Quiz {
    hints: Vec<String>,
    length: u32,
    answers: Vec<String>,
    threshold: u8,
}

impl View for Quiz {
    type V = QuizView;

    closed spec fn view(&self) -> QuizView {
        QuizView {
            hints: text_views(self.hints@),
            length: self.length,
            answers: text_views(self.answers@),
            threshold: self.threshold,
        }
    }
}

impl Quiz {
    #[verifier::type_invariant]
    spec fn valid(self) -> bool {
        self@.wf()
    }

    /// The two hints, in order.
    pub fn hints(&self) -> (hints: &Vec<String>)
        ensures
            text_views(hints@) == self@.hints,
            hints@.len() == HINT_COUNT,
    {
        proof {
            use_type_invariant(self);
        }
        &self.hints
    }

    /// The length of the song.
    pub fn length(&self) -> (length: u32)
        ensures
            length == self@.length,
    {
        self.length
    }

    /// The accepted answers, in the order of their declaration.
    pub fn answers(&self) -> (answers: &Vec<String>)
        ensures
            text_views(answers@) == self@.answers,
            answers@.len() >= self@.threshold,
    {
        proof {
            use_type_invariant(self);
        }
        &self.answers
    }

    /// How many of the answers a player has to give.
    pub fn threshold(&self) -> (threshold: u8)
        ensures
            threshold == self@.threshold,
            1 <= threshold <= MAX_THRESHOLD,
    {
        proof {
            use_type_invariant(self);
        }
        self.threshold
    }

    /// Validates one entry of the document. The result is the quiz that the
    /// entry describes, or the reason why it describes none.
    pub fn try_new(entry: &Node) -> (r: Result<Quiz, QuizError>)
        ensures
            outcome(r) == quiz_of(*entry),
    {
        let table = match &entry.kind {
            Kind::Table(table) => table,
            _ => {
                return Err(QuizError::NotATable { found: entry.shown.clone() });
            },
        };
        let settings = table.entries();
        let hints_key = String::from_str("hints");
        let length_key = String::from_str("length");
        let answers_key = String::from_str("answers");
        let threshold_key = String::from_str("threshold");
        let mut hints: Vec<String> = Vec::new();
        let mut length: Option<u32> = None;
        let mut answers: Vec<String> = Vec::new();
        let mut threshold: u8 = 1;
        let mut i: usize = 0;
        proof {
            assert(table@.take(0) =~= Seq::<(Seq<char>, Node)>::empty());
            assert(text_views(hints@) =~= Seq::<Seq<char>>::empty());
            assert(text_views(answers@) =~= Seq::<Seq<char>>::empty());
        }
        while i < settings.len()
            invariant
                i <= settings@.len(),
                entry.kind == Kind::Table(*table),
                settings@.len() == table@.len(),
                forall|k: int|
                    0 <= k < settings@.len() ==> (#[trigger] settings@[k]).0@ == table@[k].0
                        && settings@[k].1 == table@[k].1,
                keys_differ(table@),
                hints_key@ == "hints"@,
                length_key@ == "length"@,
                answers_key@ == "answers"@,
                threshold_key@ == "threshold"@,
                forall|j: int|
                    0 <= j < i ==> setting_fault((#[trigger] table@[j]).0, table@[j].1) is None,
                text_views(hints@) == declared_texts(table@.take(i as int), "hints"@),
                text_views(answers@) == declared_texts(table@.take(i as int), "answers"@),
                match length {
                    Some(n) => declared_integer(table@.take(i as int), "length"@) == Some(
                        n as int,
                    ),
                    None => declared_integer(table@.take(i as int), "length"@) is None,
                },
                threshold == declared_threshold(table@.take(i as int)),
            decreases settings@.len() - i,
        {
            let key = &settings[i].0;
            let value = &settings[i].1;
            proof {
                lemma_setting_names_differ();
                lemma_found_step(table@, i as int, "hints"@);
                lemma_found_step(table@, i as int, "length"@);
                lemma_found_step(table@, i as int, "answers"@);
                lemma_found_step(table@, i as int, "threshold"@);
                assert(table@[i as int].0 == key@);
                assert(table@[i as int].1 == *value);
            }
            let fault: Option<QuizError> = if *key == hints_key {
                match read_list(value, List::Hints) {
                    Ok(texts) => {
                        hints = texts;
                        None
                    },
                    Err(e) => Some(e),
                }
            } else if *key == length_key {
                match read_number(value, Number::Length, 0xffff_ffff) {
                    Ok(n) => {
                        length = Some(n as u32);
                        None
                    },
                    Err(e) => Some(e),
                }
            } else if *key == answers_key {
                match read_list(value, List::Answers) {
                    Ok(texts) => {
                        answers = texts;
                        None
                    },
                    Err(e) => Some(e),
                }
            } else if *key == threshold_key {
                match read_number(value, Number::Threshold, 0xff) {
                    Ok(n) => {
                        threshold = n as u8;
                        None
                    },
                    Err(e) => Some(e),
                }
            } else {
                Some(QuizError::UnknownKey { key: key.clone() })
            };
            match fault {
                Some(e) => {
                    proof {
                        assert(is_first_fault(table@, i as int));
                        lemma_first_fault(table@, i as int);
                    }
                    return Err(e);
                },
                None => {},
            }
            i = i + 1;
        }
        proof {
            assert(table@.take(i as int) =~= table@);
            assert forall|k: int| !is_first_fault(table@, k) by {
                if 0 <= k < table@.len() {
                    assert(setting_fault(table@[k].0, table@[k].1) is None);
                }
            }
        }
        if hints.len() != HINT_COUNT {
            return Err(QuizError::HintCount { given: hints.len() });
        }
        let length = match length {
            Some(n) => n,
            None => {
                return Err(QuizError::LengthMissing);
            },
        };
        if threshold == 0 || threshold > MAX_THRESHOLD {
            return Err(QuizError::ThresholdOutOfRange { value: threshold as i64 });
        }
        if answers.len() < threshold as usize {
            return Err(QuizError::InsufficientAnswers { required: threshold, given: answers.len() });
        }
        Ok(Quiz { hints, length, answers, threshold })
    }
}

} // verus!
