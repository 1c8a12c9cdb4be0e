//! The builder: folds the entries of a document into the finished model.

use crate::codes::{
    code_at, code_of, index_of, lemma_index_of, lemma_resolved_all_concat,
    lemma_resolved_table_inv, reserved_texts, resolved_all, resolved_table, table_inv,
    IdentifierTable,
};
use crate::document::{parsed, Kind, SyntaxError, Node};
use crate::quiz::{quiz_of, Quiz, QuizError, QuizErrorView, QuizView};
use crate::text::{framed, text_views};
use vstd::prelude::*;

verus! {

/// The finished model, as a mathematical value. The first six sequences have
/// one item for each quiz, in the order of the document.
#[verifier::ext_equal]
pub struct ConfigView {
    /// The title of each quiz.
    pub titles: Seq<Seq<char>>,
    /// The first hint of each quiz.
    pub hints1: Seq<Seq<char>>,
    /// The second hint of each quiz.
    pub hints2: Seq<Seq<char>>,
    /// The length of each quiz.
    pub lengths: Seq<u32>,
    /// The threshold of each quiz.
    pub thresholds: Seq<u8>,
    /// The codes of the answers of each quiz, in the order of the answers.
    pub answers: Seq<Seq<int>>,
    /// The texts of the identifier table, in the order in which they came in.
    pub table: Seq<Seq<char>>,
}

/// Whether `table` has given out `code`.
pub open spec fn has_code(table: Seq<Seq<char>>, code: int) -> bool {
    exists|i: int| 0 <= i < table.len() && #[trigger] code_at(i) == code
}

impl ConfigView {
    /// The number of quizzes.
    pub open spec fn quiz_count(self) -> nat {
        self.titles.len()
    }

    /// What holds of every finished model: the sequences agree in length, the
    /// table meets its invariant, and it has given out every code that
    /// stands in a quiz.
    pub open spec fn wf(self) -> bool {
        &&& self.hints1.len() == self.quiz_count()
        &&& self.hints2.len() == self.quiz_count()
        &&& self.lengths.len() == self.quiz_count()
        &&& self.thresholds.len() == self.quiz_count()
        &&& self.answers.len() == self.quiz_count()
        &&& table_inv(self.table)
        &&& forall|q: int, k: int|
            0 <= q < self.answers.len() && 0 <= k < self.answers[q].len() ==> has_code(
                self.table,
                #[trigger] self.answers[q][k],
            )
    }
}

/// Why a document gives no model, as a mathematical value.
pub enum BuildErrorView {
    NotATable,
    Entry { title: Seq<char>, error: QuizErrorView },
    UnknownKey { key: Seq<char> },
}

/// Why a document gives no model.
#[derive(Debug, Clone, PartialEq, Eq)]
pub enum BuildError {
    /// The document is not a table of entries.
    NotATable,
    /// The entry with this title is no quiz.
    Entry { title: String, error: QuizError },
    /// An entry has a setting that is none of the four. This one is set apart
    /// from the errors of an entry: the author has made a mistake that nothing
    /// may guess past, so no entry is named and the whole run has to stop.
    UnknownKey { key: String },
}

impl View for BuildError {
    type V = BuildErrorView;

    open spec fn view(&self) -> BuildErrorView {
        match *self {
            BuildError::NotATable => BuildErrorView::NotATable,
            BuildError::Entry { title, error } => BuildErrorView::Entry {
                title: title@,
                error: error@,
            },
            BuildError::UnknownKey { key } => BuildErrorView::UnknownKey { key: key@ },
        }
    }
}

impl BuildErrorView {
    /// The message that reports the error.
    pub open spec fn message(self) -> Seq<char> {
        match self {
            BuildErrorView::NotATable => "the document must be a table of entries"@,
            BuildErrorView::Entry { title, error } => "entry '"@ + title + "' error: "@
                + error.message(),
            BuildErrorView::UnknownKey { key } => (QuizErrorView::UnknownKey { key }).message(),
        }
    }
}

impl BuildError {
    /// The message that reports the error.
    pub fn message(&self) -> (s: String)
        ensures
            s@ == self@.message(),
    {
        match self {
            BuildError::NotATable => String::from_str("the document must be a table of entries"),
            BuildError::Entry { title, error } => {
                let mut s = framed("entry '", title.as_str(), "' error: ");
                s.append(error.message().as_str());
                s
            },
            BuildError::UnknownKey { key } => {
                let error = QuizError::UnknownKey { key: key.clone() };
                error.message()
            },
        }
    }
}

/// How the failure of an entry is reported: an unknown setting as an error of
/// its own, anything else with the title of the entry.
pub open spec fn entry_error(title: Seq<char>, error: QuizErrorView) -> BuildErrorView {
    match error {
        QuizErrorView::UnknownKey { key } => BuildErrorView::UnknownKey { key },
        _ => BuildErrorView::Entry { title, error },
    }
}

/// `i` is the first position of `entries` whose entry is no quiz.
pub open spec fn is_first_failure(entries: Seq<(Seq<char>, Node)>, i: int) -> bool {
    &&& 0 <= i < entries.len()
    &&& quiz_of(entries[i].1) is Err
    &&& forall|j: int| 0 <= j < i ==> quiz_of((#[trigger] entries[j]).1) is Ok
}

/// The quiz of the entry at position `i`.
pub open spec fn quiz_at(entries: Seq<(Seq<char>, Node)>, i: int) -> QuizView {
    quiz_of(entries[i].1)->Ok_0
}

/// The answers of the first `n` entries, one quiz after the other.
pub open spec fn answers_upto(entries: Seq<(Seq<char>, Node)>, n: int) -> Seq<Seq<char>>
    decreases n,
{
    if n <= 0 {
        Seq::empty()
    } else {
        answers_upto(entries, n - 1) + quiz_at(entries, n - 1).answers
    }
}

/// The codes that `table` binds the texts of `answers` to, in order.
pub open spec fn codes_of(table: Seq<Seq<char>>, answers: Seq<Seq<char>>) -> Seq<int> {
    Seq::new(answers.len(), |k: int| code_of(table, answers[k]))
}

/// The model of the entries, all of which are quizzes. The table starts with
/// the moderation commands and takes in the answers of all quizzes, in the
/// order of the document; each quiz lists the codes of its answers.
pub open spec fn model_of(entries: Seq<(Seq<char>, Node)>) -> ConfigView {
    let table = resolved_all(reserved_texts(), answers_upto(entries, entries.len() as int));
    ConfigView {
        titles: Seq::new(entries.len(), |i: int| entries[i].0),
        hints1: Seq::new(entries.len(), |i: int| quiz_at(entries, i).hints[0]),
        hints2: Seq::new(entries.len(), |i: int| quiz_at(entries, i).hints[1]),
        lengths: Seq::new(entries.len(), |i: int| quiz_at(entries, i).length),
        thresholds: Seq::new(entries.len(), |i: int| quiz_at(entries, i).threshold),
        answers: Seq::new(entries.len(), |i: int| codes_of(table, quiz_at(entries, i).answers)),
        table,
    }
}

/// The model that the document gives, or why it gives none. The document
/// must be a table; the first entry that is no quiz decides the error.
pub open spec fn built(document: Node) -> Result<ConfigView, BuildErrorView> {
    match document.kind {
        Kind::Table(table) => {
            let entries = table@;
            if exists|i: int| is_first_failure(entries, i) {
                let i = choose|i: int| is_first_failure(entries, i);
                Err(entry_error(entries[i].0, quiz_of(entries[i].1)->Err_0))
            } else {
                Ok(model_of(entries))
            }
        },
        _ => Err(BuildErrorView::NotATable),
    }
}

/// Only one position is the first whose entry is no quiz.
pub proof fn lemma_first_failure(entries: Seq<(Seq<char>, Node)>, i: int)
    requires
        is_first_failure(entries, i),
    ensures
        (choose|k: int| is_first_failure(entries, k)) == i,
{
    let k = choose|k: int| is_first_failure(entries, k);
    assert(is_first_failure(entries, k));
    if k < i {
        assert(quiz_of(entries[k].1) is Ok);
    } else if i < k {
        assert(quiz_of(entries[i].1) is Ok);
    }
}

/// The codes of `row` are those that `table` binds the texts of `answers` to.
pub open spec fn row_matches(table: Seq<Seq<char>>, row: Seq<u64>, answers: Seq<Seq<char>>) -> bool {
    &&& row.len() == answers.len()
    &&& forall|k: int|
        0 <= k < answers.len() ==> table.contains(#[trigger] answers[k]) && row[k] == code_of(
            table,
            answers[k],
        )
}

/// A row of codes stays right when the table resolves one more text.
pub proof fn lemma_row_is_kept(
    table: Seq<Seq<char>>,
    text: Seq<char>,
    row: Seq<u64>,
    answers: Seq<Seq<char>>,
)
    requires
        table_inv(table),
        row_matches(table, row, answers),
    ensures
        row_matches(resolved_table(table, text), row, answers),
{
    let after = resolved_table(table, text);
    lemma_resolved_table_inv(table, text);
    assert forall|k: int| 0 <= k < answers.len() implies after.contains(#[trigger] answers[k])
        && row[k] == code_of(after, answers[k]) by {
        let i = index_of(table, answers[k]);
        lemma_index_of(table, i);
        assert(after[i] == answers[k]);
        lemma_index_of(after, i);
    }
}

/// The rows of codes, as a mathematical value.
pub open spec fn code_rows(rows: Seq<Vec<u64>>) -> Seq<Seq<int>> {
    Seq::new(rows.len(), |q: int| Seq::new(rows[q]@.len(), |k: int| rows[q]@[k] as int))
}

/// The finished model: for each quiz its title, hints, length, threshold and
/// the codes of its answers, and the identifier table that gave the codes out.
#[derive(Debug)]
pub struct Config {
    hints1: Vec<String>,
    hints2: Vec<String>,
    lengths: Vec<u32>,
    titles: Vec<String>,
    thresholds: Vec<u8>,
    table: IdentifierTable,
    answers: Vec<Vec<u64>>,
}

impl View for Config {
    type V = ConfigView;

    closed spec fn view(&self) -> ConfigView {
        ConfigView {
            titles: text_views(self.titles@),
            hints1: text_views(self.hints1@),
            hints2: text_views(self.hints2@),
            lengths: self.lengths@,
            thresholds: self.thresholds@,
            answers: code_rows(self.answers@),
            table: self.table@,
        }
    }
}

/// What building returns, as a mathematical value.
pub open spec fn build_outcome(r: Result<Config, BuildError>) -> Result<
    ConfigView,
    BuildErrorView,
> {
    match r {
        Ok(config) => Ok(config@),
        Err(e) => Err(e@),
    }
}

impl Config {
    #[verifier::type_invariant]
    spec fn valid(self) -> bool {
        self.table.wf() && self@.wf()
    }

    /// Builds the model of a document. The entries are taken in the order of
    /// the document; the first one that is no quiz ends the build with its
    /// error.
    pub fn try_new(document: Node) -> (r: Result<Config, BuildError>)
        ensures
            build_outcome(r) == built(document),
            r matches Ok(config) ==> config@.wf(),
    {
        let source = match document.kind {
            Kind::Table(table) => table,
            _ => {
                return Err(BuildError::NotATable);
            },
        };
        let entries = source.entries();
        let ghost ents = source@;
        let mut hints1: Vec<String> = Vec::new();
        let mut hints2: Vec<String> = Vec::new();
        let mut lengths: Vec<u32> = Vec::new();
        let mut titles: Vec<String> = Vec::new();
        let mut thresholds: Vec<u8> = Vec::new();
        let mut table = IdentifierTable::new();
        let mut answers: Vec<Vec<u64>> = Vec::new();
        let mut i: usize = 0;
        proof {
            table.lemma_wf();
        }
        while i < entries.len()
            invariant
                i <= entries@.len(),
                document.kind == Kind::Table(source),
                ents == source@,
                entries@.len() == ents.len(),
                forall|k: int|
                    0 <= k < entries@.len() ==> (#[trigger] entries@[k]).0@ == ents[k].0
                        && entries@[k].1 == ents[k].1,
                forall|j: int| 0 <= j < i ==> quiz_of((#[trigger] ents[j]).1) is Ok,
                table.wf(),
                table_inv(table@),
                table@ == resolved_all(reserved_texts(), answers_upto(ents, i as int)),
                titles@.len() == i,
                hints1@.len() == i,
                hints2@.len() == i,
                lengths@.len() == i,
                thresholds@.len() == i,
                answers@.len() == i,
                forall|j: int| 0 <= j < i ==> (#[trigger] titles@[j])@ == ents[j].0,
                forall|j: int| 0 <= j < i ==> (#[trigger] hints1@[j])@ == quiz_at(ents, j).hints[0],
                forall|j: int| 0 <= j < i ==> (#[trigger] hints2@[j])@ == quiz_at(ents, j).hints[1],
                forall|j: int| 0 <= j < i ==> #[trigger] lengths@[j] == quiz_at(ents, j).length,
                forall|j: int|
                    0 <= j < i ==> #[trigger] thresholds@[j] == quiz_at(ents, j).threshold,
                forall|j: int|
                    0 <= j < i ==> row_matches(
                        table@,
                        (#[trigger] answers@[j])@,
                        quiz_at(ents, j).answers,
                    ),
            decreases entries@.len() - i,
        {
            let title = &entries[i].0;
            let quiz = match Quiz::try_new(&entries[i].1) {
                Ok(quiz) => quiz,
                Err(error) => {
                    proof {
                        assert(quiz_of(ents[i as int].1) is Err);
                        assert(is_first_failure(ents, i as int));
                        lemma_first_failure(ents, i as int);
                    }
                    return Err(
                        match error {
                            QuizError::UnknownKey { key } => BuildError::UnknownKey { key },
                            error => BuildError::Entry { title: title.clone(), error },
                        },
                    );
                },
            };
            assert(quiz@ == quiz_at(ents, i as int));
            let hints = quiz.hints();
            assert(hints@[0]@ == text_views(hints@)[0]);
            assert(hints@[1]@ == text_views(hints@)[1]);
            hints1.push(hints[0].clone());
            hints2.push(hints[1].clone());
            lengths.push(quiz.length());
            titles.push(title.clone());
            thresholds.push(quiz.threshold());
            let texts = quiz.answers();
            let ghost wanted = quiz@.answers;
            let ghost start = table@;
            let mut row: Vec<u64> = Vec::new();
            let mut k: usize = 0;
            proof {
                assert(wanted.take(0) =~= Seq::<Seq<char>>::empty());
            }
            while k < texts.len()
                invariant
                    k <= texts@.len(),
                    i < entries@.len(),
                    answers@.len() == i,
                    text_views(texts@) == wanted,
                    table.wf(),
                    table_inv(table@),
                    table_inv(start),
                    table@ == resolved_all(start, wanted.take(k as int)),
                    row_matches(table@, row@, wanted.take(k as int)),
                    forall|j: int|
                        0 <= j < i ==> row_matches(
                            table@,
                            (#[trigger] answers@[j])@,
                            quiz_at(ents, j).answers,
                        ),
                decreases texts@.len() - k,
            {
                let ghost before = table@;
                let ghost text = texts@[k as int]@;
                proof {
                    assert(text == wanted[k as int]);
                    assert(wanted.take(k + 1).drop_last() =~= wanted.take(k as int));
                    assert(wanted.take(k + 1).last() == text);
                    lemma_resolved_table_inv(before, text);
                    assert forall|j: int| 0 <= j < i implies row_matches(
                        resolved_table(before, text),
                        (#[trigger] answers@[j])@,
                        quiz_at(ents, j).answers,
                    ) by {
                        lemma_row_is_kept(before, text, answers@[j]@, quiz_at(ents, j).answers);
                    }
                    lemma_row_is_kept(before, text, row@, wanted.take(k as int));
                }
                let code = table.resolve(texts[k].clone());
                row.push(code);
                proof {
                    let upto = wanted.take(k + 1);
                    assert forall|m: int| 0 <= m < upto.len() implies table@.contains(
                        #[trigger] upto[m],
                    ) && row@[m] == code_of(table@, upto[m]) by {
                        if m < k {
                            assert(wanted.take(k as int)[m] == upto[m]);
                        }
                    }
                }
                k = k + 1;
            }
            proof {
                assert(wanted.take(k as int) =~= wanted);
                lemma_resolved_all_concat(
                    reserved_texts(),
                    answers_upto(ents, i as int),
                    wanted,
                );
            }
            answers.push(row);
            i = i + 1;
        }
        proof {
            assert forall|k: int| !is_first_failure(ents, k) by {
                if 0 <= k < ents.len() {
                    assert(quiz_of(ents[k].1) is Ok);
                }
            }
            let model = model_of(ents);
            assert(text_views(titles@) =~= model.titles);
            assert(text_views(hints1@) =~= model.hints1);
            assert(text_views(hints2@) =~= model.hints2);
            assert(lengths@ =~= model.lengths);
            assert(thresholds@ =~= model.thresholds);
            assert(code_rows(answers@) =~= model.answers) by {
                assert forall|q: int| 0 <= q < ents.len() implies #[trigger] code_rows(answers@)[q]
                    =~= model.answers[q] by {
                    assert(row_matches(table@, answers@[q]@, quiz_at(ents, q).answers));
                }
            }
            assert forall|q: int, k: int|
                0 <= q < model.answers.len() && 0 <= k < model.answers[q].len() implies has_code(
                model.table,
                #[trigger] model.answers[q][k],
            ) by {
                let text = quiz_at(ents, q).answers[k];
                assert(row_matches(table@, answers@[q]@, quiz_at(ents, q).answers));
                assert(table@.contains(text));
                let p = index_of(table@, text);
                assert(code_at(p) == model.answers[q][k]);
            }
        }
        let config = Config { hints1, hints2, lengths, titles, thresholds, table, answers };
        assert(config@ =~= model_of(ents));
        Ok(config)
    }

    /// Reads a TOML document and builds its model.
    pub fn load(text: &str) -> (r: Result<Config, LoadError>)
        ensures
            load_outcome(r) == match parsed(text@) {
                Some(document) => match built(document) {
                    Ok(model) => Ok(model),
                    Err(error) => Err(LoadErrorView::Build(error)),
                },
                None => Err(LoadErrorView::Syntax),
            },
            r matches Ok(config) ==> config@.wf(),
    {
        match Node::parse(text) {
            Ok(document) => match Config::try_new(document) {
                Ok(config) => Ok(config),
                Err(error) => Err(LoadError::Build(error)),
            },
            Err(error) => Err(LoadError::Syntax(error)),
        }
    }

    /// The number of quizzes.
    pub fn quiz_count(&self) -> (n: usize)
        ensures
            n == self@.quiz_count(),
    {
        self.titles.len()
    }

    /// The title of each quiz.
    pub fn titles(&self) -> (titles: &Vec<String>)
        ensures
            text_views(titles@) == self@.titles,
    {
        &self.titles
    }

    /// The first hint of each quiz.
    pub fn hints1(&self) -> (hints: &Vec<String>)
        ensures
            text_views(hints@) == self@.hints1,
    {
        &self.hints1
    }

    /// The second hint of each quiz.
    pub fn hints2(&self) -> (hints: &Vec<String>)
        ensures
            text_views(hints@) == self@.hints2,
    {
        &self.hints2
    }

    /// The length of each quiz.
    pub fn lengths(&self) -> (lengths: &Vec<u32>)
        ensures
            lengths@ == self@.lengths,
    {
        &self.lengths
    }

    /// The threshold of each quiz.
    pub fn thresholds(&self) -> (thresholds: &Vec<u8>)
        ensures
            thresholds@ == self@.thresholds,
    {
        &self.thresholds
    }

    /// The codes of the answers of each quiz, in the order of the answers.
    pub fn answers(&self) -> (rows: &Vec<Vec<u64>>)
        ensures
            code_rows(rows@) == self@.answers,
    {
        &self.answers
    }

    /// The identifier table that gave the codes out. It holds every code that
    /// stands in a quiz.
    pub fn table(&self) -> (table: &IdentifierTable)
        ensures
            table.wf(),
            table@ == self@.table,
            self@.wf(),
    {
        proof {
            use_type_invariant(self);
        }
        &self.table
    }
}

/// Why a text gives no model, as a mathematical value.
pub enum LoadErrorView {
    Syntax,
    Build(BuildErrorView),
}

/// Why a text gives no model.
#[derive(Debug, Clone, PartialEq, Eq)]
pub enum LoadError {
    /// The text is no TOML document.
    Syntax(SyntaxError),
    /// The document gives no model.
    Build(BuildError),
}

impl View for LoadError {
    type V = LoadErrorView;

    open spec fn view(&self) -> LoadErrorView {
        match *self {
            LoadError::Syntax(_) => LoadErrorView::Syntax,
            LoadError::Build(error) => LoadErrorView::Build(error@),
        }
    }
}

/// What loading returns, as a mathematical value.
pub open spec fn load_outcome(r: Result<Config, LoadError>) -> Result<ConfigView, LoadErrorView> {
    match r {
        Ok(config) => Ok(config@),
        Err(e) => Err(e@),
    }
}

} // verus!
