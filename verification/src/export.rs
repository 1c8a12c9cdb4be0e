//! The text of the output artifact.

use crate::codes::{code_at, lemma_position_of, position_of, IdentifierTable};
use crate::config::{code_rows, has_code, Config, ConfigView};
use crate::text::{
    decimal, integer_text, join_numbers, join_texts, joined, numerals, text_views,
};
use vstd::prelude::*;

verus! {

/// The decimal numerals of `items`, in order.
pub open spec fn decimals(items: Seq<int>) -> Seq<Seq<char>> {
    Seq::new(items.len(), |i: int| decimal(items[i] as nat))
}

/// The numbers of `items`, separated by a comma and a space.
pub open spec fn number_list(items: Seq<int>) -> Seq<char> {
    joined(decimals(items), ", "@)
}

/// The texts of `items`, each closed and the next opened as a string of the
/// target runtime.
pub open spec fn text_list(items: Seq<Seq<char>>) -> Seq<char> {
    joined(items, "\"), Db(\""@)
}

/// The lines that list the first `n` entries of the table, each as the text,
/// a colon between two spaces, and the code.
pub open spec fn mapping_lines(table: Seq<Seq<char>>, n: int) -> Seq<char>
    decreases n,
{
    if n <= 0 {
        Seq::empty()
    } else {
        mapping_lines(table, n - 1) + table[n - 1] + " : "@ + decimal(code_at(n - 1) as nat)
            + "\n"@
    }
}

/// The texts that the codes of `row` stand for.
pub open spec fn row_texts(table: Seq<Seq<char>>, row: Seq<int>) -> Seq<Seq<char>> {
    Seq::new(row.len(), |k: int| table[position_of(row[k])])
}

/// The lengths, as integers.
pub open spec fn lengths_of(model: ConfigView) -> Seq<int> {
    Seq::new(model.lengths.len(), |i: int| model.lengths[i] as int)
}

/// The thresholds, as integers.
pub open spec fn thresholds_of(model: ConfigView) -> Seq<int> {
    Seq::new(model.thresholds.len(), |i: int| model.thresholds[i] as int)
}

/// The number of answers of each quiz.
pub open spec fn answer_counts_of(model: ConfigView) -> Seq<int> {
    Seq::new(model.answers.len(), |i: int| model.answers[i].len() as int)
}

/// The codes of each quiz, as a list of numbers.
pub open spec fn code_lists_of(model: ConfigView) -> Seq<Seq<char>> {
    Seq::new(model.answers.len(), |i: int| number_list(model.answers[i]))
}

/// The answers of each quiz, as a list of texts.
pub open spec fn answer_lists_of(model: ConfigView) -> Seq<Seq<char>> {
    Seq::new(model.answers.len(), |i: int| text_list(row_texts(model.table, model.answers[i])))
}

/// The text of the output artifact: a comment that lists every entry of the
/// identifier table, then the declarations of the target runtime, in this
/// order: the number of quizzes, the first hints, the second hints, the
/// lengths, the titles, the thresholds, the number of answers of each quiz,
/// the codes of each quiz, and the answers of each quiz.
pub open spec fn exported(model: ConfigView) -> Seq<char> {
    "/*\n[chatEvent]\n__addr__: 0x58D900\n"@ + mapping_lines(
        model.table,
        model.table.len() as int,
    ) + "*/\nconst A = py_eval(\"lambda *args: EUDArray(args)\");\nconst MusicNumber = "@
        + decimal(model.quiz_count()) + ";  //음악갯수\nconst MusicHint1 = A(Db(\""@ + text_list(
        model.hints1,
    ) + "\"));\nconst MusicHint2 = A(Db(\""@ + text_list(model.hints2)
        + "\"));\nconst MusicLength = A("@ + number_list(lengths_of(model))
        + ");\nconst MusicAnswer = A(Db(\""@ + text_list(model.titles)
        + "\"));\nconst answerCount = A("@ + number_list(thresholds_of(model))
        + ");  // 맞춰야 넘어가는 개수\nconst answerLen = A("@ + number_list(answer_counts_of(model))
        + ");  // 문제별 정답 총 개수\nconst answers = A(A("@ + joined(code_lists_of(model), "), A("@)
        + "));  // 문제별 채팅 인식 목록\nconst answerText = A(A(Db(\""@ + joined(
        answer_lists_of(model),
        "\")), A(Db(\""@,
    ) + "\")));  // 문제별 실제 정답 텍스트"@
}

/// The lines that list the entries of `table`.
fn mapping_text(table: &IdentifierTable) -> (s: String)
    requires
        table.wf(),
    ensures
        s@ == mapping_lines(table@, table@.len() as int),
{
    let entries = table.entries();
    let mut s = String::new();
    let mut i: usize = 0;
    while i < entries.len()
        invariant
            i <= entries@.len(),
            entries@.len() == table@.len(),
            forall|k: int|
                0 <= k < entries@.len() ==> (#[trigger] entries@[k]).0@ == table@[k]
                    && entries@[k].1 == code_at(k),
            s@ == mapping_lines(table@, i as int),
        decreases entries@.len() - i,
    {
        s.append(entries[i].0.as_str());
        s.append(" : ");
        s.append(integer_text(entries[i].1 as i128).as_str());
        s.append("\n");
        i = i + 1;
    }
    s
}

/// The numbers of `items`, separated by a comma and a space.
fn length_list(items: &Vec<u32>) -> (s: String)
    ensures
        s@ == number_list(Seq::new(items@.len(), |i: int| items@[i] as int)),
{
    let mut wide: Vec<u64> = Vec::new();
    let mut i: usize = 0;
    while i < items.len()
        invariant
            i <= items@.len(),
            wide@.len() == i,
            forall|k: int| 0 <= k < i ==> #[trigger] wide@[k] == items@[k],
        decreases items@.len() - i,
    {
        wide.push(items[i] as u64);
        i = i + 1;
    }
    assert(numerals(wide@) =~= decimals(Seq::new(items@.len(), |i: int| items@[i] as int)));
    join_numbers(&wide, ", ")
}

/// The numbers of `items`, separated by a comma and a space.
fn threshold_list(items: &Vec<u8>) -> (s: String)
    ensures
        s@ == number_list(Seq::new(items@.len(), |i: int| items@[i] as int)),
{
    let mut wide: Vec<u64> = Vec::new();
    let mut i: usize = 0;
    while i < items.len()
        invariant
            i <= items@.len(),
            wide@.len() == i,
            forall|k: int| 0 <= k < i ==> #[trigger] wide@[k] == items@[k],
        decreases items@.len() - i,
    {
        wide.push(items[i] as u64);
        i = i + 1;
    }
    assert(numerals(wide@) =~= decimals(Seq::new(items@.len(), |i: int| items@[i] as int)));
    join_numbers(&wide, ", ")
}

/// The number of codes of each row, separated by a comma and a space.
fn size_list(rows: &Vec<Vec<u64>>) -> (s: String)
    ensures
        s@ == number_list(Seq::new(rows@.len(), |i: int| rows@[i]@.len() as int)),
{
    let mut sizes: Vec<u64> = Vec::new();
    let mut i: usize = 0;
    while i < rows.len()
        invariant
            i <= rows@.len(),
            sizes@.len() == i,
            forall|k: int| 0 <= k < i ==> #[trigger] sizes@[k] == rows@[k]@.len(),
        decreases rows@.len() - i,
    {
        sizes.push(rows[i].len() as u64);
        i = i + 1;
    }
    assert(numerals(sizes@) =~= decimals(Seq::new(rows@.len(), |i: int| rows@[i]@.len() as int)));
    join_numbers(&sizes, ", ")
}

/// The codes of `row`, as integers.
pub open spec fn row_codes(row: Seq<u64>) -> Seq<int> {
    Seq::new(row.len(), |k: int| row[k] as int)
}

/// The texts that the codes of `row` stand for, as a list of texts.
fn answer_list(table: &IdentifierTable, row: &Vec<u64>) -> (s: String)
    requires
        table.wf(),
        forall|k: int| 0 <= k < row@.len() ==> has_code(table@, #[trigger] row@[k] as int),
    ensures
        s@ == text_list(row_texts(table@, row_codes(row@))),
{
    let mut texts: Vec<String> = Vec::new();
    let mut k: usize = 0;
    while k < row.len()
        invariant
            k <= row@.len(),
            table.wf(),
            forall|m: int| 0 <= m < row@.len() ==> has_code(table@, #[trigger] row@[m] as int),
            texts@.len() == k,
            forall|m: int| 0 <= m < k ==> (#[trigger] texts@[m])@ == table@[position_of(
                row@[m] as int,
            )],
        decreases row@.len() - k,
    {
        let code = row[k];
        proof {
            assert(has_code(table@, row@[k as int] as int));
            let i = choose|i: int| 0 <= i < table@.len() && #[trigger] code_at(i) == code;
            lemma_position_of(i);
        }
        let text = match table.text_of(code) {
            Some(text) => text,
            None => {
                proof {
                    assert(false);
                }
                String::new()
            },
        };
        texts.push(text);
        k = k + 1;
    }
    assert(text_views(texts@) =~= row_texts(table@, row_codes(row@)));
    join_texts(&texts, "\"), Db(\"")
}

impl Config {
    /// The text of the output artifact.
    pub fn export(&self) -> (s: String)
        ensures
            s@ == exported(self@),
    {
        let table = self.table();
        let rows = self.answers();
        let mut code_lists: Vec<String> = Vec::new();
        let mut answer_lists: Vec<String> = Vec::new();
        let mut i: usize = 0;
        while i < rows.len()
            invariant
                i <= rows@.len(),
                table.wf(),
                table@ == self@.table,
                self@.wf(),
                code_rows(rows@) == self@.answers,
                code_lists@.len() == i,
                answer_lists@.len() == i,
                forall|q: int| 0 <= q < i ==> (#[trigger] code_lists@[q])@ == number_list(
                    self@.answers[q],
                ),
                forall|q: int| 0 <= q < i ==> (#[trigger] answer_lists@[q])@ == text_list(
                    row_texts(self@.table, self@.answers[q]),
                ),
            decreases rows@.len() - i,
        {
            let row = &rows[i];
            proof {
                let model_row = self@.answers[i as int];
                assert(model_row == code_rows(rows@)[i as int]);
                assert(model_row =~= row_codes(row@));
                assert(numerals(row@) =~= decimals(model_row));
                assert forall|k: int| 0 <= k < row@.len() implies has_code(
                    table@,
                    #[trigger] row@[k] as int,
                ) by {
                    assert(has_code(self@.table, self@.answers[i as int][k]));
                }
            }
            code_lists.push(join_numbers(row, ", "));
            answer_lists.push(answer_list(table, row));
            i = i + 1;
        }
        proof {
            assert(text_views(code_lists@) =~= code_lists_of(self@));
            assert(text_views(answer_lists@) =~= answer_lists_of(self@));
        }
        let lengths = self.lengths();
        let thresholds = self.thresholds();
        proof {
            assert(Seq::new(lengths@.len(), |i: int| lengths@[i] as int) =~= lengths_of(self@));
            assert(Seq::new(thresholds@.len(), |i: int| thresholds@[i] as int) =~= thresholds_of(
                self@,
            ));
            assert(Seq::new(rows@.len(), |i: int| rows@[i]@.len() as int) =~= answer_counts_of(
                self@,
            ));
        }
        let mut s = String::from_str("/*\n[chatEvent]\n__addr__: 0x58D900\n");
        s.append(mapping_text(table).as_str());
        s.append("*/\nconst A = py_eval(\"lambda *args: EUDArray(args)\");\nconst MusicNumber = ");
        s.append(integer_text(self.quiz_count() as i128).as_str());
        s.append(";  //음악갯수\nconst MusicHint1 = A(Db(\"");
        s.append(join_texts(self.hints1(), "\"), Db(\"").as_str());
        s.append("\"));\nconst MusicHint2 = A(Db(\"");
        s.append(join_texts(self.hints2(), "\"), Db(\"").as_str());
        s.append("\"));\nconst MusicLength = A(");
        s.append(length_list(lengths).as_str());
        s.append(");\nconst MusicAnswer = A(Db(\"");
        s.append(join_texts(self.titles(), "\"), Db(\"").as_str());
        s.append("\"));\nconst answerCount = A(");
        s.append(threshold_list(thresholds).as_str());
        s.append(");  // 맞춰야 넘어가는 개수\nconst answerLen = A(");
        s.append(size_list(rows).as_str());
        s.append(");  // 문제별 정답 총 개수\nconst answers = A(A(");
        s.append(join_texts(&code_lists, "), A(").as_str());
        s.append("));  // 문제별 채팅 인식 목록\nconst answerText = A(A(Db(\"");
        s.append(join_texts(&answer_lists, "\")), A(Db(\"").as_str());
        s.append("\")));  // 문제별 실제 정답 텍스트");
        s
    }
}

} // verus!
