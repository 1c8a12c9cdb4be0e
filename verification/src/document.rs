//! The quiz document as a tree of values, as a document loader hands it over.

use crate::pairs::{found, inserted, keys_differ, lemma_found_at};
use vstd::prelude::*;

verus! {

/// What a value of the document is.
#[derive(Debug)]
pub enum Kind {
    /// A string.
    String(String),
    /// An integer.
    Integer(i64),
    /// A floating-point number; only its text is kept.
    Float,
    /// A boolean.
    Boolean(bool),
    /// A date or a time; only its text is kept.
    Datetime,
    /// An array of values.
    Array(Vec<Node>),
    /// A table of named values.
    Table(Table),
}

/// A value of the document, together with the text that shows it in messages.
#[derive(Debug)]
pub struct Node {
    /// The text that shows the value.
    pub shown: String,
    /// What the value is.
    pub kind: Kind,
}

/// A table: named values in the order in which they were declared. No name
/// occurs twice.
#[derive(Debug)]
pub struct Table {
    entries: Vec<(String, Node)>,
}

impl View for Table {
    type V = Seq<(Seq<char>, Node)>;

    /// The entries in declaration order, each name with its value.
    closed spec fn view(&self) -> Seq<(Seq<char>, Node)> {
        Seq::new(self.entries@.len(), |i: int| (self.entries@[i].0@, self.entries@[i].1))
    }
}

impl Table {
    #[verifier::type_invariant]
    spec fn names_differ(self) -> bool {
        keys_differ(self@)
    }

    /// The table without entries.
    pub fn new() -> (table: Table)
        ensures
            table@ == Seq::<(Seq<char>, Node)>::empty(),
    {
        let table = Table { entries: Vec::new() };
        assert(table@ =~= Seq::<(Seq<char>, Node)>::empty());
        table
    }

    /// The number of entries.
    pub fn len(&self) -> (n: usize)
        ensures
            n == self@.len(),
    {
        self.entries.len()
    }

    /// The entries in declaration order. Their names differ from one another.
    pub fn entries(&self) -> (entries: &Vec<(String, Node)>)
        ensures
            entries@.len() == self@.len(),
            forall|i: int|
                0 <= i < entries@.len() ==> (#[trigger] entries@[i]).0@ == self@[i].0
                    && entries@[i].1 == self@[i].1,
            keys_differ(self@),
    {
        proof {
            use_type_invariant(self);
        }
        &self.entries
    }

    /// The value declared under `name`, if there is one.
    pub fn get(&self, name: &String) -> (value: Option<&Node>)
        ensures
            value == match found(self@, name@) {
                Some(v) => Some(&v),
                None => None,
            },
    {
        proof {
            use_type_invariant(self);
        }
        let mut i: usize = 0;
        while i < self.entries.len()
            invariant
                i <= self.entries@.len(),
                keys_differ(self@),
                forall|k: int| 0 <= k < i ==> (#[trigger] self@[k]).0 != name@,
            decreases self.entries@.len() - i,
        {
            if self.entries[i].0 == *name {
                proof {
                    lemma_found_at(self@, i as int);
                }
                return Some(&self.entries[i].1);
            }
            i = i + 1;
        }
        None
    }

    /// The table with `value` declared under `name`. A name that is present
    /// keeps its place and gets the new value; a new name goes to the end.
    pub fn with(self, name: String, value: Node) -> (table: Table)
        ensures
            table@ == inserted(self@, name@, value),
    {
        proof {
            use_type_invariant(&self);
        }
        let ghost before = self@;
        let mut entries = self.entries;
        let mut i: usize = 0;
        while i < entries.len()
            invariant
                i <= entries@.len(),
                entries@.len() == before.len(),
                forall|k: int|
                    0 <= k < entries@.len() ==> #[trigger] before[k] == (
                        entries@[k].0@,
                        entries@[k].1,
                    ),
                forall|k: int| 0 <= k < i ==> (#[trigger] before[k]).0 != name@,
                keys_differ(before),
                before == self@,
            decreases entries@.len() - i,
        {
            if entries[i].0 == name {
                proof {
                    assert(before[i as int].0 == name@);
                    lemma_found_at(before, i as int);
                    assert(inserted(before, name@, value) == before.update(
                        i as int,
                        (name@, value),
                    ));
                }
                entries.set(i, (name, value));
                proof {
                    let after = Seq::new(
                        entries@.len(),
                        |k: int| (entries@[k].0@, entries@[k].1),
                    );
                    assert(after =~= before.update(i as int, (name@, value)));
                    assert forall|a: int, b: int| 0 <= a < b < after.len() implies (
                    #[trigger] after[a]).0 != (#[trigger] after[b]).0 by {
                        assert(after[a].0 == before[a].0 && after[b].0 == before[b].0);
                    }
                }
                let table = Table { entries };
                assert(table@ =~= before.update(i as int, (name@, value)));
                return table;
            }
            i = i + 1;
        }
        entries.push((name, value));
        proof {
            let after = Seq::new(entries@.len(), |k: int| (entries@[k].0@, entries@[k].1));
            assert(after =~= before.push((name@, value)));
            assert forall|a: int, b: int| 0 <= a < b < after.len() implies (#[trigger] after[a]).0
                != (#[trigger] after[b]).0 by {
                if b < before.len() {
                    assert(after[a].0 == before[a].0 && after[b].0 == before[b].0);
                } else {
                    assert(after[a].0 == before[a].0);
                }
            }
        }
        let table = Table { entries };
        assert(table@ =~= before.push((name@, value)));
        table
    }

    /// Declares `value` under `name`. A name that is present keeps its place
    /// and gets the new value; a new name goes to the end.
    pub fn insert(&mut self, name: String, value: Node)
        ensures
            final(self)@ == inserted(old(self)@, name@, value),
    {
        let mut table = Table::new();
        core::mem::swap(self, &mut table);
        *self = table.with(name, value);
    }
}

/// `toml::Value`, a value as the `toml` crate holds it. Nothing is known of
/// what is inside.
#[verifier::external_type_specification]
#[verifier::external_body]
pub struct ExTomlNode(toml::Value);

/// `toml::de::Error`, the report of the parser of the `toml` crate. Nothing
/// is known of what is inside.
#[verifier::external_type_specification]
#[verifier::external_body]
pub struct ExTomlError(toml::de::Error);

/// What the parser of the `toml` crate makes of `text` as a document, if it
/// accepts it.
pub uninterp spec fn toml_document(text: Seq<char>) -> Option<toml::Value>;

/// What a value of the `toml` crate holds, as a `Node`.
pub uninterp spec fn imported(source: toml::Value) -> Node;

/// The document that the TOML text `text` describes, if it describes one.
pub open spec fn parsed(text: Seq<char>) -> Option<Node> {
    match toml_document(text) {
        Some(source) => Some(imported(source)),
        None => None,
    }
}

/// Calls the parser of the `toml` crate for a document (`FromStr` of
/// `toml::Table`) and wraps the table as a value. Trusted: whether the text
/// is accepted, and the document that comes out, depend on the text alone.
#[verifier::external_body]
fn parse_toml(text: &str) -> (r: Result<toml::Value, toml::de::Error>)
    ensures
        r is Ok <==> toml_document(text@) is Some,
        r matches Ok(source) ==> toml_document(text@) == Some(source),
{
    text.parse::<toml::Table>().map(toml::Value::Table)
}

/// Whether `source` is what the parser made of some text.
pub open spec fn from_parser(source: toml::Value) -> bool {
    exists|text: Seq<char>| toml_document(text) == Some(source)
}

/// Copies a value of the `toml` crate into a `Node`, variant by variant, and
/// keeps as `shown` what `Display` of `toml::Value` writes for it, which does
/// not fail on what the parser made. Trusted: the result depends on the value
/// alone, and the names of a `toml` table differ from one another, as `Table`
/// asks.
#[verifier::external_body]
fn import(source: &toml::Value) -> (value: Node)
    requires
        from_parser(*source),
    ensures
        value == imported(*source),
{
    let kind = match source {
        toml::Value::String(s) => Kind::String(s.clone()),
        toml::Value::Integer(i) => Kind::Integer(*i),
        toml::Value::Float(_) => Kind::Float,
        toml::Value::Boolean(b) => Kind::Boolean(*b),
        toml::Value::Datetime(_) => Kind::Datetime,
        toml::Value::Array(a) => Kind::Array(a.iter().map(import).collect()),
        toml::Value::Table(t) => Kind::Table(
            Table { entries: t.iter().map(|(k, v)| (k.clone(), import(v))).collect() },
        ),
    };
    Node { shown: source.to_string(), kind }
}

/// Calls `Display` of `toml::de::Error`: the parser's report of what is wrong
/// with the text, and where.
#[verifier::external_body]
fn error_text(error: &toml::de::Error) -> (s: String) {
    error.to_string()
}

/// A text that is no TOML document.
#[derive(Debug, Clone, PartialEq, Eq)]
pub struct SyntaxError {
    /// The parser's report of what is wrong with the text.
    pub message: String,
}

impl Node {
    /// Reads a TOML document.
    pub fn parse(text: &str) -> (r: Result<Node, SyntaxError>)
        ensures
            r is Ok <==> parsed(text@) is Some,
            r matches Ok(document) ==> parsed(text@) == Some(document),
    {
        match parse_toml(text) {
            Ok(source) => Ok(import(&source)),
            Err(error) => Err(SyntaxError { message: error_text(&error) }),
        }
    }
}

} // verus!
