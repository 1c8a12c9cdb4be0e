//! The identifier table: every answer text is bound to one small integer
//! code, and a fixed block of codes belongs to the built-in moderation
//! commands.

use crate::pairs::{found, has_key, inserted, position};
use indexmap::IndexMap;
use vstd::prelude::*;

verus! {

/// First code of the block that belongs to the moderation commands.
pub const RESERVED_FIRST: u64 = 1000;

/// Number of codes in that block, and of moderation commands.
pub const RESERVED_COUNT: usize = 7;

/// Whether `code` lies in the reserved block.
pub open spec fn is_reserved(code: int) -> bool {
    RESERVED_FIRST <= code < RESERVED_FIRST + RESERVED_COUNT
}

/// The text of the moderation command at position `i` of the reserved block.
pub open spec fn reserved_text(i: int) -> Seq<char> {
    if i == 0 {
        "kick #1"@
    } else if i == 1 {
        "kick #2"@
    } else if i == 2 {
        "kick #3"@
    } else if i == 3 {
        "kick #4"@
    } else if i == 4 {
        "kick #5"@
    } else if i == 5 {
        "kick #6"@
    } else {
        "kick #7"@
    }
}

/// The moderation commands, in the order of their codes.
pub open spec fn reserved_texts() -> Seq<Seq<char>> {
    Seq::new(RESERVED_COUNT as nat, |i: int| reserved_text(i))
}

/// The code of the text that stands at position `i` of a table. The first
/// seven positions hold the reserved block. A later text gets its position
/// less five, and seven more once that would reach the reserved block.
pub open spec fn code_at(i: int) -> int {
    if i < RESERVED_COUNT {
        RESERVED_FIRST + i
    } else if i - 5 >= RESERVED_FIRST {
        i - 5 + RESERVED_COUNT
    } else {
        i - 5
    }
}

/// The position whose code is `code`: the inverse of `code_at`.
pub open spec fn position_of(code: int) -> int {
    if is_reserved(code) {
        code - RESERVED_FIRST
    } else if code > RESERVED_FIRST {
        code - RESERVED_COUNT + 5
    } else {
        code + 5
    }
}

/// No text stands at two positions.
pub open spec fn distinct(texts: Seq<Seq<char>>) -> bool {
    forall|i: int, j: int| 0 <= i < j < texts.len() ==> texts[i] != texts[j]
}

/// What holds of the texts of every table, in the order in which they came
/// in: the moderation commands come first, and no text stands twice.
pub open spec fn table_inv(texts: Seq<Seq<char>>) -> bool {
    &&& texts.len() >= RESERVED_COUNT
    &&& forall|i: int| 0 <= i < RESERVED_COUNT ==> texts[i] == reserved_text(i)
    &&& distinct(texts)
}

/// A position at which `text` stands in `texts`, where it stands there at all.
pub open spec fn index_of(texts: Seq<Seq<char>>, text: Seq<char>) -> int {
    choose|i: int| 0 <= i < texts.len() && texts[i] == text
}

/// The code that `texts` binds `text` to, where it holds `text`.
pub open spec fn code_of(texts: Seq<Seq<char>>, text: Seq<char>) -> int {
    code_at(index_of(texts, text))
}

/// The texts of a table after `text` has been resolved: unchanged where the
/// table held it, else with `text` at the end.
pub open spec fn resolved_table(texts: Seq<Seq<char>>, text: Seq<char>) -> Seq<Seq<char>> {
    if texts.contains(text) {
        texts
    } else {
        texts.push(text)
    }
}

/// The code that resolving `text` returns.
pub open spec fn resolved_code(texts: Seq<Seq<char>>, text: Seq<char>) -> int {
    code_of(resolved_table(texts, text), text)
}

/// The texts of a table after each text of `batch` has been resolved, in order.
pub open spec fn resolved_all(texts: Seq<Seq<char>>, batch: Seq<Seq<char>>) -> Seq<Seq<char>>
    decreases batch.len(),
{
    if batch.len() == 0 {
        texts
    } else {
        resolved_table(resolved_all(texts, batch.drop_last()), batch.last())
    }
}

/// `indexmap::IndexMap`, a hash map that keeps its entries in the order in
/// which their keys came in. Nothing is known of what is inside; the two
/// functions below name the entries of the two maps that the table uses.
#[verifier::external_type_specification]
#[verifier::external_body]
#[verifier::reject_recursive_types(K)]
#[verifier::reject_recursive_types(V)]
#[verifier::reject_recursive_types(S)]
pub struct ExIndexMap<K, V, S>(IndexMap<K, V, S>);

/// The entries of a map from text to code, in the map's order.
pub uninterp spec fn code_entries(m: IndexMap<String, u64>) -> Seq<(Seq<char>, u64)>;

/// The entries of a map from code to text, in the map's order.
pub uninterp spec fn text_entries(m: IndexMap<u64, String>) -> Seq<(u64, Seq<char>)>;

/// Calls `IndexMap::new`. Trusted: the new map has no entries.
#[verifier::external_body]
fn codes_new() -> (m: IndexMap<String, u64>)
    ensures
        code_entries(m) == Seq::<(Seq<char>, u64)>::empty(),
{
    IndexMap::new()
}

/// Calls `IndexMap::len`. Trusted: the result is the number of entries. The
/// entries lie in one allocation, which holds at most `isize::MAX` bytes, so
/// their number does not exceed that either.
#[verifier::external_body]
fn codes_len(m: &IndexMap<String, u64>) -> (n: usize)
    ensures
        n == code_entries(*m).len(),
        n <= isize::MAX,
{
    m.len()
}

/// Calls `IndexMap::get`. Trusted: the result is the code stored under `key`,
/// if the map has that key.
#[verifier::external_body]
fn codes_get(m: &IndexMap<String, u64>, key: &String) -> (r: Option<u64>)
    ensures
        r == found(code_entries(*m), key@),
{
    m.get(key).copied()
}

/// Calls `IndexMap::insert`. Trusted: a key that was present keeps its place
/// in the order and gets the new value; a new key is added last in order.
#[verifier::external_body]
fn codes_insert(m: &mut IndexMap<String, u64>, key: String, value: u64)
    ensures
        code_entries(*final(m)) == inserted(code_entries(*old(m)), key@, value),
{
    m.insert(key, value);
}

/// Calls `IndexMap::iter` and copies each entry out. Trusted: the entries come
/// in the map's order.
#[verifier::external_body]
fn codes_pairs(m: &IndexMap<String, u64>) -> (v: Vec<(String, u64)>)
    ensures
        v@.len() == code_entries(*m).len(),
        forall|i: int|
            0 <= i < v@.len() ==> (#[trigger] v@[i]).0@ == code_entries(*m)[i].0 && v@[i].1
                == code_entries(*m)[i].1,
{
    m.iter().map(|(k, c)| (k.clone(), *c)).collect()
}

/// Calls `IndexMap::new`. Trusted: the new map has no entries.
#[verifier::external_body]
fn texts_new() -> (m: IndexMap<u64, String>)
    ensures
        text_entries(m) == Seq::<(u64, Seq<char>)>::empty(),
{
    IndexMap::new()
}

/// Calls `IndexMap::get`. Trusted: the result is a copy of the text stored
/// under `key`, if the map has that key.
#[verifier::external_body]
fn texts_get(m: &IndexMap<u64, String>, key: u64) -> (r: Option<String>)
    ensures
        match r {
            Some(s) => found(text_entries(*m), key) == Some(s@),
            None => found(text_entries(*m), key) is None,
        },
{
    m.get(&key).cloned()
}

/// Calls `IndexMap::insert`. Trusted: a key that was present keeps its place
/// in the order and gets the new value; a new key is added last in order.
#[verifier::external_body]
fn texts_insert(m: &mut IndexMap<u64, String>, key: u64, value: String)
    ensures
        text_entries(*final(m)) == inserted(text_entries(*old(m)), key, value@),
{
    m.insert(key, value);
}

/// The table that binds answer texts to codes. It starts with the moderation
/// commands on the reserved block, grows by one entry for each new text, and
/// never changes or drops an entry.
#[derive(Debug)]
pub struct IdentifierTable {
    codes: IndexMap<String, u64>,
    texts: IndexMap<u64, String>,
}

impl View for IdentifierTable {
    type V = Seq<Seq<char>>;

    /// The texts of the table, in the order in which they came in.
    closed spec fn view(&self) -> Seq<Seq<char>> {
        Seq::new(code_entries(self.codes).len(), |i: int| code_entries(self.codes)[i].0)
    }
}

impl IdentifierTable {
    /// The two maps agree: the text at position `i` has the code `code_at(i)`,
    /// and the inverse map holds the same pairs in the same order.
    pub closed spec fn wf(&self) -> bool {
        let forward = code_entries(self.codes);
        let inverse = text_entries(self.texts);
        &&& table_inv(self@)
        &&& inverse.len() == forward.len()
        &&& forall|i: int| 0 <= i < forward.len() ==> (#[trigger] forward[i]).1 == code_at(i)
        &&& forall|i: int|
            0 <= i < forward.len() ==> #[trigger] inverse[i] == (forward[i].1, forward[i].0)
    }

    /// A well-formed table meets the invariant of its texts.
    pub proof fn lemma_wf(&self)
        requires
            self.wf(),
        ensures
            table_inv(self@),
    {
    }

    /// The table with the moderation commands and nothing else.
    pub fn new() -> (table: IdentifierTable)
        ensures
            table.wf(),
            table@ == reserved_texts(),
    {
        let mut table = IdentifierTable { codes: codes_new(), texts: texts_new() };
        let mut i: usize = 0;
        while i < RESERVED_COUNT
            invariant
                i <= RESERVED_COUNT,
                code_entries(table.codes).len() == i,
                text_entries(table.texts).len() == i,
                forall|k: int|
                    0 <= k < i ==> #[trigger] code_entries(table.codes)[k] == (
                        reserved_text(k),
                        (RESERVED_FIRST + k) as u64,
                    ),
                forall|k: int|
                    0 <= k < i ==> #[trigger] text_entries(table.texts)[k] == (
                        (RESERVED_FIRST + k) as u64,
                        reserved_text(k),
                    ),
            decreases RESERVED_COUNT - i,
        {
            let command = reserved_command(i);
            let code: u64 = RESERVED_FIRST + i as u64;
            proof {
                let forward = code_entries(table.codes);
                let inverse = text_entries(table.texts);
                assert forall|k: int| 0 <= k < forward.len() implies (#[trigger] forward[k]).0
                    != command@ by {
                    lemma_reserved_texts_differ(k, i as int);
                }
                assert forall|k: int| 0 <= k < inverse.len() implies (#[trigger] inverse[k]).0
                    != code by {}
            }
            codes_insert(&mut table.codes, command.clone(), code);
            texts_insert(&mut table.texts, code, command);
            i = i + 1;
        }
        proof {
            assert(table@ =~= reserved_texts());
            assert forall|a: int, b: int| 0 <= a < b < table@.len() implies table@[a]
                != table@[b] by {
                lemma_reserved_texts_differ(a, b);
            }
        }
        table
    }

    /// The number of texts in the table, the moderation commands included.
    pub fn len(&self) -> (n: usize)
        requires
            self.wf(),
        ensures
            n == self@.len(),
            n >= RESERVED_COUNT,
    {
        codes_len(&self.codes)
    }

    /// The code of `text`, if the table holds it. The table stays as it is.
    pub fn lookup(&self, text: &String) -> (r: Option<u64>)
        requires
            self.wf(),
        ensures
            r is Some <==> self@.contains(text@),
            r is Some ==> r->0 == code_of(self@, text@),
    {
        let r = codes_get(&self.codes, text);
        proof {
            let forward = code_entries(self.codes);
            if has_key(forward, text@) {
                let p = position(forward, text@);
                assert(self@[p] == text@);
                lemma_index_of(self@, p);
            } else {
                if self@.contains(text@) {
                    let k = index_of(self@, text@);
                    assert(forward[k].0 == text@);
                }
            }
        }
        r
    }

    /// The text that `code` stands for, if the table has given that code out.
    pub fn text_of(&self, code: u64) -> (r: Option<String>)
        requires
            self.wf(),
        ensures
            r is Some <==> exists|i: int| 0 <= i < self@.len() && code_at(i) == code,
            forall|i: int| 0 <= i < self@.len() && code_at(i) == code ==> r == Some(r->0) && r->0@ == self@[i],
    {
        let r = texts_get(&self.texts, code);
        proof {
            let forward = code_entries(self.codes);
            let inverse = text_entries(self.texts);
            if has_key(inverse, code) {
                let p = position(inverse, code);
                assert(inverse[p] == (forward[p].1, forward[p].0));
                assert(code_at(p) == code);
                assert forall|i: int| 0 <= i < self@.len() && code_at(i) == code implies r->0@
                    == self@[i] by {
                    if i != p {
                        lemma_code_at_injective(i, p);
                    }
                }
            } else {
                assert forall|i: int| 0 <= i < self@.len() implies code_at(i) != code by {
                    assert(inverse[i] == (forward[i].1, forward[i].0));
                }
            }
        }
        r
    }

    /// The code of `text`: the one it has, or else a new one, which the table
    /// then holds for it.
    pub fn resolve(&mut self, text: String) -> (code: u64)
        requires
            old(self).wf(),
        ensures
            final(self).wf(),
            final(self)@ == resolved_table(old(self)@, text@),
            code == resolved_code(old(self)@, text@),
    {
        let known = self.lookup(&text);
        match known {
            Some(code) => code,
            None => {
                let n = codes_len(&self.codes);
                let mut code: u64 = n as u64 - 5;
                if code >= RESERVED_FIRST {
                    code = code + RESERVED_COUNT as u64;
                }
                proof {
                    let forward = code_entries(self.codes);
                    let inverse = text_entries(self.texts);
                    assert(code == code_at(n as int));
                    assert forall|k: int| 0 <= k < forward.len() implies (#[trigger] forward[k]).0
                        != text@ by {
                        assert(self@[k] == forward[k].0);
                    }
                    assert forall|k: int| 0 <= k < inverse.len() implies (#[trigger] inverse[k]).0
                        != code by {
                        assert(inverse[k] == (forward[k].1, forward[k].0));
                        lemma_code_at_injective(k, n as int);
                    }
                    lemma_resolved_table_inv(self@, text@);
                }
                let ghost before = self@;
                codes_insert(&mut self.codes, text.clone(), code);
                texts_insert(&mut self.texts, code, text);
                proof {
                    assert(self@ =~= before.push(text@));
                    lemma_index_of(self@, n as int);
                }
                code
            },
        }
    }

    /// The entries of the table, each text with its code, in the order in
    /// which the texts came in.
    pub fn entries(&self) -> (v: Vec<(String, u64)>)
        requires
            self.wf(),
        ensures
            v@.len() == self@.len(),
            forall|i: int|
                0 <= i < v@.len() ==> (#[trigger] v@[i]).0@ == self@[i] && v@[i].1 == code_at(i),
    {
        codes_pairs(&self.codes)
    }
}

/// The text of the moderation command at position `i` of the reserved block.
fn reserved_command(i: usize) -> (s: String)
    requires
        i < RESERVED_COUNT,
    ensures
        s@ == reserved_text(i as int),
{
    if i == 0 {
        String::from_str("kick #1")
    } else if i == 1 {
        String::from_str("kick #2")
    } else if i == 2 {
        String::from_str("kick #3")
    } else if i == 3 {
        String::from_str("kick #4")
    } else if i == 4 {
        String::from_str("kick #5")
    } else if i == 5 {
        String::from_str("kick #6")
    } else {
        String::from_str("kick #7")
    }
}

/// The moderation commands differ from one another.
pub proof fn lemma_reserved_texts_differ(i: int, j: int)
    requires
        0 <= i < j < RESERVED_COUNT,
    ensures
        reserved_text(i) != reserved_text(j),
{
    reveal_strlit("kick #1");
    reveal_strlit("kick #2");
    reveal_strlit("kick #3");
    reveal_strlit("kick #4");
    reveal_strlit("kick #5");
    reveal_strlit("kick #6");
    reveal_strlit("kick #7");
    assert(reserved_text(i)[6] != reserved_text(j)[6]);
}

/// Two positions never share a code.
pub proof fn lemma_code_at_injective(i: int, j: int)
    requires
        0 <= i,
        0 <= j,
        i != j,
    ensures
        code_at(i) != code_at(j),
{
}

/// Codes and positions correspond one to one.
pub proof fn lemma_position_of(i: int)
    requires
        0 <= i,
    ensures
        position_of(code_at(i)) == i,
{
}

/// Texts that come in later get larger codes, and no such code lies in the
/// reserved block.
pub proof fn lemma_codes_increase(i: int, j: int)
    requires
        RESERVED_COUNT <= i < j,
    ensures
        code_at(i) < code_at(j),
        !is_reserved(code_at(i)),
        !is_reserved(code_at(j)),
        code_at(i) >= 2,
{
}

/// Where no text stands twice, a text's position is the only one that holds it.
pub proof fn lemma_index_of(texts: Seq<Seq<char>>, i: int)
    requires
        distinct(texts),
        0 <= i < texts.len(),
    ensures
        index_of(texts, texts[i]) == i,
        code_of(texts, texts[i]) == code_at(i),
{
    let k = index_of(texts, texts[i]);
    assert(0 <= k < texts.len() && texts[k] == texts[i]);
    if k < i {
        assert(texts[k] != texts[i]);
    } else if i < k {
        assert(texts[i] != texts[k]);
    }
}

/// Resolving a text keeps a table's invariant.
pub proof fn lemma_resolved_table_inv(texts: Seq<Seq<char>>, text: Seq<char>)
    requires
        table_inv(texts),
    ensures
        table_inv(resolved_table(texts, text)),
        resolved_table(texts, text).contains(text),
        texts.len() <= resolved_table(texts, text).len() <= texts.len() + 1,
        forall|i: int| 0 <= i < texts.len() ==> resolved_table(texts, text)[i] == texts[i],
{
    let after = resolved_table(texts, text);
    if !texts.contains(text) {
        assert(after[texts.len() as int] == text);
        assert forall|i: int, j: int| 0 <= i < j < after.len() implies after[i] != after[j] by {
            if j == texts.len() {
                assert(texts[i] != text);
            }
        }
    }
}

/// Resolving a batch of texts keeps a table's invariant, keeps every text
/// where it stood, and leaves the table holding each text of the batch.
pub proof fn lemma_resolved_all_inv(texts: Seq<Seq<char>>, batch: Seq<Seq<char>>)
    requires
        table_inv(texts),
    ensures
        table_inv(resolved_all(texts, batch)),
        texts.len() <= resolved_all(texts, batch).len() <= texts.len() + batch.len(),
        forall|i: int| 0 <= i < texts.len() ==> resolved_all(texts, batch)[i] == texts[i],
        forall|k: int| 0 <= k < batch.len() ==> resolved_all(texts, batch).contains(batch[k]),
    decreases batch.len(),
{
    if batch.len() > 0 {
        let before = resolved_all(texts, batch.drop_last());
        let after = resolved_all(texts, batch);
        lemma_resolved_all_inv(texts, batch.drop_last());
        lemma_resolved_table_inv(before, batch.last());
        assert forall|k: int| 0 <= k < batch.len() implies after.contains(batch[k]) by {
            if k < batch.len() - 1 {
                assert(batch.drop_last()[k] == batch[k]);
                let i = index_of(before, batch[k]);
                assert(after[i] == batch[k]);
            }
        }
    }
}

/// Resolving one batch after another is resolving the two as one.
pub proof fn lemma_resolved_all_concat(
    texts: Seq<Seq<char>>,
    first: Seq<Seq<char>>,
    second: Seq<Seq<char>>,
)
    ensures
        resolved_all(texts, first + second) == resolved_all(resolved_all(texts, first), second),
    decreases second.len(),
{
    if second.len() == 0 {
        assert(first + second =~= first);
    } else {
        assert((first + second).drop_last() =~= first + second.drop_last());
        assert((first + second).last() == second.last());
        lemma_resolved_all_concat(texts, first, second.drop_last());
    }
}

/// The reserved block is permanent: in every table, and after any further
/// resolving, position `i` of the block holds its moderation command, bound
/// to the code `RESERVED_FIRST + i`.
pub proof fn lemma_reserved_block_is_permanent(
    texts: Seq<Seq<char>>,
    batch: Seq<Seq<char>>,
    i: int,
)
    requires
        table_inv(texts),
        0 <= i < RESERVED_COUNT,
    ensures
        texts[i] == reserved_text(i),
        code_of(texts, reserved_text(i)) == RESERVED_FIRST + i,
        resolved_all(texts, batch)[i] == reserved_text(i),
        code_of(resolved_all(texts, batch), reserved_text(i)) == RESERVED_FIRST + i,
{
    lemma_index_of(texts, i);
    lemma_resolved_all_inv(texts, batch);
    lemma_index_of(resolved_all(texts, batch), i);
}

/// Resolving a text a second time returns the same code and leaves the table
/// as the first time left it.
pub proof fn lemma_resolve_again(texts: Seq<Seq<char>>, text: Seq<char>)
    requires
        table_inv(texts),
    ensures
        resolved_table(resolved_table(texts, text), text) == resolved_table(texts, text),
        resolved_code(resolved_table(texts, text), text) == resolved_code(texts, text),
{
    lemma_resolved_table_inv(texts, text);
}

/// A text keeps its code whatever is resolved after it: resolving it again
/// later, in the same quiz or in another, returns the code it had and adds
/// nothing to the table.
pub proof fn lemma_code_is_stable(texts: Seq<Seq<char>>, batch: Seq<Seq<char>>, text: Seq<char>)
    requires
        table_inv(texts),
        texts.contains(text),
    ensures
        resolved_all(texts, batch).contains(text),
        code_of(resolved_all(texts, batch), text) == code_of(texts, text),
        resolved_code(resolved_all(texts, batch), text) == code_of(texts, text),
        resolved_table(resolved_all(texts, batch), text) == resolved_all(texts, batch),
{
    let i = index_of(texts, text);
    lemma_resolved_all_inv(texts, batch);
    lemma_index_of(texts, i);
    assert(resolved_all(texts, batch)[i] == text);
    lemma_index_of(resolved_all(texts, batch), i);
}

/// A batch of new texts, each different from the others, goes to the end of
/// the table as it stands.
pub proof fn lemma_resolved_all_new(texts: Seq<Seq<char>>, batch: Seq<Seq<char>>)
    requires
        table_inv(texts),
        distinct(batch),
        forall|k: int| 0 <= k < batch.len() ==> !texts.contains(#[trigger] batch[k]),
    ensures
        resolved_all(texts, batch) == texts + batch,
    decreases batch.len(),
{
    if batch.len() == 0 {
        assert(texts + batch =~= texts);
    } else {
        let rest = batch.drop_last();
        assert forall|k: int| 0 <= k < rest.len() implies !texts.contains(#[trigger] rest[k]) by {
            assert(rest[k] == batch[k]);
        }
        assert(distinct(rest)) by {
            assert forall|a: int, b: int| 0 <= a < b < rest.len() implies rest[a] != rest[b] by {
                assert(rest[a] == batch[a] && rest[b] == batch[b]);
            }
        }
        lemma_resolved_all_new(texts, rest);
        let before = texts + rest;
        if before.contains(batch.last()) {
            let i = index_of(before, batch.last());
            if i < texts.len() {
                assert(texts[i] == batch.last());
                assert(texts.contains(batch[batch.len() - 1]));
            } else {
                assert(batch[i - texts.len()] == batch[batch.len() - 1]);
            }
        }
        assert(before.push(batch.last()) =~= texts + batch);
    }
}

/// The code that the resolving of `batch[k]` returns, when the texts of
/// `batch` are resolved in order on a table with the texts `texts`.
pub open spec fn batch_code(texts: Seq<Seq<char>>, batch: Seq<Seq<char>>, k: int) -> int {
    resolved_code(resolved_all(texts, batch.take(k)), batch[k])
}

/// New texts get codes by their position: the `k`-th of a batch of new texts,
/// each different from the others, gets the code of position
/// `texts.len() + k`.
pub proof fn lemma_new_code(texts: Seq<Seq<char>>, batch: Seq<Seq<char>>, k: int)
    requires
        table_inv(texts),
        distinct(batch),
        forall|k: int| 0 <= k < batch.len() ==> !texts.contains(#[trigger] batch[k]),
        0 <= k < batch.len(),
    ensures
        batch_code(texts, batch, k) == code_at(texts.len() + k),
{
    let upto = batch.take(k + 1);
    assert forall|a: int| 0 <= a < upto.len() implies !texts.contains(#[trigger] upto[a]) by {
        assert(upto[a] == batch[a]);
    }
    assert(distinct(upto)) by {
        assert forall|a: int, b: int| 0 <= a < b < upto.len() implies upto[a] != upto[b] by {
            assert(upto[a] == batch[a] && upto[b] == batch[b]);
        }
    }
    lemma_resolved_all_new(texts, upto);
    assert(upto.drop_last() =~= batch.take(k));
    assert(upto.last() == batch[k]);
    lemma_resolved_all_inv(texts, upto);
    let after = resolved_all(texts, upto);
    assert(after == resolved_table(resolved_all(texts, batch.take(k)), batch[k]));
    assert(after[texts.len() + k] == batch[k]);
    lemma_index_of(after, texts.len() + k);
}

/// Allocation is monotonic: when new texts, each different from the others,
/// are resolved in order, a later one gets a larger code than an earlier one,
/// and no code lies in the reserved block.
pub proof fn lemma_new_codes_increase(
    texts: Seq<Seq<char>>,
    batch: Seq<Seq<char>>,
    a: int,
    b: int,
)
    requires
        table_inv(texts),
        distinct(batch),
        forall|k: int| 0 <= k < batch.len() ==> !texts.contains(#[trigger] batch[k]),
        0 <= a < b < batch.len(),
    ensures
        batch_code(texts, batch, a) < batch_code(texts, batch, b),
        !is_reserved(batch_code(texts, batch, a)),
        !is_reserved(batch_code(texts, batch, b)),
{
    lemma_new_code(texts, batch, a);
    lemma_new_code(texts, batch, b);
    lemma_codes_increase(texts.len() + a, texts.len() + b);
}

/// The gap is skipped: up to the reserved block a new text gets its position
/// less five, which stays below the block; from the position whose plain
/// count would fall on the first reserved code, it gets seven more, which
/// lies behind the block.
pub proof fn lemma_gap_is_skipped(i: int)
    requires
        RESERVED_COUNT <= i,
    ensures
        i < RESERVED_FIRST + 5 ==> code_at(i) == i - 5 && code_at(i) < RESERVED_FIRST,
        i >= RESERVED_FIRST + 5 ==> code_at(i) == i - 5 + RESERVED_COUNT && code_at(i)
            >= RESERVED_FIRST + RESERVED_COUNT,
{
}

/// The table is a bijection: two texts of a table have the same code only if
/// they are the same text, and the code of a text leads back to the text.
pub proof fn lemma_codes_are_a_bijection(texts: Seq<Seq<char>>, a: Seq<char>, b: Seq<char>)
    requires
        table_inv(texts),
        texts.contains(a),
        texts.contains(b),
    ensures
        code_of(texts, a) == code_of(texts, b) <==> a == b,
        0 <= position_of(code_of(texts, a)) < texts.len(),
        texts[position_of(code_of(texts, a))] == a,
{
    let i = index_of(texts, a);
    let j = index_of(texts, b);
    lemma_position_of(i);
    if i != j {
        lemma_code_at_injective(i, j);
    }
}

} // verus!
