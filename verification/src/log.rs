//! Log events: the record that the chain delivers, and the identity by which
//! a record is told from every other.

use crate::natural::Natural;
use vstd::prelude::*;

verus! {

/// Whether one text comes before another: at the first place where they
/// differ it holds the lesser character, or it ends there and the other
/// goes on.
pub open spec fn text_less(a: Seq<char>, b: Seq<char>) -> bool
    decreases a.len(),
{
    if b.len() == 0 {
        false
    } else if a.len() == 0 {
        true
    } else if a[0] != b[0] {
        a[0] < b[0]
    } else {
        text_less(a.drop_first(), b.drop_first())
    }
}

/// Compares two texts with the `<` of `str`.
///
/// Trusted: std orders strings by their bytes, which is the order of their
/// characters, place by place.
#[verifier::external_body]
fn str_less(a: &str, b: &str) -> (r: bool)
    ensures
        r == text_less(a@, b@),
{
    a < b
}

/// What a `LogSource` holds, as plain values.
pub struct LogSourceView {
    pub transaction_hash: Seq<char>,
    pub log_index: nat,
}

impl LogSourceView {
    /// Whether this identity comes before the other: by the hash, and for
    /// one hash by the index.
    pub open spec fn less_than(self, other: LogSourceView) -> bool {
        text_less(self.transaction_hash, other.transaction_hash) || (self.transaction_hash
            == other.transaction_hash && self.log_index < other.log_index)
    }
}

/// A unique identifier of the event source: the source transaction hash and
/// the log entry index.
#[derive(Debug, PartialEq, Eq)]
pub struct LogSource {
    pub transaction_hash: String,
    pub log_index: Natural,
}

impl View for LogSource {
    type V = LogSourceView;

    open spec fn view(&self) -> LogSourceView {
        LogSourceView { transaction_hash: self.transaction_hash@, log_index: self.log_index@ }
    }
}

impl Clone for LogSource {
    fn clone(&self) -> (r: Self)
        ensures
            r@ == self@,
    {
        LogSource {
            transaction_hash: self.transaction_hash.clone(),
            log_index: self.log_index.clone(),
        }
    }
}

impl LogSource {
    /// Whether two identities are the same: the same hash and the same index.
    pub fn equals(&self, other: &LogSource) -> (r: bool)
        ensures
            r == (self@ == other@),
    {
        self.transaction_hash == other.transaction_hash && self.log_index.equals(&other.log_index)
    }

    /// Whether this identity comes before the other, in the order of the
    /// hashes and, for one hash, of the indices.
    pub fn less_than(&self, other: &LogSource) -> (r: bool)
        ensures
            r == self@.less_than(other@),
    {
        if self.transaction_hash == other.transaction_hash {
            proof {
                lemma_text_less_irreflexive(self.transaction_hash@);
            }
            self.log_index.less_than(&other.log_index)
        } else {
            str_less(self.transaction_hash.as_str(), other.transaction_hash.as_str())
        }
    }
}

/// No text comes before itself.
pub proof fn lemma_text_less_irreflexive(a: Seq<char>)
    ensures
        !text_less(a, a),
    decreases a.len(),
{
    if a.len() > 0 {
        lemma_text_less_irreflexive(a.drop_first());
    }
}

/// Of two different texts, one comes before the other, and not both.
pub proof fn lemma_text_less_total(a: Seq<char>, b: Seq<char>)
    ensures
        a != b ==> (text_less(a, b) <==> !text_less(b, a)),
    decreases a.len(),
{
    if a.len() > 0 && b.len() > 0 {
        if a[0] == b[0] {
            lemma_text_less_total(a.drop_first(), b.drop_first());
            if a.drop_first() == b.drop_first() {
                assert(a =~= seq![a[0]] + a.drop_first());
                assert(b =~= seq![b[0]] + b.drop_first());
            }
        }
    } else if a.len() == 0 && b.len() == 0 {
        assert(a =~= b);
    }
}

/// What comes before a text comes before every text that the text comes
/// before.
pub proof fn lemma_text_less_transitive(a: Seq<char>, b: Seq<char>, c: Seq<char>)
    requires
        text_less(a, b),
        text_less(b, c),
    ensures
        text_less(a, c),
    decreases a.len(),
{
    if a.len() > 0 && a[0] == b[0] && b[0] == c[0] {
        lemma_text_less_transitive(a.drop_first(), b.drop_first(), c.drop_first());
    }
}

/// The order of the identities is total: no identity comes before itself,
/// of two different identities exactly one comes before the other, and what
/// comes before an identity comes before all that the identity comes before.
pub proof fn lemma_log_source_order_total(a: LogSourceView, b: LogSourceView, c: LogSourceView)
    ensures
        !a.less_than(a),
        a != b ==> (a.less_than(b) <==> !b.less_than(a)),
        a.less_than(b) && b.less_than(c) ==> a.less_than(c),
{
    lemma_text_less_irreflexive(a.transaction_hash);
    lemma_text_less_total(a.transaction_hash, b.transaction_hash);
    if a.less_than(b) && b.less_than(c) {
        if text_less(a.transaction_hash, b.transaction_hash) && text_less(
            b.transaction_hash,
            c.transaction_hash,
        ) {
            lemma_text_less_transitive(a.transaction_hash, b.transaction_hash, c.transaction_hash);
        }
    }
}

/// What a `LogEntry` holds, as plain values.
pub struct LogEntryView {
    pub transaction_hash: Option<Seq<char>>,
    pub block_number: Option<nat>,
    pub data: Seq<char>,
    pub block_hash: Option<Seq<char>>,
    pub transaction_index: Option<nat>,
    pub topics: Seq<Seq<char>>,
    pub address: Seq<char>,
    pub log_index: Option<nat>,
    pub removed: bool,
}

impl LogEntryView {
    /// The identity of the record. A record of a block that is not final
    /// lacks its hash or its index, and has none.
    pub open spec fn source(self) -> Option<LogSourceView> {
        if self.transaction_hash is Some && self.log_index is Some {
            Some(
                LogSourceView {
                    transaction_hash: self.transaction_hash->0,
                    log_index: self.log_index->0,
                },
            )
        } else {
            None
        }
    }
}

/// One log record, as the chain-data provider delivers it.
#[derive(Debug, PartialEq, Eq)]
pub struct LogEntry {
    pub transaction_hash: Option<String>,
    pub block_number: Option<Natural>,
    pub data: String,
    pub block_hash: Option<String>,
    pub transaction_index: Option<Natural>,
    pub topics: Vec<String>,
    pub address: String,
    pub log_index: Option<Natural>,
    pub removed: bool,
}

/// The characters of an optional text.
pub open spec fn text_view(t: Option<String>) -> Option<Seq<char>> {
    match t {
        Some(s) => Some(s@),
        None => None,
    }
}

/// The number of an optional natural.
pub open spec fn number_view(n: Option<Natural>) -> Option<nat> {
    match n {
        Some(x) => Some(x@),
        None => None,
    }
}

/// The characters of each text of a list.
pub open spec fn texts_view(t: Seq<String>) -> Seq<Seq<char>> {
    Seq::new(t.len(), |i: int| t[i]@)
}

impl View for LogEntry {
    type V = LogEntryView;

    open spec fn view(&self) -> LogEntryView {
        LogEntryView {
            transaction_hash: text_view(self.transaction_hash),
            block_number: number_view(self.block_number),
            data: self.data@,
            block_hash: text_view(self.block_hash),
            transaction_index: number_view(self.transaction_index),
            topics: texts_view(self.topics@),
            address: self.address@,
            log_index: number_view(self.log_index),
            removed: self.removed,
        }
    }
}

/// A copy of an optional text.
pub(crate) fn clone_text(t: &Option<String>) -> (r: Option<String>)
    ensures
        text_view(r) == text_view(*t),
{
    match t {
        Some(s) => Some(s.clone()),
        None => None,
    }
}

/// A copy of an optional natural.
pub(crate) fn clone_number(n: &Option<Natural>) -> (r: Option<Natural>)
    ensures
        number_view(r) == number_view(*n),
{
    match n {
        Some(x) => Some(x.clone()),
        None => None,
    }
}

/// A copy of a list of texts.
pub(crate) fn clone_texts(t: &Vec<String>) -> (r: Vec<String>)
    ensures
        texts_view(r@) == texts_view(t@),
{
    let mut out: Vec<String> = Vec::new();
    let mut i: usize = 0;
    while i < t.len()
        invariant
            i <= t.len(),
            out.len() == i,
            forall|j: int| 0 <= j < i ==> out[j]@ == t[j]@,
        decreases t.len() - i,
    {
        out.push(t[i].clone());
        i += 1;
    }
    assert(texts_view(out@) =~= texts_view(t@));
    out
}

impl Clone for LogEntry {
    fn clone(&self) -> (r: Self)
        ensures
            r@ == self@,
    {
        LogEntry {
            transaction_hash: clone_text(&self.transaction_hash),
            block_number: clone_number(&self.block_number),
            data: self.data.clone(),
            block_hash: clone_text(&self.block_hash),
            transaction_index: clone_number(&self.transaction_index),
            topics: clone_texts(&self.topics),
            address: self.address.clone(),
            log_index: clone_number(&self.log_index),
            removed: self.removed,
        }
    }
}

impl LogEntry {
    /// The identity of the record: its transaction hash and its log index.
    /// `None` where the record lacks either, as a record of a block that is
    /// not final does.
    pub fn source(&self) -> (r: Option<LogSource>)
        ensures
            match r {
                Some(s) => self@.source() == Some(s@),
                None => self@.source() is None,
            },
    {
        match (&self.transaction_hash, &self.log_index) {
            (Some(hash), Some(index)) => Some(
                LogSource { transaction_hash: hash.clone(), log_index: index.clone() },
            ),
            _ => None,
        }
    }
}

} // verus!
