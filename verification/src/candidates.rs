//! The candidate table: classified completion candidates keyed by a
//! qualified name, with last-write-wins insertion and a stable sort bucket
//! per kind.

use vstd::prelude::*;
use vstd::pervasive::VecAdditionalExecFns;

verus! {

/// The kind a candidate is classified as.
#[derive(Clone, Copy, PartialEq, Eq, Structural, Debug)]
pub enum CompletionKind {
    Keyword,
    Type,
    StorageVariable,
    Variable,
}

/// A classified completion candidate carrying its display label.
#[derive(PartialEq, Eq, Debug)]
pub enum ImCompleteCompletionItem {
    Variable(String),
    Type(String),
    Keyword(String),
    StorageVariable(String),
}

impl ImCompleteCompletionItem {
    /// The kind tag of this candidate.
    pub open spec fn kind(self) -> CompletionKind {
        match self {
            ImCompleteCompletionItem::Variable(_) => CompletionKind::Variable,
            ImCompleteCompletionItem::Type(_) => CompletionKind::Type,
            ImCompleteCompletionItem::Keyword(_) => CompletionKind::Keyword,
            ImCompleteCompletionItem::StorageVariable(_) => CompletionKind::StorageVariable,
        }
    }

    /// The display label of this candidate.
    pub open spec fn label(self) -> Seq<char> {
        match self {
            ImCompleteCompletionItem::Variable(s) => s@,
            ImCompleteCompletionItem::Type(s) => s@,
            ImCompleteCompletionItem::Keyword(s) => s@,
            ImCompleteCompletionItem::StorageVariable(s) => s@,
        }
    }

    /// The kind and label together, as a candidate table stores them.
    pub open spec fn entry_val(self) -> (CompletionKind, Seq<char>) {
        (self.kind(), self.label())
    }

    /// Executable kind tag of this candidate.
    pub fn classify(&self) -> (k: CompletionKind)
        ensures
            k == self.kind(),
    {
        match self {
            ImCompleteCompletionItem::Variable(_) => CompletionKind::Variable,
            ImCompleteCompletionItem::Type(_) => CompletionKind::Type,
            ImCompleteCompletionItem::Keyword(_) => CompletionKind::Keyword,
            ImCompleteCompletionItem::StorageVariable(_) => CompletionKind::StorageVariable,
        }
    }
}

/// The presentation sort bucket of a kind: keywords sort first, built-in
/// types second, predicate-scoped variables third, storage fields last.
pub open spec fn sort_bucket_spec(k: CompletionKind) -> char {
    match k {
        CompletionKind::Keyword => 'a',
        CompletionKind::Type => 'b',
        CompletionKind::Variable => 'c',
        CompletionKind::StorageVariable => 'd',
    }
}

/// Sort-bucket character of a kind, for a presenter to order candidates by:
/// Keyword < Type < Variable < StorageVariable.
pub fn sort_bucket(k: CompletionKind) -> (c: char)
    ensures
        c == sort_bucket_spec(k),
{
    match k {
        CompletionKind::Keyword => 'a',
        CompletionKind::Type => 'b',
        CompletionKind::Variable => 'c',
        CompletionKind::StorageVariable => 'd',
    }
}

/// One row of a candidate table.
pub struct CandidateEntry {
    pub key: String,
    pub item: ImCompleteCompletionItem,
}

/// The mapping a sequence of table rows denotes, later rows overwriting
/// earlier ones with the same key.
pub open spec fn entries_map(s: Seq<CandidateEntry>) -> Map<
    Seq<char>,
    (CompletionKind, Seq<char>),
>
    decreases s.len(),
{
    if s.len() == 0 {
        Map::empty()
    } else {
        entries_map(s.drop_last()).insert(s.last().key@, s.last().item.entry_val())
    }
}

/// A candidate table: qualified key to classified, labeled candidate.
/// Keys are kept unique; an insert with an existing key replaces that row.
pub struct CandidateMap {
    pub entries: Vec<CandidateEntry>,
}

impl View for CandidateMap {
    type V = Map<Seq<char>, (CompletionKind, Seq<char>)>;

    open spec fn view(&self) -> Map<Seq<char>, (CompletionKind, Seq<char>)> {
        entries_map(self.entries@)
    }
}

impl CandidateMap {
    /// Each key occurs on at most one row.
    pub open spec fn wf(self) -> bool {
        forall|i: int, j: int|
            0 <= i < j < self.entries@.len() ==> self.entries@[i].key@ != self.entries@[j].key@
    }

    /// An empty candidate table.
    pub fn new() -> (r: CandidateMap)
        ensures
            r.wf(),
            r@ == Map::<Seq<char>, (CompletionKind, Seq<char>)>::empty(),
    {
        CandidateMap { entries: Vec::new() }
    }

    /// Number of rows; with `wf`, the number of distinct keys.
    pub fn len(&self) -> (n: usize)
        ensures
            n == self.entries@.len(),
    {
        self.entries.len()
    }

    /// Insert a candidate under `key`; a row with the same key is replaced
    /// (last write wins).
    pub fn insert(&mut self, key: String, item: ImCompleteCompletionItem)
        requires
            old(self).wf(),
        ensures
            final(self).wf(),
            final(self)@ == old(self)@.insert(key@, item.entry_val()),
    {
        let n = self.entries.len();
        let mut i: usize = 0;
        while i < n
            invariant
                n == self.entries@.len(),
                self.wf(),
                *self == *old(self),
                forall|j: int| 0 <= j < i ==> self.entries@[j].key@ != key@,
            decreases n - i,
        {
            if self.entries[i].key == key {
                let ghost pre = self.entries@;
                self.entries.set(i, CandidateEntry { key, item });
                proof {
                    lemma_entries_map_update(pre, i as int, self.entries@[i as int]);
                }
                return;
            }
            i += 1;
        }
        let ghost pre = self.entries@;
        self.entries.push(CandidateEntry { key, item });
        proof {
            assert(self.entries@.drop_last() =~= pre);
        }
    }

    /// Look a key up; returns the stored candidate or `None`.
    pub fn get(&self, key: &String) -> (r: Option<&ImCompleteCompletionItem>)
        requires
            self.wf(),
        ensures
            match r {
                Some(item) => self@.contains_key(key@) && self@[key@] == item.entry_val(),
                None => !self@.contains_key(key@),
            },
    {
        let n = self.entries.len();
        let mut i: usize = 0;
        while i < n
            invariant
                n == self.entries@.len(),
                self.wf(),
                forall|j: int| 0 <= j < i ==> self.entries@[j].key@ != key@,
            decreases n - i,
        {
            if self.entries[i].key == *key {
                proof {
                    lemma_entries_map_index(self.entries@, i as int);
                }
                return Some(&self.entries[i].item);
            }
            i += 1;
        }
        proof {
            lemma_entries_map_contains(self.entries@, key@);
        }
        None
    }
}

/// A key is in the denoted mapping exactly when some row carries it.
pub proof fn lemma_entries_map_contains(s: Seq<CandidateEntry>, k: Seq<char>)
    ensures
        entries_map(s).contains_key(k) <==> exists|i: int| 0 <= i < s.len() && s[i].key@ == k,
    decreases s.len(),
{
    if s.len() > 0 {
        lemma_entries_map_contains(s.drop_last(), k);
        if s.last().key@ == k {
            assert(s[s.len() - 1].key@ == k);
        } else if entries_map(s).contains_key(k) {
            let i = choose|i: int| 0 <= i < s.drop_last().len() && s.drop_last()[i].key@ == k;
            assert(s[i].key@ == k);
        } else {
            assert(forall|i: int|
                0 <= i < s.len() - 1 ==> s.drop_last()[i].key@ == s[i].key@);
        }
    }
}

/// With unique keys, the denoted mapping sends a row's key to that row's
/// candidate.
pub proof fn lemma_entries_map_index(s: Seq<CandidateEntry>, i: int)
    requires
        0 <= i < s.len(),
        forall|p: int, q: int| 0 <= p < q < s.len() ==> s[p].key@ != s[q].key@,
    ensures
        entries_map(s).contains_key(s[i].key@),
        entries_map(s)[s[i].key@] == s[i].item.entry_val(),
    decreases s.len(),
{
    if i == s.len() - 1 {
    } else {
        assert(forall|p: int, q: int|
            0 <= p < q < s.drop_last().len() ==> s.drop_last()[p].key@ != s.drop_last()[q].key@);
        lemma_entries_map_index(s.drop_last(), i);
        assert(s.drop_last()[i] == s[i]);
        assert(s.last().key@ != s[i].key@);
    }
}

/// Replacing the row that carries `k` with another row keyed `k` denotes
/// the same mapping as inserting the new candidate under `k`.
pub proof fn lemma_entries_map_update(s: Seq<CandidateEntry>, i: int, e: CandidateEntry)
    requires
        0 <= i < s.len(),
        forall|p: int, q: int| 0 <= p < q < s.len() ==> s[p].key@ != s[q].key@,
        e.key@ == s[i].key@,
    ensures
        entries_map(s.update(i, e)) == entries_map(s).insert(e.key@, e.item.entry_val()),
    decreases s.len(),
{
    let t = s.update(i, e);
    if i == s.len() - 1 {
        assert(t.drop_last() =~= s.drop_last());
        assert(t.last() == e);
        assert(entries_map(t) =~= entries_map(s).insert(e.key@, e.item.entry_val()));
    } else {
        assert(t.drop_last() =~= s.drop_last().update(i, e));
        assert(forall|p: int, q: int|
            0 <= p < q < s.drop_last().len() ==> s.drop_last()[p].key@ != s.drop_last()[q].key@);
        assert(s.drop_last()[i] == s[i]);
        lemma_entries_map_update(s.drop_last(), i, e);
        assert(t.last() == s.last());
        assert(s.last().key@ != e.key@);
        assert(entries_map(t) =~= entries_map(s).insert(e.key@, e.item.entry_val()));
    }
}

} // verus!
