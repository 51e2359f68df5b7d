//! The extracted-files map: an insertion-ordered mapping from destination
//! path to accumulated block content.
//!
//! Each destination appears once; repeated blocks for one destination merge
//! into a single entry, every later block appended behind a separating
//! newline and followed by a trailing newline.

use vstd::prelude::*;

verus! {

/// The model of the map: entries in insertion order, each a destination
/// path and its accumulated content.
pub type Entries = Seq<(Seq<char>, Seq<char>)>;

/// First index holding key `k`, scanning left to right.
pub open spec fn key_index(m: Entries, k: Seq<char>) -> Option<int>
    decreases m.len(),
{
    if m.len() == 0 {
        None
    } else if m[0].0 == k {
        Some(0int)
    } else {
        match key_index(m.subrange(1, m.len() as int), k) {
            Some(i) => Some(i + 1),
            None => None,
        }
    }
}

/// One accumulation step: a block with destination `k` and text `v` either
/// extends the entry already keyed `k` (separating newline, then the text,
/// then a trailing newline) or becomes a fresh entry holding the text
/// verbatim.
pub open spec fn spec_add_block(m: Entries, k: Seq<char>, v: Seq<char>) -> Entries {
    match key_index(m, k) {
        Some(i) => m.update(i, (k, m[i].1 + seq!['\n'] + v + seq!['\n'])),
        None => m.push((k, v)),
    }
}

/// Folding a document-ordered sequence of (destination, text) pairs into
/// the entries, first pair first.
pub open spec fn spec_collect(m: Entries, pairs: Entries) -> Entries
    decreases pairs.len(),
{
    if pairs.len() == 0 {
        m
    } else {
        spec_collect(
            spec_add_block(m, pairs[0].0, pairs[0].1),
            pairs.subrange(1, pairs.len() as int),
        )
    }
}

/// Keys are pairwise distinct.
pub open spec fn keys_distinct(m: Entries) -> bool {
    forall|i: int, j: int| 0 <= i < j < m.len() ==> m[i].0 != m[j].0
}

proof fn lemma_key_index_props(m: Entries, k: Seq<char>)
    ensures
        match key_index(m, k) {
            Some(i) => 0 <= i < m.len() && m[i].0 == k && forall|j: int|
                0 <= j < i ==> m[j].0 != k,
            None => forall|j: int| 0 <= j < m.len() ==> m[j].0 != k,
        },
    decreases m.len(),
{
    if m.len() > 0 && m[0].0 != k {
        let sub = m.subrange(1, m.len() as int);
        lemma_key_index_props(sub, k);
        match key_index(sub, k) {
            Some(i) => {
                assert(m[i + 1] == sub[i]);
                assert forall|j: int| 0 <= j < i + 1 implies m[j].0 != k by {
                    if j > 0 {
                        assert(m[j] == sub[j - 1]);
                    }
                }
            },
            None => {
                assert forall|j: int| 0 <= j < m.len() implies m[j].0 != k by {
                    if j > 0 {
                        assert(m[j] == sub[j - 1]);
                    }
                }
            },
        }
    }
}

proof fn lemma_key_index_first(m: Entries, k: Seq<char>, i: int)
    requires
        0 <= i < m.len(),
        m[i].0 == k,
        forall|j: int| 0 <= j < i ==> m[j].0 != k,
    ensures
        key_index(m, k) == Some(i),
    decreases i,
{
    if i > 0 {
        let sub = m.subrange(1, m.len() as int);
        assert(sub[i - 1] == m[i]);
        assert forall|j: int| 0 <= j < i - 1 implies sub[j].0 != k by {
            assert(sub[j] == m[j + 1]);
        }
        lemma_key_index_first(sub, k, i - 1);
    }
}

proof fn lemma_key_index_none(m: Entries, k: Seq<char>)
    requires
        forall|j: int| 0 <= j < m.len() ==> m[j].0 != k,
    ensures
        key_index(m, k) is None,
    decreases m.len(),
{
    if m.len() > 0 {
        let sub = m.subrange(1, m.len() as int);
        assert forall|j: int| 0 <= j < sub.len() implies sub[j].0 != k by {
            assert(sub[j] == m[j + 1]);
        }
        lemma_key_index_none(sub, k);
    }
}

/// Accumulation never duplicates a destination.
pub proof fn lemma_add_block_keeps_keys_distinct(m: Entries, k: Seq<char>, v: Seq<char>)
    requires
        keys_distinct(m),
    ensures
        keys_distinct(spec_add_block(m, k, v)),
{
    lemma_key_index_props(m, k);
}

/// Two blocks naming one destination merge into a single entry: the first
/// text verbatim, a separating newline, the second text, and a trailing
/// newline.
pub proof fn lemma_duplicate_destination_merges(
    m: Entries,
    k: Seq<char>,
    v1: Seq<char>,
    v2: Seq<char>,
)
    requires
        key_index(m, k) is None,
    ensures
        spec_collect(m, seq![(k, v1), (k, v2)]) == m.push(
            (k, v1 + seq!['\n'] + v2 + seq!['\n']),
        ),
{
    let pairs = seq![(k, v1), (k, v2)];
    lemma_key_index_props(m, k);
    let m1 = spec_add_block(m, k, v1);
    assert(m1 == m.push((k, v1)));
    assert(m1[m.len() as int].0 == k);
    assert(forall|j: int| 0 <= j < m.len() ==> m1[j] == m[j]);
    lemma_key_index_first(m1, k, m.len() as int);
    let m2 = spec_add_block(m1, k, v2);
    assert(m2 == m1.update(m.len() as int, (k, v1 + seq!['\n'] + v2 + seq!['\n'])));
    assert(pairs[0] == (k, v1));
    assert(pairs.subrange(1, 2) =~= seq![(k, v2)]);
    assert(spec_collect(m, pairs) == spec_collect(m1, seq![(k, v2)]));
    assert(seq![(k, v2)][0] == (k, v2));
    assert(seq![(k, v2)].subrange(1, 1) =~= Seq::<(Seq<char>, Seq<char>)>::empty());
    assert(spec_collect(m1, seq![(k, v2)]) == spec_collect(
        m2,
        Seq::<(Seq<char>, Seq<char>)>::empty(),
    ));
    assert(spec_collect(m2, Seq::<(Seq<char>, Seq<char>)>::empty()) == m2);
    assert(m2 =~= m.push((k, v1 + seq!['\n'] + v2 + seq!['\n'])));
}

/// Character-by-character string comparison.
fn str_eq(a: &str, b: &str) -> (r: bool)
    ensures
        r == (a@ == b@),
{
    let na = a.unicode_len();
    let nb = b.unicode_len();
    if na != nb {
        return false;
    }
    let mut i: usize = 0;
    while i < na
        invariant
            na == a@.len(),
            na == b@.len(),
            i <= na,
            forall|j: int| 0 <= j < i ==> a@[j] == b@[j],
        decreases na - i,
    {
        if a.get_char(i) != b.get_char(i) {
            return false;
        }
        i = i + 1;
    }
    proof {
        assert(a@ =~= b@);
    }
    true
}

/// Insertion-ordered mapping from destination path to accumulated content.
pub struct FileMap {
    entries: Vec<(String, String)>,
}

impl View for FileMap {
    type V = Entries;

    closed spec fn view(&self) -> Entries {
        self.entries@.map_values(|e: (String, String)| (e.0@, e.1@))
    }
}

impl FileMap {
    /// Destinations never repeat among the entries.
    pub open spec fn wf(&self) -> bool {
        keys_distinct(self@)
    }

    /// The empty map a run starts from.
    pub fn new() -> (m: FileMap)
        ensures
            m@ == Seq::<(Seq<char>, Seq<char>)>::empty(),
            m.wf(),
    {
        let m = FileMap { entries: Vec::new() };
        proof {
            assert(m@ =~= Seq::<(Seq<char>, Seq<char>)>::empty());
        }
        m
    }

    /// Number of distinct destinations collected so far.
    pub fn len(&self) -> (n: usize)
        ensures
            n == self@.len(),
    {
        self.entries.len()
    }

    /// Destination path of the entry at position `i` (insertion order).
    pub fn path_at(&self, i: usize) -> (r: &String)
        requires
            i < self@.len(),
        ensures
            r@ == self@[i as int].0,
    {
        &self.entries[i].0
    }

    /// Accumulated content of the entry at position `i` (insertion order).
    pub fn content_at(&self, i: usize) -> (r: &String)
        requires
            i < self@.len(),
        ensures
            r@ == self@[i as int].1,
    {
        &self.entries[i].1
    }

    /// Content accumulated for a destination path, if any block named it.
    pub fn get(&self, path: &str) -> (r: Option<&String>)
        ensures
            match key_index(self@, path@) {
                Some(i) => r matches Some(c) && c@ == self@[i].1,
                None => r is None,
            },
    {
        proof {
            lemma_key_index_props(self@, path@);
        }
        let n = self.entries.len();
        let mut i: usize = 0;
        while i < n
            invariant
                n == self@.len(),
                i <= n,
                forall|j: int| 0 <= j < i ==> self@[j].0 != path@,
                key_index(self@, path@) matches Some(x) ==> 0 <= x < n && self@[x].0 == path@,
                key_index(self@, path@) is None ==> forall|j: int|
                    0 <= j < n ==> self@[j].0 != path@,
            decreases n - i,
        {
            if str_eq(self.entries[i].0.as_str(), path) {
                proof {
                    lemma_key_index_first(self@, path@, i as int);
                }
                return Some(&self.entries[i].1);
            }
            i = i + 1;
        }
        proof {
            lemma_key_index_none(self@, path@);
        }
        None
    }

    /// Records one block: appends its text to the entry for `path` behind a
    /// separating newline and with a trailing newline, or starts a fresh
    /// entry holding the text verbatim.
    pub fn add_block(&mut self, path: String, value: &String)
        requires
            old(self).wf(),
        ensures
            final(self)@ == spec_add_block(old(self)@, path@, value@),
            final(self).wf(),
    {
        proof {
            lemma_key_index_props(self@, path@);
        }
        let ghost m0 = self@;
        let n = self.entries.len();
        let mut i: usize = 0;
        while i < n
            invariant
                self@ == m0,
                m0 == old(self)@,
                keys_distinct(m0),
                n == self@.len(),
                i <= n,
                forall|j: int| 0 <= j < i ==> self@[j].0 != path@,
            decreases n - i,
        {
            if str_eq(self.entries[i].0.as_str(), path.as_str()) {
                proof {
                    lemma_key_index_first(self@, path@, i as int);
                }
                let pair = self.entries.remove(i);
                let key = pair.0;
                let mut content = pair.1;
                content.append("\n");
                content.append(value.as_str());
                content.append("\n");
                proof {
                    reveal_strlit("\n");
                    assert("\n"@ =~= seq!['\n']);
                }
                self.entries.insert(i, (key, content));
                proof {
                    assert(self@ =~= spec_add_block(m0, path@, value@));
                    lemma_add_block_keeps_keys_distinct(m0, path@, value@);
                }
                return ;
            }
            i = i + 1;
        }
        proof {
            lemma_key_index_none(self@, path@);
        }
        let ghost pk = path@;
        self.entries.push((path, value.clone()));
        proof {
            assert(self@ =~= spec_add_block(m0, pk, value@));
            lemma_add_block_keeps_keys_distinct(m0, pk, value@);
        }
    }
}

} // verus!
