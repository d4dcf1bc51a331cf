//! Documents attached to a token, each under a 32-byte name. Documents sit in
//! one dense sequence, read back in buckets of [`BUCKET_SIZE`]; removing one
//! moves the last document into its place.
use vstd::prelude::*;

use crate::hash32::Hash32;

verus! {

/// Errors of the document manager.
#[derive(Clone, Copy, Debug, PartialEq, Eq)]
pub enum DocumentError {
    DocumentNotFound,
    MaxDocumentsReached,
    UriTooLong,
}

pub const MAX_BUCKETS: u32 = 100;

pub const BUCKET_SIZE: u32 = 50;

pub const MAX_DOCUMENTS: u32 = 5000;

/// The most characters a document's URI may have.
pub const MAX_URI_LEN: u32 = 200;

/// Whether `b` starts a character in UTF-8 text: every byte but a
/// continuation byte (`10xxxxxx`).
pub open spec fn starts_char(b: u8) -> bool {
    !(0x80 <= b && b < 0xC0)
}

/// The number of characters of the UTF-8 text `s`: the bytes that start
/// one.
pub open spec fn char_count(s: Seq<u8>) -> nat
    decreases s.len(),
{
    if s.len() == 0 {
        0
    } else {
        char_count(s.drop_last()) + if starts_char(s.last()) {
            1nat
        } else {
            0nat
        }
    }
}

/// Counts the characters of the UTF-8 text `s`.
pub fn count_chars(s: &Vec<u8>) -> (n: usize)
    ensures
        n == char_count(s@),
{
    let mut n: usize = 0;
    let mut i: usize = 0;
    while i < s.len()
        invariant
            i <= s.len(),
            n <= i,
            n == char_count(s@.subrange(0, i as int)),
        decreases s.len() - i,
    {
        let b = s[i];
        assert(s@.subrange(0, i as int + 1).drop_last() =~= s@.subrange(0, i as int));
        if !(0x80 <= b && b < 0xC0) {
            n = n + 1;
        }
        i = i + 1;
    }
    assert(s@.subrange(0, s@.len() as int) =~= s@);
    n
}

/// A document: where to find it, its hash, and when it was last set.
#[derive(Debug)]
pub struct Document {
    pub uri: Vec<u8>,
    pub document_hash: Hash32,
    pub timestamp: u64,
}

/// A document as a mathematical value.
pub struct DocumentView {
    pub uri: Seq<u8>,
    pub document_hash: Hash32,
    pub timestamp: u64,
}

impl View for Document {
    type V = DocumentView;

    open spec fn view(&self) -> DocumentView {
        DocumentView { uri: self.uri@, document_hash: self.document_hash, timestamp: self.timestamp }
    }
}

/// A byte-for-byte copy.
pub fn copy_bytes(v: &Vec<u8>) -> (r: Vec<u8>)
    ensures
        r@ == v@,
{
    let mut out: Vec<u8> = Vec::new();
    let mut i: usize = 0;
    while i < v.len()
        invariant
            i <= v.len(),
            out@ == v@.subrange(0, i as int),
        decreases v.len() - i,
    {
        out.push(v[i]);
        i = i + 1;
        assert(out@ =~= v@.subrange(0, i as int));
    }
    assert(out@ =~= v@);
    out
}

fn copy_document(d: &Document) -> (r: Document)
    ensures
        r@ == d@,
{
    Document { uri: copy_bytes(&d.uri), document_hash: d.document_hash, timestamp: d.timestamp }
}

/// The documents in order, each with its name.
pub struct DocumentStorage {
    entries: Vec<(Hash32, Document)>,
}

pub open spec fn entry_view(e: (Hash32, Document)) -> (Hash32, DocumentView) {
    (e.0, e.1@)
}

/// No two entries share a name.
pub open spec fn names_distinct(s: Seq<(Hash32, DocumentView)>) -> bool {
    forall|i: int, j: int| 0 <= i < s.len() && 0 <= j < s.len() && i != j ==> s[i].0 != s[j].0
}

/// Whether some entry has this name.
pub open spec fn has_name(s: Seq<(Hash32, DocumentView)>, name: Hash32) -> bool {
    exists|i: int| 0 <= i < s.len() && s[i].0 == name
}

/// The position of the entry with this name (meaningful when there is one).
pub open spec fn position_of(s: Seq<(Hash32, DocumentView)>, name: Hash32) -> int {
    choose|i: int| 0 <= i < s.len() && s[i].0 == name
}

/// The document under `name`, if any.
pub open spec fn document_named(s: Seq<(Hash32, DocumentView)>, name: Hash32) -> Option<
    DocumentView,
> {
    if has_name(s, name) {
        Some(s[position_of(s, name)].1)
    } else {
        None
    }
}

/// The entries that bucket `bucket_index` holds.
pub open spec fn bucket_of(s: Seq<(Hash32, DocumentView)>, bucket_index: int) -> Seq<
    (Hash32, DocumentView),
> {
    let start = bucket_index * BUCKET_SIZE;
    if start >= s.len() {
        Seq::empty()
    } else if start + BUCKET_SIZE <= s.len() {
        s.subrange(start, start + BUCKET_SIZE)
    } else {
        s.subrange(start, s.len() as int)
    }
}

proof fn lemma_position_unique(s: Seq<(Hash32, DocumentView)>, name: Hash32, i: int)
    requires
        names_distinct(s),
        0 <= i < s.len(),
        s[i].0 == name,
    ensures
        has_name(s, name),
        position_of(s, name) == i,
        document_named(s, name) == Some(s[i].1),
{
    assert(has_name(s, name));
}

impl DocumentStorage {
    pub closed spec fn view(&self) -> Seq<(Hash32, DocumentView)> {
        self.entries@.map_values(|e: (Hash32, Document)| entry_view(e))
    }

    /// Names are distinct and there are at most [`MAX_DOCUMENTS`] documents.
    pub open spec fn wf(&self) -> bool {
        &&& names_distinct(self.view())
        &&& self.view().len() <= MAX_DOCUMENTS
    }

    /// No documents.
    pub fn new() -> (s: Self)
        ensures
            s.wf(),
            s.view() == Seq::<(Hash32, DocumentView)>::empty(),
    {
        let s = DocumentStorage { entries: Vec::new() };
        assert(s.view() =~= Seq::<(Hash32, DocumentView)>::empty());
        s
    }

    fn find(&self, name: &Hash32) -> (r: Option<usize>)
        requires
            self.wf(),
        ensures
            match r {
                Some(i) => i < self.view().len() && self.view()[i as int].0 == *name,
                None => !has_name(self.view(), *name),
            },
    {
        let mut i: usize = 0;
        while i < self.entries.len()
            invariant
                i <= self.entries.len(),
                self.view().len() == self.entries.len(),
                forall|j: int| 0 <= j < i ==> self.view()[j].0 != *name,
            decreases self.entries.len() - i,
        {
            if self.entries[i].0.same(name) {
                return Some(i);
            }
            i = i + 1;
        }
        None
    }
}

/// The number of documents.
pub fn get_document_count(docs: &DocumentStorage) -> (r: u32)
    requires
        docs.wf(),
    ensures
        r == docs.view().len(),
{
    docs.entries.len() as u32
}

/// The document at `index` with its name; `DocumentNotFound` past the end.
pub fn get_document_by_index(docs: &DocumentStorage, index: u32) -> (r: Result<
    (Hash32, Document),
    DocumentError,
>)
    requires
        docs.wf(),
    ensures
        index >= docs.view().len() ==> r == Err::<(Hash32, Document), DocumentError>(
            DocumentError::DocumentNotFound,
        ),
        index < docs.view().len() ==> r is Ok && entry_view(r->Ok_0) == docs.view()[index as int],
{
    if index as usize >= docs.entries.len() {
        return Err(DocumentError::DocumentNotFound);
    }
    let entry = &docs.entries[index as usize];
    Ok((entry.0, copy_document(&entry.1)))
}

/// The document named `name`; `DocumentNotFound` if there is none.
pub fn get_document(docs: &DocumentStorage, name: &Hash32) -> (r: Result<Document, DocumentError>)
    requires
        docs.wf(),
    ensures
        match document_named(docs.view(), *name) {
            Some(d) => r is Ok && r->Ok_0@ == d,
            None => r == Err::<Document, DocumentError>(DocumentError::DocumentNotFound),
        },
{
    match docs.find(name) {
        Some(i) => {
            proof {
                lemma_position_unique(docs.view(), *name, i as int);
            }
            Ok(copy_document(&docs.entries[i].1))
        },
        None => Err(DocumentError::DocumentNotFound),
    }
}

/// The documents of bucket `bucket_index` (positions `bucket_index *
/// BUCKET_SIZE` onwards, at most [`BUCKET_SIZE`] of them), with their names.
pub fn get_documents(docs: &DocumentStorage, bucket_index: u32) -> (r: Vec<(Hash32, Document)>)
    requires
        docs.wf(),
    ensures
        r@.map_values(|e: (Hash32, Document)| entry_view(e)) == bucket_of(
            docs.view(),
            bucket_index as int,
        ),
{
    let mut out: Vec<(Hash32, Document)> = Vec::new();
    let count = docs.entries.len();
    let start: u64 = bucket_index as u64 * BUCKET_SIZE as u64;
    if start >= count as u64 {
        assert(out@.map_values(|e: (Hash32, Document)| entry_view(e)) =~= bucket_of(
            docs.view(),
            bucket_index as int,
        ));
        return out;
    }
    let start = start as usize;
    let end: usize = if start + (BUCKET_SIZE as usize) <= count {
        start + BUCKET_SIZE as usize
    } else {
        count
    };
    let mut i: usize = start;
    while i < end
        invariant
            start <= i <= end <= count,
            count == docs.entries.len(),
            docs.view().len() == count,
            out@.map_values(|e: (Hash32, Document)| entry_view(e)) =~= docs.view().subrange(
                start as int,
                i as int,
            ),
        decreases end - i,
    {
        let entry = &docs.entries[i];
        let pair = (entry.0, copy_document(&entry.1));
        let ghost old_out = out@;
        assert(entry_view(pair) == docs.view()[i as int]);
        out.push(pair);
        assert(out@.map_values(|e: (Hash32, Document)| entry_view(e)) =~= old_out.map_values(
            |e: (Hash32, Document)| entry_view(e),
        ).push(entry_view(pair)));
        i = i + 1;
        assert(out@.map_values(|e: (Hash32, Document)| entry_view(e)) =~= docs.view().subrange(
            start as int,
            i as int,
        ));
    }
    out
}

/// Sets the document `name` to (`uri`, `document_hash`) stamped with
/// `timestamp`: in place when the name exists, appended otherwise.
///
/// Fails with `UriTooLong` past [`MAX_URI_LEN`] characters of UTF-8 text
/// and with
/// `MaxDocumentsReached` when a new name would exceed [`MAX_DOCUMENTS`];
/// nothing changes then.
pub fn set_document(
    docs: &mut DocumentStorage,
    name: &Hash32,
    uri: &Vec<u8>,
    document_hash: &Hash32,
    timestamp: u64,
) -> (r: Result<(), DocumentError>)
    requires
        old(docs).wf(),
    ensures
        final(docs).wf(),
        ({
            let new_doc = DocumentView { uri: uri@, document_hash: *document_hash, timestamp };
            let before = old(docs).view();
            &&& char_count(uri@) > MAX_URI_LEN ==> r == Err::<(), DocumentError>(DocumentError::UriTooLong)
            &&& char_count(uri@) <= MAX_URI_LEN && !has_name(before, *name) && before.len()
                >= MAX_DOCUMENTS ==> r == Err::<(), DocumentError>(
                DocumentError::MaxDocumentsReached,
            )
            &&& r is Err ==> *final(docs) == *old(docs)
            &&& r is Ok <==> char_count(uri@) <= MAX_URI_LEN && (has_name(before, *name) || before.len()
                < MAX_DOCUMENTS)
            &&& r is Ok && has_name(before, *name) ==> final(docs).view() == before.update(
                position_of(before, *name),
                (*name, new_doc),
            )
            &&& r is Ok && !has_name(before, *name) ==> final(docs).view() == before.push(
                (*name, new_doc),
            )
            &&& r is Ok ==> document_named(final(docs).view(), *name) == Some(new_doc)
        }),
{
    if count_chars(uri) > MAX_URI_LEN as usize {
        return Err(DocumentError::UriTooLong);
    }
    let ghost before = docs.view();
    let document = Document { uri: copy_bytes(uri), document_hash: *document_hash, timestamp };
    match docs.find(name) {
        Some(i) => {
            proof {
                lemma_position_unique(before, *name, i as int);
            }
            docs.entries.set(i, (*name, document));
            proof {
                assert(docs.view() =~= before.update(i as int, (*name, document@)));
                lemma_position_unique(docs.view(), *name, i as int);
            }
        },
        None => {
            if docs.entries.len() >= MAX_DOCUMENTS as usize {
                return Err(DocumentError::MaxDocumentsReached);
            }
            docs.entries.push((*name, document));
            proof {
                assert(docs.view() =~= before.push((*name, document@)));
                lemma_position_unique(docs.view(), *name, before.len() as int);
            }
        },
    }
    Ok(())
}

/// Removes the document `name`, moving the last document into its place;
/// `DocumentNotFound` (and no change) if there is none.
pub fn remove_document(docs: &mut DocumentStorage, name: &Hash32) -> (r: Result<(), DocumentError>)
    requires
        old(docs).wf(),
    ensures
        final(docs).wf(),
        ({
            let before = old(docs).view();
            &&& !has_name(before, *name) ==> r == Err::<(), DocumentError>(
                DocumentError::DocumentNotFound,
            ) && *final(docs) == *old(docs)
            &&& has_name(before, *name) ==> r is Ok && final(docs).view() == before.update(
                position_of(before, *name),
                before.last(),
            ).drop_last()
            &&& r is Ok ==> document_named(final(docs).view(), *name) is None
            &&& forall|n: Hash32|
                n != *name ==> #[trigger] document_named(final(docs).view(), n) == document_named(
                    before,
                    n,
                )
        }),
{
    let ghost before = docs.view();
    let i = match docs.find(name) {
        Some(i) => i,
        None => {
            return Err(DocumentError::DocumentNotFound);
        },
    };
    proof {
        lemma_position_unique(before, *name, i as int);
    }
    let last = docs.entries.len() - 1;
    if i != last {
        let moved = docs.entries.pop().unwrap();
        docs.entries.set(i, moved);
    } else {
        docs.entries.pop();
    }
    let ghost after = docs.view();
    proof {
        assert(after =~= before.update(i as int, before.last()).drop_last());
        assert forall|n: Hash32| n != *name implies #[trigger] document_named(after, n)
            == document_named(before, n) by {
            if has_name(before, n) {
                let p = position_of(before, n);
                lemma_position_unique(before, n, p);
                let q = if p == last as int {
                    i as int
                } else {
                    p
                };
                assert(after[q].0 == n);
                lemma_position_unique(after, n, q);
            } else {
                if has_name(after, n) {
                    let q = position_of(after, n);
                    if q == i as int {
                        assert(before[last as int].0 == n);
                    } else {
                        assert(before[q].0 == n);
                    }
                }
            }
        }
        if has_name(after, *name) {
            let q = position_of(after, *name);
            if q == i as int {
                assert(before[last as int].0 == *name);
            } else {
                assert(before[q].0 == *name);
            }
        }
    }
    Ok(())
}

} // verus!
