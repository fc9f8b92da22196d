use vstd::prelude::*;

use crate::parser::ast::{clone_opt, opt_view, SymbolKind};
use crate::parser::chunker::{ChunkSpec, CodeChunk};
use crate::text::{owned, push_str};

verus! {

/// A chunk stored with its embedding. `E` is the type of the embedding,
/// which the library carries without computing on it.
#[derive(Debug, Clone)]
pub struct VectorDocument<E> {
    pub chunk_id: String,
    pub relative_path: String,
    pub language: String,
    pub symbol_name: Option<String>,
    pub symbol_kind: Option<String>,
    pub signature: Option<String>,
    pub content: String,
    pub line_start: usize,
    pub line_end: usize,
    pub embedding: E,
}

/// The plain value of a `VectorDocument`.
pub struct VectorDocSpec<E> {
    pub chunk_id: Seq<char>,
    pub relative_path: Seq<char>,
    pub language: Seq<char>,
    pub symbol_name: Option<Seq<char>>,
    pub symbol_kind: Option<Seq<char>>,
    pub signature: Option<Seq<char>>,
    pub content: Seq<char>,
    pub line_start: int,
    pub line_end: int,
    pub embedding: E,
}

impl<E> View for VectorDocument<E> {
    type V = VectorDocSpec<E>;

    open spec fn view(&self) -> VectorDocSpec<E> {
        VectorDocSpec {
            chunk_id: self.chunk_id@,
            relative_path: self.relative_path@,
            language: self.language@,
            symbol_name: opt_view(self.symbol_name),
            symbol_kind: opt_view(self.symbol_kind),
            signature: opt_view(self.signature),
            content: self.content@,
            line_start: self.line_start as int,
            line_end: self.line_end as int,
            embedding: self.embedding,
        }
    }
}

/// The views of a sequence of documents.
pub open spec fn doc_views<E>(v: Seq<VectorDocument<E>>) -> Seq<VectorDocSpec<E>> {
    v.map_values(|d: VectorDocument<E>| d@)
}

/// The document that stores a chunk with an embedding.
pub open spec fn doc_of_chunk<E>(c: ChunkSpec, embedding: E) -> VectorDocSpec<E> {
    VectorDocSpec {
        chunk_id: c.id,
        relative_path: c.relative_path,
        language: c.language.spec_name(),
        symbol_name: c.symbol_name,
        symbol_kind: match c.symbol_kind {
            Some(k) => Some(k.spec_as_str()),
            None => None,
        },
        signature: c.signature,
        content: c.content,
        line_start: c.line_start,
        line_end: c.line_end,
        embedding,
    }
}

/// The documents whose chunk id is not `id`, in order.
pub open spec fn without_chunk<E>(docs: Seq<VectorDocSpec<E>>, id: Seq<char>) -> Seq<VectorDocSpec<E>>
    decreases docs.len(),
{
    if docs.len() == 0 {
        Seq::empty()
    } else {
        let r = without_chunk(docs.drop_last(), id);
        if docs.last().chunk_id == id { r } else { r.push(docs.last()) }
    }
}

/// The documents that are not of the file at `p`, in order.
pub open spec fn without_path<E>(docs: Seq<VectorDocSpec<E>>, p: Seq<char>) -> Seq<VectorDocSpec<E>>
    decreases docs.len(),
{
    if docs.len() == 0 {
        Seq::empty()
    } else {
        let r = without_path(docs.drop_last(), p);
        if docs.last().relative_path == p { r } else { r.push(docs.last()) }
    }
}

/// The chunks of a workspace with their embeddings.
pub struct VectorStore<E> {
    documents: Vec<VectorDocument<E>>,
    file_path: Option<String>,
}

impl<E> VectorStore<E> {
    /// The documents of the store, in order.
    pub closed spec fn docs(self) -> Seq<VectorDocSpec<E>> {
        doc_views(self.documents@)
    }

    /// The file the store is saved to, if any.
    pub closed spec fn storage(self) -> Option<Seq<char>> {
        opt_view(self.file_path)
    }

    /// An empty store kept in memory only.
    pub fn create_in_ram() -> (s: VectorStore<E>)
        ensures
            s.docs() == Seq::<VectorDocSpec<E>>::empty(),
            s.storage() is None,
    {
        let s = VectorStore { documents: Vec::new(), file_path: None };
        assert(s.docs() =~= Seq::<VectorDocSpec<E>>::empty());
        s
    }

    /// A store holding the given documents, saved to `file_path` where given.
    pub fn from_documents(documents: Vec<VectorDocument<E>>, file_path: Option<String>) -> (s: VectorStore<E>)
        ensures
            s.docs() == doc_views(documents@),
            s.storage() == opt_view(file_path),
    {
        VectorStore { documents, file_path }
    }

    /// The documents of the store, in order.
    pub fn documents(&self) -> (d: &Vec<VectorDocument<E>>)
        ensures
            doc_views(d@) == self.docs(),
    {
        &self.documents
    }

    /// The file the store is saved to, if any.
    pub fn file_path(&self) -> (p: &Option<String>)
        ensures
            opt_view(*p) == self.storage(),
    {
        &self.file_path
    }

    /// The number of documents.
    pub fn count(&self) -> (n: usize)
        ensures
            n == self.docs().len(),
    {
        self.documents.len()
    }

    /// Stores a chunk with its embedding (normalized by the caller), in
    /// place of any document with the same chunk id, as the last document.
    pub fn add_chunk_with_embedding(&mut self, chunk: &CodeChunk, embedding: E)
        ensures
            final(self).docs() == without_chunk(old(self).docs(), chunk@.id).push(doc_of_chunk(chunk@, embedding)),
            final(self).storage() == old(self).storage(),
    {
        self.remove_chunk(&chunk.id);
        let doc = VectorDocument {
            chunk_id: chunk.id.clone(),
            relative_path: chunk.relative_path.clone(),
            language: owned(chunk.language.name()),
            symbol_name: clone_opt(&chunk.symbol_name),
            symbol_kind: match &chunk.symbol_kind {
                Some(k) => Some(owned(k.as_str())),
                None => None,
            },
            signature: clone_opt(&chunk.signature),
            content: chunk.content.clone(),
            line_start: chunk.line_start,
            line_end: chunk.line_end,
            embedding,
        };
        let ghost before = self.documents@;
        self.documents.push(doc);
        proof {
            assert(doc@ == doc_of_chunk(chunk@, embedding));
            assert(doc_views(self.documents@) =~= doc_views(before).push(doc@));
        }
    }

    fn remove_chunk(&mut self, id: &String)
        ensures
            final(self).docs() == without_chunk(old(self).docs(), id@),
            final(self).storage() == old(self).storage(),
    {
        let ghost orig = self.docs();
        let n = self.documents.len();
        let mut i: usize = 0;
        let mut k: usize = 0;
        proof {
            assert(orig.subrange(0, 0) =~= Seq::<VectorDocSpec<E>>::empty());
            assert(orig.subrange(0, n as int) =~= orig);
        }
        while k < n
            invariant
                k <= n,
                n == orig.len(),
                i == without_chunk(orig.subrange(0, k as int), id@).len(),
                self.docs() == without_chunk(orig.subrange(0, k as int), id@) + orig.subrange(k as int, n as int),
                self.storage() == old(self).storage(),
            decreases n - k,
        {
            let ghost kept = without_chunk(orig.subrange(0, k as int), id@);
            proof {
                assert(orig.subrange(0, k + 1).drop_last() =~= orig.subrange(0, k as int));
                assert(self.documents@.len() == self.docs().len());
                assert(self.docs()[i as int] == orig[k as int]);
            }
            if self.documents[i].chunk_id == *id {
                let ghost before = self.documents@;
                self.documents.remove(i);
                proof {
                    assert(doc_views(self.documents@) =~= doc_views(before).remove(i as int));
                    assert(self.docs() =~= kept + orig.subrange(k + 1, n as int));
                }
            } else {
                proof {
                    assert(self.docs() =~= kept.push(orig[k as int]) + orig.subrange(k + 1, n as int));
                }
                let m = self.documents.len();
                assert(i < m);
                i = i + 1;
            }
            k = k + 1;
        }
        proof {
            assert(orig.subrange(n as int, n as int) =~= Seq::<VectorDocSpec<E>>::empty());
            assert(self.docs() =~= without_chunk(orig, id@));
        }
    }

    /// Removes the documents of the file at `relative_path`.
    pub fn delete_file(&mut self, relative_path: &str)
        ensures
            final(self).docs() == without_path(old(self).docs(), relative_path@),
            final(self).storage() == old(self).storage(),
    {
        let ghost orig = self.docs();
        let mut rel = String::new();
        push_str(&mut rel, relative_path);
        assert(rel@ =~= relative_path@);
        let n = self.documents.len();
        let mut i: usize = 0;
        let mut k: usize = 0;
        proof {
            assert(orig.subrange(0, 0) =~= Seq::<VectorDocSpec<E>>::empty());
            assert(orig.subrange(0, n as int) =~= orig);
        }
        while k < n
            invariant
                k <= n,
                n == orig.len(),
                rel@ == relative_path@,
                i == without_path(orig.subrange(0, k as int), relative_path@).len(),
                self.docs() == without_path(orig.subrange(0, k as int), relative_path@) + orig.subrange(k as int, n as int),
                self.storage() == old(self).storage(),
            decreases n - k,
        {
            let ghost kept = without_path(orig.subrange(0, k as int), relative_path@);
            proof {
                assert(orig.subrange(0, k + 1).drop_last() =~= orig.subrange(0, k as int));
                assert(self.documents@.len() == self.docs().len());
                assert(self.docs()[i as int] == orig[k as int]);
            }
            if self.documents[i].relative_path == rel {
                let ghost before = self.documents@;
                self.documents.remove(i);
                proof {
                    assert(doc_views(self.documents@) =~= doc_views(before).remove(i as int));
                    assert(self.docs() =~= kept + orig.subrange(k + 1, n as int));
                }
            } else {
                proof {
                    assert(self.docs() =~= kept.push(orig[k as int]) + orig.subrange(k + 1, n as int));
                }
                let m = self.documents.len();
                assert(i < m);
                i = i + 1;
            }
            k = k + 1;
        }
        proof {
            assert(orig.subrange(n as int, n as int) =~= Seq::<VectorDocSpec<E>>::empty());
            assert(self.docs() =~= without_path(orig, relative_path@));
        }
    }
}

impl<E> Default for VectorStore<E> {
    /// An empty store kept in memory only.
    fn default() -> (s: Self)
        ensures
            s.docs() == Seq::<VectorDocSpec<E>>::empty(),
            s.storage() is None,
    {
        VectorStore::create_in_ram()
    }
}

/// After a chunk is stored, exactly one document has its id: the last one.
pub proof fn law_add_keeps_one_document_per_chunk<E>(docs: Seq<VectorDocSpec<E>>, c: ChunkSpec, e: E)
    ensures
        ({
            let after = without_chunk(docs, c.id).push(doc_of_chunk(c, e));
            &&& after.last() == doc_of_chunk(c, e)
            &&& forall|i: int| 0 <= i < after.len() - 1 ==> (#[trigger] after[i]).chunk_id != c.id
        }),
{
    lemma_without_chunk_excludes(docs, c.id);
}

proof fn lemma_without_chunk_excludes<E>(docs: Seq<VectorDocSpec<E>>, id: Seq<char>)
    ensures
        forall|i: int| 0 <= i < without_chunk(docs, id).len() ==> (#[trigger] without_chunk(docs, id)[i]).chunk_id != id,
    decreases docs.len(),
{
    if docs.len() > 0 {
        lemma_without_chunk_excludes(docs.drop_last(), id);
    }
}

/// After the documents of a file are removed, none is of that file.
pub proof fn law_delete_file_leaves_none<E>(docs: Seq<VectorDocSpec<E>>, p: Seq<char>)
    ensures
        forall|i: int| 0 <= i < without_path(docs, p).len() ==> (#[trigger] without_path(docs, p)[i]).relative_path != p,
    decreases docs.len(),
{
    if docs.len() > 0 {
        law_delete_file_leaves_none(docs.drop_last(), p);
    }
}


/// Whether no two documents have the same chunk id.
pub open spec fn distinct_chunk_ids<E>(docs: Seq<VectorDocSpec<E>>) -> bool {
    forall|i: int, j: int| 0 <= i < j < docs.len() ==> docs[i].chunk_id != docs[j].chunk_id
}

/// How many documents have the chunk id `id`.
pub open spec fn count_with_id<E>(docs: Seq<VectorDocSpec<E>>, id: Seq<char>) -> int
    decreases docs.len(),
{
    if docs.len() == 0 {
        0
    } else {
        count_with_id(docs.drop_last(), id) + if docs.last().chunk_id == id { 1int } else { 0int }
    }
}

proof fn lemma_without_chunk_members<E>(docs: Seq<VectorDocSpec<E>>, id: Seq<char>)
    ensures
        forall|i: int| 0 <= i < without_chunk(docs, id).len() ==> docs.contains(#[trigger] without_chunk(docs, id)[i]),
        without_chunk(docs, id).len() == docs.len() - count_with_id(docs, id),
        distinct_chunk_ids(docs) ==> distinct_chunk_ids(without_chunk(docs, id)),
    decreases docs.len(),
{
    if docs.len() > 0 {
        let d0 = docs.drop_last();
        lemma_without_chunk_members(d0, id);
        let w0 = without_chunk(d0, id);
        let w = without_chunk(docs, id);
        assert forall|i: int| 0 <= i < w.len() implies docs.contains(#[trigger] w[i]) by {
            if i < w0.len() {
                assert(w[i] == w0[i]);
                let j = choose|j: int| 0 <= j < d0.len() && d0[j] == w0[i];
                assert(docs[j] == w0[i]);
            } else {
                assert(docs[docs.len() - 1] == w[i]);
            }
        }
        if distinct_chunk_ids(docs) {
            assert(distinct_chunk_ids(d0)) by {
                assert forall|i: int, j: int| 0 <= i < j < d0.len() implies d0[i].chunk_id != d0[j].chunk_id by {
                    assert(d0[i] == docs[i] && d0[j] == docs[j]);
                }
            }
            assert forall|i: int, j: int| 0 <= i < j < w.len() implies w[i].chunk_id != w[j].chunk_id by {
                if j < w0.len() {
                    assert(w[i] == w0[i] && w[j] == w0[j]);
                } else {
                    assert(w[i] == w0[i]);
                    assert(d0.contains(w0[i]));
                    let k = choose|k: int| 0 <= k < d0.len() && d0[k] == w0[i];
                    assert(docs[k] == w0[i]);
                    assert(w[j] == docs.last());
                }
            }
        }
    }
}

/// Storing a chunk keeps chunk ids distinct: where no two documents shared an
/// id before, none do after; the documents are those without the chunk's id,
/// in order, and then the chunk's own, so their number is the old number,
/// less the documents that had that id, plus one.
pub proof fn law_add_keeps_chunk_ids_distinct<E>(docs: Seq<VectorDocSpec<E>>, c: ChunkSpec, e: E)
    ensures
        ({
            let after = without_chunk(docs, c.id).push(doc_of_chunk(c, e));
            &&& distinct_chunk_ids(docs) ==> distinct_chunk_ids(after)
            &&& after.len() == docs.len() - count_with_id(docs, c.id) + 1
            &&& after.last() == doc_of_chunk(c, e)
            &&& forall|i: int| 0 <= i < after.len() - 1 ==> docs.contains(#[trigger] after[i]) && after[i].chunk_id != c.id
        }),
{
    lemma_without_chunk_members(docs, c.id);
    lemma_without_chunk_excludes(docs, c.id);
    let w = without_chunk(docs, c.id);
    let after = w.push(doc_of_chunk(c, e));
    assert forall|i: int| 0 <= i < after.len() - 1 implies docs.contains(#[trigger] after[i]) && after[i].chunk_id != c.id by {
        assert(after[i] == w[i]);
    }
    if distinct_chunk_ids(docs) {
        assert forall|i: int, j: int| 0 <= i < j < after.len() implies after[i].chunk_id != after[j].chunk_id by {
            assert(after[i] == w[i]);
            if j < w.len() {
                assert(after[j] == w[j]);
            }
        }
    }
}

} // verus!
