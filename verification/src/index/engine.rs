use vstd::prelude::*;

use super::file_tracker::FileTracker;
use super::symbol_store::{occurs_in, tier_of, MatchTier, SymbolStore};
use super::vector_store::VectorStore;
use crate::config::EmbeddingConfig;
use crate::parser::ast::symbol_views;
use crate::parser::chunker::{chunk_views, file_chunks, file_symbols, ChunkSpec, Chunker, CodeChunk};
use super::file_tracker::{
    added_paths, deleted_paths, law_indexing_then_detect_finds_nothing, lower_hex, map_of, modified_paths,
    observed_paths, observed_views, paths_of, reindexed, after_indexing, content_needed, sha256_digest,
    FileChanges, ObservedFile, ObservedSpec, TrackedFileSpec,
};
use super::symbol_store::{law_delete_file_removes_only_that_file, records_of, without_file, SymbolRecordSpec};
use super::vector_store::{law_delete_file_leaves_none, without_path, VectorDocSpec};
use crate::text::{chars_of, owned, push_char, push_str, views};

verus! {

/// The counts and settings that describe an index.
#[derive(Debug, Clone)]
pub struct IndexStats {
    pub total_files: usize,
    pub total_chunks: usize,
    pub total_symbols: usize,
    pub total_vectors: usize,
    pub storage_dir: String,
    pub embedding_provider: String,
    pub embedding_model: String,
}

/// The statistics of an index: the tracked files and their chunks, the
/// symbols and the stored vectors, where it is stored, and which provider and
/// model compute its embeddings. Where the chunk counts add up past `usize`,
/// there is no result.
pub fn collect_stats<E>(
    tracker: &FileTracker,
    symbols: &SymbolStore,
    vectors: &VectorStore<E>,
    storage_dir: &str,
    embedding: &EmbeddingConfig,
) -> (r: Option<IndexStats>)
    ensures
        match r {
            Some(st) => {
                &&& st.total_files == tracker@.dom().len()
                &&& st.total_chunks == tracker.chunk_total()
                &&& st.total_symbols == symbols.records().len()
                &&& st.total_vectors == vectors.docs().len()
                &&& st.storage_dir@ == storage_dir@
                &&& st.embedding_provider@ == embedding.provider.spec_debug_name()
                &&& st.embedding_model@ == embedding.model@
            },
            None => tracker.chunk_total() > usize::MAX,
        },
{
    let total_chunks = match tracker.total_chunks_checked() {
        Some(n) => n,
        None => return None,
    };
    Some(IndexStats {
        total_files: tracker.count(),
        total_chunks,
        total_symbols: symbols.count(),
        total_vectors: vectors.count(),
        storage_dir: owned(storage_dir),
        embedding_provider: owned(embedding.provider.debug_name()),
        embedding_model: embedding.model.clone(),
    })
}

/// Whether `needle` occurs in `hay`.
pub fn text_contains(hay: &str, needle: &str) -> (b: bool)
    ensures
        b == occurs_in(needle@, hay@),
{
    let h = chars_of(hay);
    let n = chars_of(needle);
    let t = tier_of(&n, &h);
    proof {
        if h@ == n@ {
            assert(h@.subrange(0, n@.len() as int) =~= n@);
        }
    }
    match t {
        MatchTier::Fuzzy => false,
        _ => {
            proof {
                if t == MatchTier::Prefix || t == MatchTier::Exact {
                    assert(h@.subrange(0int, 0int + n@.len()) == n@);
                }
            }
            true
        },
    }
}

/// Whether a walked path lies in a directory that is never indexed: `.git`,
/// `target`, `node_modules` or `.codebase-rag`.
pub open spec fn in_skipped_dir(path: Seq<char>) -> bool {
    occurs_in("/.git/"@, path) || occurs_in("/target/"@, path) || occurs_in("/node_modules/"@, path)
        || occurs_in("/.codebase-rag/"@, path)
}

/// Whether a file found by the workspace walk is indexed: it lies in no
/// skipped directory and is at most `max_file_size_bytes` long.
pub fn should_index(path: &str, size_bytes: u64, max_file_size_bytes: u64) -> (b: bool)
    ensures
        b == (!in_skipped_dir(path@) && size_bytes <= max_file_size_bytes),
{
    if text_contains(path, "/.git/") || text_contains(path, "/target/") || text_contains(path, "/node_modules/")
        || text_contains(path, "/.codebase-rag/") {
        return false;
    }
    size_bytes <= max_file_size_bytes
}

/// The text embedded for a chunk: its signature and content on separate
/// lines where it has a signature, else its content.
pub open spec fn embedding_text_of(c: ChunkSpec) -> Seq<char> {
    match c.signature {
        Some(sig) => sig + seq!['\n'] + c.content,
        None => c.content,
    }
}

/// The text embedded for a chunk.
pub fn embedding_text(chunk: &CodeChunk) -> (t: String)
    ensures
        t@ == embedding_text_of(chunk@),
{
    match &chunk.signature {
        Some(sig) => {
            let mut t = String::new();
            push_str(&mut t, sig.as_str());
            push_char(&mut t, '\n');
            push_str(&mut t, chunk.content.as_str());
            assert(t@ =~= embedding_text_of(chunk@));
            t
        },
        None => chunk.content.clone(),
    }
}

/// The texts embedded for the chunks, in order.
pub fn embedding_texts(chunks: &Vec<CodeChunk>) -> (ts: Vec<String>)
    ensures
        ts@.len() == chunks@.len(),
        forall|i: int| 0 <= i < ts@.len() ==> (#[trigger] ts@[i])@ == embedding_text_of(chunks@[i]@),
{
    let mut ts: Vec<String> = Vec::new();
    let mut i: usize = 0;
    while i < chunks.len()
        invariant
            i <= chunks@.len(),
            ts@.len() == i,
            forall|k: int| 0 <= k < i ==> (#[trigger] ts@[k])@ == embedding_text_of(chunks@[k]@),
        decreases chunks@.len() - i,
    {
        ts.push(embedding_text(&chunks[i]));
        i = i + 1;
    }
    ts
}

/// The ranges `[a, b)` that cut `start..end` into consecutive batches of
/// `size` items, the last one possibly shorter (`slice::chunks`).
pub open spec fn batch_bounds(start: int, end: int, size: int) -> Seq<(int, int)>
    decreases end - start,
{
    if start >= end || size <= 0 {
        Seq::empty()
    } else {
        let b = if start + size < end { start + size } else { end };
        seq![(start, b)] + batch_bounds(b, end, size)
    }
}

/// The batches of `n` items of at most `size` items each, as ranges.
pub fn batch_ranges(n: usize, size: usize) -> (r: Vec<(usize, usize)>)
    requires
        size > 0,
    ensures
        r@.map_values(|p: (usize, usize)| (p.0 as int, p.1 as int)) == batch_bounds(0, n as int, size as int),
{
    let mut r: Vec<(usize, usize)> = Vec::new();
    let mut start: usize = 0;
    proof {
        assert(r@.map_values(|p: (usize, usize)| (p.0 as int, p.1 as int)) + batch_bounds(0, n as int, size as int)
            =~= batch_bounds(0, n as int, size as int));
    }
    while start < n
        invariant
            start <= n,
            size > 0,
            r@.map_values(|p: (usize, usize)| (p.0 as int, p.1 as int)) + batch_bounds(start as int, n as int, size as int)
                == batch_bounds(0, n as int, size as int),
        decreases n - start,
    {
        let b = if size < n - start { start + size } else { n };
        let ghost before = r@;
        r.push((start, b));
        proof {
            let f = |p: (usize, usize)| (p.0 as int, p.1 as int);
            assert(r@.map_values(f) =~= before.map_values(f).push((start as int, b as int)));
            assert(batch_bounds(start as int, n as int, size as int)
                == seq![(start as int, b as int)] + batch_bounds(b as int, n as int, size as int));
            assert(r@.map_values(f) + batch_bounds(b as int, n as int, size as int)
                =~= before.map_values(f) + batch_bounds(start as int, n as int, size as int));
        }
        start = b;
    }
    proof {
        assert(r@.map_values(|p: (usize, usize)| (p.0 as int, p.1 as int)) + batch_bounds(start as int, n as int, size as int)
            =~= r@.map_values(|p: (usize, usize)| (p.0 as int, p.1 as int)));
    }
    r
}

/// Forgets a file in the in-memory indexes: its symbols, its vectors and its
/// tracking record.
pub fn forget_file<E>(symbols: &mut SymbolStore, vectors: &mut VectorStore<E>, tracker: &mut FileTracker, relative_path: &str)
    ensures
        final(symbols).records() == super::symbol_store::without_file(old(symbols).records(), relative_path@),
        final(vectors).docs() == super::vector_store::without_path(old(vectors).docs(), relative_path@),
        final(tracker)@ == old(tracker)@.remove(relative_path@),
        final(symbols).storage() == old(symbols).storage(),
        final(vectors).storage() == old(vectors).storage(),
        final(tracker).storage() == old(tracker).storage(),
{
    symbols.delete_file(relative_path);
    vectors.delete_file(relative_path);
    tracker.remove_file(relative_path);
}

/// The relative path of the observed file at `path`: that of the first file
/// observed there; the path itself where none was.
pub open spec fn relative_of(obs: Seq<ObservedSpec>, path: Seq<char>) -> Seq<char>
    decreases obs.len(),
{
    if obs.len() == 0 {
        path
    } else if obs[0].path == path {
        obs[0].relative_path
    } else {
        relative_of(obs.drop_first(), path)
    }
}

/// The relative paths of the files that indexing a change set forgets before
/// it ingests anything: the deleted files, then the modified ones.
pub open spec fn forgotten_paths(deleted: Seq<Seq<char>>, modified: Seq<Seq<char>>, obs: Seq<ObservedSpec>) -> Seq<Seq<char>> {
    deleted + modified.map_values(|p: Seq<char>| relative_of(obs, p))
}

/// The symbol records of none of the files at `paths`.
pub open spec fn without_files(recs: Seq<SymbolRecordSpec>, paths: Seq<Seq<char>>) -> Seq<SymbolRecordSpec>
    decreases paths.len(),
{
    if paths.len() == 0 {
        recs
    } else {
        without_file(without_files(recs, paths.drop_last()), paths.last())
    }
}

/// The vector documents of none of the files at `paths`.
pub open spec fn without_paths<E>(docs: Seq<VectorDocSpec<E>>, paths: Seq<Seq<char>>) -> Seq<VectorDocSpec<E>>
    decreases paths.len(),
{
    if paths.len() == 0 {
        docs
    } else {
        without_path(without_paths(docs, paths.drop_last()), paths.last())
    }
}

/// The tracked files with the files at `paths` forgotten.
pub open spec fn untracked(m: Map<Seq<char>, TrackedFileSpec>, paths: Seq<Seq<char>>) -> Map<Seq<char>, TrackedFileSpec>
    decreases paths.len(),
{
    if paths.len() == 0 {
        m
    } else {
        untracked(m, paths.drop_last()).remove(paths.last())
    }
}

/// Whether no symbol record is of the file at `p`.
pub open spec fn no_record_of(recs: Seq<SymbolRecordSpec>, p: Seq<char>) -> bool {
    forall|j: int| 0 <= j < recs.len() ==> (#[trigger] recs[j]).relative_path != p
}

/// Whether no vector document is of the file at `p`.
pub open spec fn no_doc_of<E>(docs: Seq<VectorDocSpec<E>>, p: Seq<char>) -> bool {
    forall|j: int| 0 <= j < docs.len() ==> (#[trigger] docs[j]).relative_path != p
}

proof fn lemma_without_file_keeps_none(recs: Seq<SymbolRecordSpec>, p: Seq<char>, q: Seq<char>)
    requires
        no_record_of(recs, q),
    ensures
        no_record_of(without_file(recs, p), q),
    decreases recs.len(),
{
    if recs.len() > 0 {
        lemma_without_file_keeps_none(recs.drop_last(), p, q);
        let w0 = without_file(recs.drop_last(), p);
        let w = without_file(recs, p);
        assert(recs.last() == recs[recs.len() - 1]);
        assert forall|j: int| 0 <= j < w.len() implies (#[trigger] w[j]).relative_path != q by {
            if j < w0.len() {
                assert(w[j] == w0[j]);
            }
        }
    }
}

proof fn lemma_without_path_keeps_none<E>(docs: Seq<VectorDocSpec<E>>, p: Seq<char>, q: Seq<char>)
    requires
        no_doc_of(docs, q),
    ensures
        no_doc_of(without_path(docs, p), q),
    decreases docs.len(),
{
    if docs.len() > 0 {
        lemma_without_path_keeps_none(docs.drop_last(), p, q);
        let w0 = without_path(docs.drop_last(), p);
        let w = without_path(docs, p);
        assert(docs.last() == docs[docs.len() - 1]);
        assert forall|j: int| 0 <= j < w.len() implies (#[trigger] w[j]).relative_path != q by {
            if j < w0.len() {
                assert(w[j] == w0[j]);
            }
        }
    }
}

/// The relative path of the observed file at `path` (see `relative_of`).
fn relative_path_of(current: &[ObservedFile], path: &String) -> (r: String)
    ensures
        r@ == relative_of(observed_views(current@), path@),
{
    let ghost obs = observed_views(current@);
    let mut i: usize = 0;
    assert(obs.subrange(0, obs.len() as int) =~= obs);
    while i < current.len()
        invariant
            i <= current@.len(),
            obs == observed_views(current@),
            relative_of(obs, path@) == relative_of(obs.subrange(i as int, obs.len() as int), path@),
        decreases current@.len() - i,
    {
        let ghost rest = obs.subrange(i as int, obs.len() as int);
        proof {
            assert(rest[0] == current@[i as int]@);
            assert(rest.drop_first() =~= obs.subrange(i + 1, obs.len() as int));
        }
        if current[i].path == *path {
            return current[i].relative_path.clone();
        }
        i = i + 1;
    }
    proof {
        assert(obs.subrange(i as int, obs.len() as int).len() == 0);
    }
    path.clone()
}

/// Forgets, in the in-memory indexes, the files that a change set drops or
/// replaces: each deleted file, and each modified one by its relative path
/// (found among the observed files). Returns those relative paths, in that
/// order. Afterwards no symbol, vector or tracking record is of any of them;
/// where nothing was deleted or modified, nothing changes.
pub fn forget_changes<E>(
    changes: &FileChanges,
    current: &[ObservedFile],
    symbols: &mut SymbolStore,
    vectors: &mut VectorStore<E>,
    tracker: &mut FileTracker,
) -> (forgotten: Vec<String>)
    ensures
        views(forgotten@) == forgotten_paths(views(changes.deleted@), views(changes.modified@), observed_views(current@)),
        final(symbols).records() == without_files(old(symbols).records(), views(forgotten@)),
        final(vectors).docs() == without_paths(old(vectors).docs(), views(forgotten@)),
        final(tracker)@ == untracked(old(tracker)@, views(forgotten@)),
        forall|i: int| 0 <= i < forgotten@.len() ==> {
            &&& no_record_of(final(symbols).records(), #[trigger] forgotten@[i]@)
            &&& no_doc_of(final(vectors).docs(), forgotten@[i]@)
            &&& !final(tracker)@.dom().contains(forgotten@[i]@)
        },
        changes.deleted@.len() == 0 && changes.modified@.len() == 0 ==> {
            &&& final(symbols).records() == old(symbols).records()
            &&& final(vectors).docs() == old(vectors).docs()
            &&& final(tracker)@ == old(tracker)@
        },
        final(symbols).storage() == old(symbols).storage(),
        final(vectors).storage() == old(vectors).storage(),
        final(tracker).storage() == old(tracker).storage(),
{
    let ghost obs = observed_views(current@);
    let ghost mods = views(changes.modified@);
    let mut forgotten: Vec<String> = Vec::new();
    let mut i: usize = 0;
    while i < changes.deleted.len()
        invariant
            i <= changes.deleted@.len(),
            views(forgotten@) == views(changes.deleted@).subrange(0, i as int),
        decreases changes.deleted@.len() - i,
    {
        let c = changes.deleted[i].clone();
        let ghost before = forgotten@;
        forgotten.push(c);
        proof {
            assert(views(forgotten@) =~= views(before).push(c@));
            assert(views(changes.deleted@).subrange(0, i + 1) =~= views(changes.deleted@).subrange(0, i as int).push(c@));
        }
        i = i + 1;
    }
    let mut k: usize = 0;
    while k < changes.modified.len()
        invariant
            k <= changes.modified@.len(),
            obs == observed_views(current@),
            mods == views(changes.modified@),
            views(forgotten@) == views(changes.deleted@) + mods.subrange(0, k as int).map_values(|p: Seq<char>| relative_of(obs, p)),
        decreases changes.modified@.len() - k,
    {
        let r = relative_path_of(current, &changes.modified[k]);
        let ghost before = forgotten@;
        forgotten.push(r);
        proof {
            assert(views(forgotten@) =~= views(before).push(r@));
            assert(mods[k as int] == changes.modified@[k as int]@);
            assert(mods.subrange(0, k + 1).map_values(|p: Seq<char>| relative_of(obs, p))
                =~= mods.subrange(0, k as int).map_values(|p: Seq<char>| relative_of(obs, p)).push(r@));
            assert(views(forgotten@) =~= views(changes.deleted@) + mods.subrange(0, k + 1).map_values(|p: Seq<char>| relative_of(obs, p)));
        }
        k = k + 1;
    }
    proof {
        assert(views(changes.deleted@).subrange(0, views(changes.deleted@).len() as int) =~= views(changes.deleted@));
        assert(mods.subrange(0, mods.len() as int) =~= mods);
    }
    let ghost paths = views(forgotten@);
    let ghost recs0 = symbols.records();
    let ghost docs0 = vectors.docs();
    let ghost m0 = tracker@;
    let mut j: usize = 0;
    while j < forgotten.len()
        invariant
            j <= forgotten@.len(),
            paths == views(forgotten@),
            symbols.records() == without_files(recs0, paths.subrange(0, j as int)),
            vectors.docs() == without_paths(docs0, paths.subrange(0, j as int)),
            tracker@ == untracked(m0, paths.subrange(0, j as int)),
            forall|i: int| 0 <= i < j ==> {
                &&& no_record_of(symbols.records(), #[trigger] paths[i])
                &&& no_doc_of(vectors.docs(), paths[i])
                &&& !tracker@.dom().contains(paths[i])
            },
            symbols.storage() == old(symbols).storage(),
            vectors.storage() == old(vectors).storage(),
            tracker.storage() == old(tracker).storage(),
        decreases forgotten@.len() - j,
    {
        let ghost recs1 = symbols.records();
        let ghost docs1 = vectors.docs();
        let ghost p = paths[j as int];
        forget_file(symbols, vectors, tracker, forgotten[j].as_str());
        proof {
            assert(forgotten@[j as int]@ == p);
            assert(paths.subrange(0, j + 1).drop_last() =~= paths.subrange(0, j as int));
            assert(paths.subrange(0, j + 1).last() == p);
            law_delete_file_removes_only_that_file(recs1, p);
            law_delete_file_leaves_none(docs1, p);
            assert forall|i: int| 0 <= i < j + 1 implies {
                &&& no_record_of(symbols.records(), #[trigger] paths[i])
                &&& no_doc_of(vectors.docs(), paths[i])
                &&& !tracker@.dom().contains(paths[i])
            } by {
                if i < j {
                    lemma_without_file_keeps_none(recs1, p, paths[i]);
                    lemma_without_path_keeps_none(docs1, p, paths[i]);
                }
            }
        }
        j = j + 1;
    }
    proof {
        assert(paths.subrange(0, paths.len() as int) =~= paths);
        assert forall|i: int| 0 <= i < forgotten@.len() implies {
            &&& no_record_of(symbols.records(), #[trigger] forgotten@[i]@)
            &&& no_doc_of(vectors.docs(), forgotten@[i]@)
            &&& !tracker@.dom().contains(forgotten@[i]@)
        } by {
            assert(paths[i] == forgotten@[i]@);
        }
        if changes.deleted@.len() == 0 && changes.modified@.len() == 0 {
            assert(paths.len() == 0);
        }
    }
    forgotten
}

/// Indexing a workspace again when nothing in it changed since it was indexed
/// changes none of the in-memory indexes. Once the changes found against the
/// tracked files `m` are indexed (see `law_indexing_then_detect_finds_nothing`)
/// and the tracker holds `entries`, the next detection finds no file to ingest
/// and none to forget, so whatever the symbol records `syms` and the vector
/// documents `docs` are, they and the tracked files stay as they are, and so
/// do the statistics that count them.
pub proof fn law_reindexing_settled_workspace_keeps_indexes<E>(
    m: Map<Seq<char>, TrackedFileSpec>,
    obs: Seq<ObservedSpec>,
    recs: Seq<TrackedFileSpec>,
    entries: Seq<TrackedFileSpec>,
    syms: Seq<SymbolRecordSpec>,
    docs: Seq<VectorDocSpec<E>>,
)
    requires
        observed_paths(obs).no_duplicates(),
        recs.len() == obs.len(),
        forall|i: int| 0 <= i < obs.len() && reindexed(m, #[trigger] obs[i]) ==> (obs[i].stat matches Some(st)
            && recs[i].mtime_secs == st.mtime_secs && recs[i].size_bytes == st.size_bytes),
        forall|i: int| 0 <= i < obs.len() ==> !(content_needed(m, #[trigger] obs[i]) && obs[i].content is None),
        paths_of(entries).no_duplicates(),
        map_of(entries) == after_indexing(m, obs, recs),
    ensures
        ({
            let now = map_of(entries);
            let forgotten = forgotten_paths(deleted_paths(entries, observed_paths(obs)), modified_paths(now, obs), obs);
            &&& added_paths(now, obs) == Seq::<Seq<char>>::empty()
            &&& forgotten == Seq::<Seq<char>>::empty()
            &&& without_files(syms, forgotten) == syms
            &&& without_paths(docs, forgotten) == docs
            &&& untracked(now, forgotten) == now
        }),
{
    law_indexing_then_detect_finds_nothing(m, obs, recs, entries);
    let now = map_of(entries);
    let forgotten = forgotten_paths(deleted_paths(entries, observed_paths(obs)), modified_paths(now, obs), obs);
    assert(forgotten =~= Seq::<Seq<char>>::empty());
}

/// A file read for indexing, chunked: its chunks, and the hash of its content.
pub struct IngestedFile {
    pub chunks: Vec<CodeChunk>,
    pub sha256: String,
}

/// Indexes the content of a file in memory: chunks it along the symbols of
/// its parse (see `file_symbols` and `file_chunks`), replaces its symbols in
/// the symbol index by those, and hashes its content (the hexadecimal
/// SHA-256 of its UTF-8 bytes).
pub fn ingest_file(chunker: &Chunker, symbols: &mut SymbolStore, file_path: &str, relative_path: &str, content: &str) -> (r: IngestedFile)
    ensures
        ({
            let syms = file_symbols(file_path@, content@);
            &&& (chunk_views(r.chunks@), syms) == file_chunks(file_path@, relative_path@, content@, syms,
                chunker.target(), chunker.overlap())
            &&& final(symbols).records() == without_file(old(symbols).records(), relative_path@) + records_of(relative_path@, syms)
        }),
        r.sha256@ == lower_hex(sha256_digest(vstd::utf8::encode_utf8(content@))),
        final(symbols).storage() == old(symbols).storage(),
{
    let (chunks, found) = chunker.chunk_file(file_path, relative_path, content);
    symbols.add_symbols(relative_path, found.as_slice());
    assert(found@.map_values(|s: crate::parser::ast::SymbolInfo| s@) =~= symbol_views(found@));
    let sha256 = FileTracker::compute_sha256(content.as_bytes());
    IngestedFile { chunks, sha256 }
}

/// Every item lies in exactly one batch, and the batches follow each other.
pub proof fn law_batches_partition(start: int, end: int, size: int)
    requires
        size > 0,
        start <= end,
    ensures
        ({
            let bs = batch_bounds(start, end, size);
            &&& forall|i: int| 0 <= i < bs.len() ==> (#[trigger] bs[i]).0 < bs[i].1 <= bs[i].0 + size
            &&& bs.len() > 0 ==> bs[0].0 == start && bs.last().1 == end
            &&& forall|i: int| 0 <= i < bs.len() - 1 ==> (#[trigger] bs[i + 1]).0 == bs[i].1
        }),
    decreases end - start,
{
    if start < end {
        let b = if start + size < end { start + size } else { end };
        law_batches_partition(b, end, size);
        let bs = batch_bounds(start, end, size);
        let rest = batch_bounds(b, end, size);
        assert(bs == seq![(start, b)] + rest);
        assert forall|i: int| 0 <= i < bs.len() implies (#[trigger] bs[i]).0 < bs[i].1 <= bs[i].0 + size by {
            if i > 0 {
                assert(bs[i] == rest[i - 1]);
            }
        }
        assert forall|i: int| 0 <= i < bs.len() - 1 implies (#[trigger] bs[i + 1]).0 == bs[i].1 by {
            assert(bs[i + 1] == rest[i]);
            if i > 0 {
                assert(bs[i] == rest[i - 1]);
                let i1 = i - 1;
                assert(rest[i1 + 1].0 == rest[i1].1);
            }
        }
        if rest.len() > 0 {
            assert(bs.last() == rest.last());
        }
    }
}

} // verus!
