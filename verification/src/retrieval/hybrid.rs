use vstd::prelude::*;

use super::fusion::{RankedListCandidate, ScoredChunk};
use crate::index::symbol_store::SymbolRecord;
use crate::index::tantivy_store::LexicalHit;
use crate::index::vector_store::VectorDocument;
use crate::parser::ast::{clone_opt, opt_view};
use crate::parser::chunker::chunk_id;
use crate::text::{owned, push_char, push_decimal, push_str};

verus! {

/// How many candidates each channel is asked for when `k` results are
/// wanted: three times as many.
pub fn candidate_limit(k: usize) -> (n: usize)
    requires
        k <= usize::MAX / 3,
    ensures
        n == 3 * k,
{
    k * 3
}

/// The candidate that a lexical hit stands for, with its score.
pub fn lexical_candidate<S>(hit: LexicalHit, score: S) -> (c: RankedListCandidate<S>)
    ensures
        c.chunk_id@ == hit.chunk_id@,
        c.relative_path@ == hit.relative_path@,
        c.language@ == hit.language@,
        opt_view(c.symbol_name) == opt_view(hit.symbol_name),
        opt_view(c.symbol_kind) == opt_view(hit.symbol_kind),
        opt_view(c.signature) == opt_view(hit.signature),
        c.content@ == hit.content@,
        c.line_start == hit.line_start,
        c.line_end == hit.line_end,
        c.raw_score == score,
{
    RankedListCandidate {
        chunk_id: hit.chunk_id,
        relative_path: hit.relative_path,
        language: hit.language,
        symbol_name: hit.symbol_name,
        symbol_kind: hit.symbol_kind,
        signature: hit.signature,
        content: hit.content,
        line_start: hit.line_start,
        line_end: hit.line_end,
        raw_score: score,
    }
}

/// The candidate that a stored vector document stands for, with its score.
pub fn vector_candidate<E, S>(doc: &VectorDocument<E>, score: S) -> (c: RankedListCandidate<S>)
    ensures
        c.chunk_id@ == doc.chunk_id@,
        c.relative_path@ == doc.relative_path@,
        c.language@ == doc.language@,
        opt_view(c.symbol_name) == opt_view(doc.symbol_name),
        opt_view(c.symbol_kind) == opt_view(doc.symbol_kind),
        opt_view(c.signature) == opt_view(doc.signature),
        c.content@ == doc.content@,
        c.line_start == doc.line_start,
        c.line_end == doc.line_end,
        c.raw_score == score,
{
    RankedListCandidate {
        chunk_id: doc.chunk_id.clone(),
        relative_path: doc.relative_path.clone(),
        language: doc.language.clone(),
        symbol_name: clone_opt(&doc.symbol_name),
        symbol_kind: clone_opt(&doc.symbol_kind),
        signature: clone_opt(&doc.signature),
        content: doc.content.clone(),
        line_start: doc.line_start,
        line_end: doc.line_end,
        raw_score: score,
    }
}

/// The candidate that a symbol match stands for: the chunk id of its lines,
/// an unknown language, its name, kind and signature, and no content.
pub fn symbol_candidate<S>(r: &SymbolRecord, score: S) -> (c: RankedListCandidate<S>)
    ensures
        c.chunk_id@ == chunk_id(r.relative_path@, r.line_start as nat, r.line_end as nat),
        c.relative_path@ == r.relative_path@,
        c.language@ == "unknown"@,
        opt_view(c.symbol_name) == Some(r.name@),
        opt_view(c.symbol_kind) == Some(r.kind@),
        opt_view(c.signature) == Some(r.signature@),
        c.content@ == Seq::<char>::empty(),
        c.line_start == r.line_start,
        c.line_end == r.line_end,
        c.raw_score == score,
{
    let mut id = String::new();
    push_str(&mut id, r.relative_path.as_str());
    push_char(&mut id, ':');
    push_decimal(&mut id, r.line_start);
    push_char(&mut id, '-');
    push_decimal(&mut id, r.line_end);
    assert(id@ =~= chunk_id(r.relative_path@, r.line_start as nat, r.line_end as nat));
    RankedListCandidate {
        chunk_id: id,
        relative_path: r.relative_path.clone(),
        language: owned("unknown"),
        symbol_name: Some(r.name.clone()),
        symbol_kind: Some(r.kind.clone()),
        signature: Some(r.signature.clone()),
        content: String::new(),
        line_start: r.line_start,
        line_end: r.line_end,
        raw_score: score,
    }
}

/// The fused chunk of a candidate, with the fused score and the raw score
/// of each channel that found it.
pub fn fused_chunk<S>(c: &RankedListCandidate<S>, rrf_score: S, bm25_score: Option<S>, vector_score: Option<S>, symbol_score: Option<S>) -> (r: ScoredChunk<S>)
    ensures
        r.chunk_id@ == c.chunk_id@,
        r.relative_path@ == c.relative_path@,
        r.language@ == c.language@,
        opt_view(r.symbol_name) == opt_view(c.symbol_name),
        opt_view(r.symbol_kind) == opt_view(c.symbol_kind),
        opt_view(r.signature) == opt_view(c.signature),
        r.content@ == c.content@,
        r.line_start == c.line_start,
        r.line_end == c.line_end,
        r.rrf_score == rrf_score,
        r.bm25_score == bm25_score,
        r.vector_score == vector_score,
        r.symbol_score == symbol_score,
{
    ScoredChunk {
        chunk_id: c.chunk_id.clone(),
        relative_path: c.relative_path.clone(),
        language: c.language.clone(),
        symbol_name: clone_opt(&c.symbol_name),
        symbol_kind: clone_opt(&c.symbol_kind),
        signature: clone_opt(&c.signature),
        content: c.content.clone(),
        line_start: c.line_start,
        line_end: c.line_end,
        rrf_score,
        bm25_score,
        vector_score,
        symbol_score,
    }
}

} // verus!
