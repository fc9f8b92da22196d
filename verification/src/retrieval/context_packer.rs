use vstd::prelude::*;

use super::fusion::ScoredChunk;
use crate::parser::chunker::Chunker;
use crate::parser::ast::{clone_opt, opt_view};
use crate::text::{decimal, push_char, push_decimal, push_str, token_estimate};

verus! {

/// A chunk placed in a packed context.
#[derive(Debug, Clone)]
pub struct PackedContextBlock<S> {
    pub file_path: String,
    pub line_start: usize,
    pub line_end: usize,
    pub symbol_name: Option<String>,
    pub symbol_kind: Option<String>,
    pub content: String,
    pub rrf_score: S,
}

/// The chunks chosen to fit a token budget, with their total estimated
/// tokens and the text that presents them.
#[derive(Debug, Clone)]
pub struct PackedContext<S> {
    pub blocks: Vec<PackedContextBlock<S>>,
    pub total_estimated_tokens: usize,
    pub formatted_text: String,
}

/// Packs ranked chunks into a context within a token budget.
pub struct ContextPacker {
    max_tokens: usize,
}

/// Whether the line range `[ls, le]` shares more than 60% of its lines with `[s, e]`.
pub open spec fn overlaps_much(ls: int, le: int, s: int, e: int) -> bool {
    let os = if ls < s { s } else { ls };
    let oe = if le < e { le } else { e };
    os <= oe && 5 * (oe - os + 1) > 3 * (le - ls + 1)
}

/// Whether a chunk overlaps much a chunk of the same file kept before.
pub open spec fn overlaps_kept<S>(chunks: Seq<ScoredChunk<S>>, kept: Seq<int>, c: ScoredChunk<S>) -> bool {
    exists|j: int| 0 <= j < kept.len() && chunks[#[trigger] kept[j]].relative_path@ == c.relative_path@
        && overlaps_much(c.line_start as int, c.line_end as int, chunks[kept[j]].line_start as int, chunks[kept[j]].line_end as int)
}

/// The state of packing after some chunks: the indices of the chunks kept,
/// their total estimated tokens, and whether the budget stopped the packing.
pub struct PackState {
    pub kept: Seq<int>,
    pub total: int,
    pub stopped: bool,
}

/// The packing state after the first `n` chunks. A chunk is passed over when
/// its content is empty or it overlaps much a kept chunk of its file; the
/// packing stops at the first other chunk that would take the total over the
/// budget, unless nothing is kept yet.
pub open spec fn pack_state<S>(chunks: Seq<ScoredChunk<S>>, n: int, max_tokens: int) -> PackState
    decreases n,
{
    if n <= 0 {
        PackState { kept: Seq::empty(), total: 0, stopped: false }
    } else {
        let st = pack_state(chunks, n - 1, max_tokens);
        let c = chunks[n - 1];
        let t = token_estimate(c.content@) as int;
        if st.stopped || c.content@.len() == 0 || overlaps_kept(chunks, st.kept, c) {
            st
        } else if st.total + t > max_tokens && st.kept.len() > 0 {
            PackState { kept: st.kept, total: st.total, stopped: true }
        } else {
            PackState { kept: st.kept.push(n - 1), total: st.total + t, stopped: false }
        }
    }
}

/// The block that presents a chunk.
pub open spec fn block_matches<S>(b: PackedContextBlock<S>, c: ScoredChunk<S>) -> bool {
    &&& b.file_path@ == c.relative_path@
    &&& b.line_start == c.line_start
    &&& b.line_end == c.line_end
    &&& opt_view(b.symbol_name) == opt_view(c.symbol_name)
    &&& opt_view(b.symbol_kind) == opt_view(c.symbol_kind)
    &&& b.content@ == c.content@
    &&& b.rrf_score == c.rrf_score
}

/// The heading of a block: `" ({kind}: {name})"` where it has a symbol name
/// (kind `"symbol"` where none is given), else nothing.
pub open spec fn symbol_header<S>(b: PackedContextBlock<S>) -> Seq<char> {
    match b.symbol_name {
        Some(name) => {
            let kind = match b.symbol_kind { Some(k) => k@, None => "symbol"@ };
            " ("@ + kind + ": "@ + name@ + ")"@
        },
        None => Seq::empty(),
    }
}

/// The heading line of the block at 0-based position `idx`:
/// `"### [{idx + 1}] {path}:{start}-{end}{symbol header}\n"`.
pub open spec fn block_heading<S>(idx: nat, b: PackedContextBlock<S>) -> Seq<char> {
    "### ["@ + decimal(idx + 1) + "] "@ + b.file_path@ + seq![':'] + decimal(b.line_start as nat)
        + seq!['-'] + decimal(b.line_end as nat) + symbol_header(b) + seq!['\n']
}

/// The fenced content of a block, with a line feed added where it lacks a final one.
pub open spec fn block_body<S>(b: PackedContextBlock<S>) -> Seq<char> {
    "```\n"@ + b.content@
        + (if b.content@.len() > 0 && b.content@.last() == '\n' { Seq::empty() } else { seq!['\n'] })
        + "```\n\n"@
}

/// The text of the block at 0-based position `idx`.
pub open spec fn block_text<S>(idx: nat, b: PackedContextBlock<S>) -> Seq<char> {
    block_heading(idx, b) + block_body(b)
}

/// The texts of the first `n` blocks, in order.
pub open spec fn blocks_text<S>(blocks: Seq<PackedContextBlock<S>>, n: int) -> Seq<char>
    decreases n,
{
    if n <= 0 {
        Seq::empty()
    } else {
        blocks_text(blocks, n - 1) + block_text((n - 1) as nat, blocks[n - 1])
    }
}

/// The text that presents the blocks: nothing where there are none; else the
/// blocks' texts between an opening and a closing marker.
pub open spec fn formatted_blocks<S>(blocks: Seq<PackedContextBlock<S>>) -> Seq<char> {
    if blocks.len() == 0 {
        Seq::empty()
    } else {
        "<!-- CODEBASE RAG CONTEXT -->\n"@ + blocks_text(blocks, blocks.len() as int)
            + "<!-- /CODEBASE RAG CONTEXT -->"@
    }
}


proof fn lemma_stopped_stays<S>(chunks: Seq<ScoredChunk<S>>, m: int, n: int, max_tokens: int)
    requires
        0 <= m <= n,
        pack_state(chunks, m, max_tokens).stopped,
    ensures
        pack_state(chunks, n, max_tokens) == pack_state(chunks, m, max_tokens),
    decreases n - m,
{
    if n > m {
        lemma_stopped_stays(chunks, m, n - 1, max_tokens);
    }
}

fn overlaps_much_exec(ls: usize, le: usize, s: usize, e: usize) -> (b: bool)
    ensures
        b == overlaps_much(ls as int, le as int, s as int, e as int),
{
    let os = if ls < s { s } else { ls };
    let oe = if le < e { le } else { e };
    if os <= oe {
        let overlap_len = (oe - os) as u128 + 1;
        let chunk_len = (le - ls) as u128 + 1;
        overlap_len * 5 > chunk_len * 3
    } else {
        false
    }
}

impl ContextPacker {
    /// The token budget of the packer.
    pub closed spec fn budget(self) -> int {
        self.max_tokens as int
    }

    /// A packer with a budget of `max_tokens` estimated tokens.
    pub fn new(max_tokens: usize) -> (p: ContextPacker)
        ensures
            p.budget() == max_tokens,
    {
        ContextPacker { max_tokens }
    }

    /// Packs the ranked chunks, in their order, into a context within the
    /// budget (see `pack_state`), and formats them (see `formatted_blocks`).
    pub fn pack<S: Copy>(&self, chunks: &Vec<ScoredChunk<S>>) -> (packed: PackedContext<S>)
        ensures
            ({
                let st = pack_state(chunks@, chunks@.len() as int, self.budget());
                &&& packed.blocks@.len() == st.kept.len()
                &&& forall|j: int| 0 <= j < st.kept.len() ==> #[trigger] block_matches(packed.blocks@[j], chunks@[st.kept[j]])
                &&& packed.total_estimated_tokens == st.total
                &&& packed.formatted_text@ == formatted_blocks(packed.blocks@)
            }),
    {
        let max_tokens = self.max_tokens;
        let ghost cs = chunks@;
        let mut blocks: Vec<PackedContextBlock<S>> = Vec::new();
        let mut total: usize = 0;
        let mut i: usize = 0;
        while i < chunks.len()
            invariant_except_break
                !pack_state(cs, i as int, max_tokens as int).stopped,
            invariant
                i <= cs.len(),
                cs == chunks@,
                max_tokens == self.budget(),
                ({
                    let st = pack_state(cs, i as int, max_tokens as int);
                    &&& blocks@.len() == st.kept.len()
                    &&& forall|j: int| 0 <= j < st.kept.len() ==> #[trigger] block_matches(blocks@[j], cs[st.kept[j]])
                    &&& total == st.total
                    &&& (blocks@.len() == 0 ==> total == 0)
                }),
            ensures
                ({
                    let st = pack_state(cs, cs.len() as int, max_tokens as int);
                    &&& blocks@.len() == st.kept.len()
                    &&& forall|j: int| 0 <= j < st.kept.len() ==> #[trigger] block_matches(blocks@[j], cs[st.kept[j]])
                    &&& total == st.total
                }),
            decreases cs.len() - i,
        {
            let c = &chunks[i];
            let ghost st = pack_state(cs, i as int, max_tokens as int);
            if c.content.as_str().is_empty() {
                i = i + 1;
                continue;
            }
            let mut overlaps = false;
            let mut j: usize = 0;
            while j < blocks.len()
                invariant
                    j <= blocks@.len(),
                    blocks@.len() == st.kept.len(),
                    forall|k: int| 0 <= k < st.kept.len() ==> #[trigger] block_matches(blocks@[k], cs[st.kept[k]]),
                    c == cs[i as int],
                    !overlaps ==> forall|k: int| 0 <= k < j ==> !(cs[#[trigger] st.kept[k]].relative_path@ == c.relative_path@
                        && overlaps_much(c.line_start as int, c.line_end as int, cs[st.kept[k]].line_start as int, cs[st.kept[k]].line_end as int)),
                    overlaps ==> overlaps_kept(cs, st.kept, *c),
                decreases blocks@.len() - j,
            {
                let b = &blocks[j];
                proof {
                    assert(block_matches(blocks@[j as int], cs[st.kept[j as int]]));
                }
                if b.file_path == c.relative_path && overlaps_much_exec(c.line_start, c.line_end, b.line_start, b.line_end) {
                    overlaps = true;
                    proof {
                        assert(cs[st.kept[j as int]].relative_path@ == c.relative_path@);
                    }
                }
                j = j + 1;
            }
            if overlaps {
                i = i + 1;
                continue;
            }
            let chunk_tokens = Chunker::estimate_tokens(c.content.as_str());
            let exceeds = total > max_tokens || chunk_tokens > max_tokens - total;
            if exceeds && blocks.len() > 0 {
                proof {
                    assert(pack_state(cs, i + 1, max_tokens as int).stopped);
                    lemma_stopped_stays(cs, i + 1, cs.len() as int, max_tokens as int);
                }
                break;
            }
            let ghost before = blocks@;
            blocks.push(PackedContextBlock {
                file_path: c.relative_path.clone(),
                line_start: c.line_start,
                line_end: c.line_end,
                symbol_name: clone_opt(&c.symbol_name),
                symbol_kind: clone_opt(&c.symbol_kind),
                content: c.content.clone(),
                rrf_score: c.rrf_score,
            });
            total = total + chunk_tokens;
            proof {
                let st2 = pack_state(cs, i + 1, max_tokens as int);
                assert(st2.kept == st.kept.push(i as int));
                assert forall|k: int| 0 <= k < st2.kept.len() implies #[trigger] block_matches(blocks@[k], cs[st2.kept[k]]) by {
                    if k < st.kept.len() {
                        assert(blocks@[k] == before[k]);
                    }
                }
            }
            i = i + 1;
        }
        let formatted_text = Self::format_blocks(&blocks);
        PackedContext { blocks, total_estimated_tokens: total, formatted_text }
    }

    fn format_blocks<S>(blocks: &Vec<PackedContextBlock<S>>) -> (out: String)
        ensures
            out@ == formatted_blocks(blocks@),
    {
        if blocks.len() == 0 {
            return String::new();
        }
        let mut out = String::new();
        push_str(&mut out, "<!-- CODEBASE RAG CONTEXT -->\n");
        let ghost head = out@;
        let mut idx: usize = 0;
        while idx < blocks.len()
            invariant
                idx <= blocks@.len(),
                head == "<!-- CODEBASE RAG CONTEXT -->\n"@,
                out@ == head + blocks_text(blocks@, idx as int),
            decreases blocks@.len() - idx,
        {
            let ghost before = out@;
            push_block_text(&mut out, idx, &blocks[idx]);
            proof {
                assert(out@ =~= head + blocks_text(blocks@, idx + 1));
            }
            idx = idx + 1;
        }
        push_str(&mut out, "<!-- /CODEBASE RAG CONTEXT -->");
        out
    }
}


fn push_block_heading<S>(out: &mut String, idx: usize, block: &PackedContextBlock<S>)
    requires
        idx < usize::MAX,
    ensures
        final(out)@ == old(out)@ + block_heading(idx as nat, *block),
{
    let ghost before = out@;
    push_str(out, "### [");
    push_decimal(out, idx + 1);
    push_str(out, "] ");
    push_str(out, block.file_path.as_str());
    let ghost p1 = out@;
    assert(p1 =~= before + ("### ["@ + decimal((idx + 1) as nat) + "] "@ + block.file_path@));
    push_char(out, ':');
    push_decimal(out, block.line_start);
    push_char(out, '-');
    push_decimal(out, block.line_end);
    let ghost mid = out@;
    assert(mid =~= p1 + (seq![':'] + decimal(block.line_start as nat) + seq!['-'] + decimal(block.line_end as nat)));
    match &block.symbol_name {
        Some(sym) => {
            push_str(out, " (");
            match &block.symbol_kind {
                Some(k) => push_str(out, k.as_str()),
                None => push_str(out, "symbol"),
            }
            push_str(out, ": ");
            push_str(out, sym.as_str());
            push_str(out, ")");
        },
        None => {},
    }
    assert(out@ =~= mid + symbol_header(*block));
    push_char(out, '\n');
    assert(out@ =~= before + block_heading(idx as nat, *block));
}

fn push_block_body<S>(out: &mut String, block: &PackedContextBlock<S>)
    ensures
        final(out)@ == old(out)@ + block_body(*block),
{
    let ghost before = out@;
    push_str(out, "```\n");
    push_str(out, block.content.as_str());
    if !ends_with_newline(block.content.as_str()) {
        push_char(out, '\n');
    }
    push_str(out, "```\n\n");
    assert(out@ =~= before + block_body(*block));
}

fn push_block_text<S>(out: &mut String, idx: usize, block: &PackedContextBlock<S>)
    requires
        idx < usize::MAX,
    ensures
        final(out)@ == old(out)@ + block_text(idx as nat, *block),
{
    let ghost before = out@;
    push_block_heading(out, idx, block);
    push_block_body(out, block);
    assert(out@ =~= before + block_text(idx as nat, *block));
}

/// Whether a text ends with a line feed (`str::ends_with('\n')`).
fn ends_with_newline(s: &str) -> (b: bool)
    ensures
        b == (s@.len() > 0 && s@.last() == '\n'),
{
    let cs = crate::text::chars_of(s);
    cs.len() > 0 && cs[cs.len() - 1] == '\n'
}


/// The sum of the token estimates of the chunks at the given indices.
pub open spec fn kept_tokens<S>(chunks: Seq<ScoredChunk<S>>, kept: Seq<int>) -> int
    decreases kept.len(),
{
    if kept.len() == 0 {
        0
    } else {
        kept_tokens(chunks, kept.drop_last()) + token_estimate(chunks[kept.last()].content@)
    }
}

/// What packing keeps, after any number of chunks: the kept chunks stay in
/// rank order, each has content, none overlaps much an earlier kept chunk of
/// its file, the total is the sum of their token estimates, and the total is
/// within the budget as soon as two or more chunks are kept (a first chunk is
/// kept even when it alone exceeds the budget).
pub proof fn law_pack_state<S>(chunks: Seq<ScoredChunk<S>>, n: int, max_tokens: int)
    requires
        0 <= n <= chunks.len(),
    ensures
        ({
            let st = pack_state(chunks, n, max_tokens);
            &&& forall|i: int, j: int| 0 <= i < j < st.kept.len() ==> st.kept[i] < st.kept[j]
            &&& forall|i: int| 0 <= i < st.kept.len() ==> 0 <= #[trigger] st.kept[i] < n
            &&& forall|i: int| 0 <= i < st.kept.len() ==> chunks[#[trigger] st.kept[i]].content@.len() > 0
            &&& forall|i: int, j: int| 0 <= i < j < st.kept.len()
                && chunks[st.kept[i]].relative_path@ == chunks[st.kept[j]].relative_path@
                ==> !overlaps_much(chunks[st.kept[j]].line_start as int, chunks[st.kept[j]].line_end as int,
                    chunks[st.kept[i]].line_start as int, chunks[st.kept[i]].line_end as int)
            &&& st.total == kept_tokens(chunks, st.kept)
            &&& (st.kept.len() >= 2 ==> st.total <= max_tokens)
        }),
    decreases n,
{
    if n > 0 {
        law_pack_state(chunks, n - 1, max_tokens);
        let st = pack_state(chunks, n - 1, max_tokens);
        let c = chunks[n - 1];
        let st2 = pack_state(chunks, n, max_tokens);
        if st2.kept.len() == st.kept.len() + 1 {
            let k2 = st2.kept;
            assert(k2 == st.kept.push(n - 1));
            assert(k2.drop_last() =~= st.kept);
            assert(!overlaps_kept(chunks, st.kept, c));
            assert forall|i: int, j: int| 0 <= i < j < k2.len()
                && chunks[k2[i]].relative_path@ == chunks[k2[j]].relative_path@
                implies !overlaps_much(chunks[k2[j]].line_start as int, chunks[k2[j]].line_end as int,
                    chunks[k2[i]].line_start as int, chunks[k2[i]].line_end as int) by {
                if j == k2.len() - 1 {
                    assert(k2[i] == st.kept[i]);
                    if overlaps_much(c.line_start as int, c.line_end as int, chunks[st.kept[i]].line_start as int, chunks[st.kept[i]].line_end as int) {
                        assert(overlaps_kept(chunks, st.kept, c));
                    }
                } else {
                    assert(k2[i] == st.kept[i]);
                    assert(k2[j] == st.kept[j]);
                }
            }
        }
    }
}

} // verus!
