use vstd::prelude::*;

use crate::index::symbol_store::{record_views, SymbolRecord, SymbolRecordSpec, SymbolStore};
use crate::parser::chunker::Chunker;
use crate::text::{
    decimal, lemma_text_less_order, push_char, push_decimal, push_str, text_less, text_lt, token_estimate, views,
};

verus! {

/// The first line of a repository map.
pub open spec fn map_header() -> Seq<char> {
    "# Repository Structural Skeleton & Symbol Map\n\n"@
}

/// The line that ends a map cut short by its token budget.
pub open spec fn truncation_note() -> Seq<char> {
    "... (truncated to fit token budget)\n"@
}

/// The relative paths of a sequence of records.
pub open spec fn record_paths(recs: Seq<SymbolRecordSpec>) -> Seq<Seq<char>> {
    recs.map_values(|r: SymbolRecordSpec| r.relative_path)
}

/// Whether `paths` holds each file of the records once, in ascending order.
pub open spec fn ascending_paths(paths: Seq<Seq<char>>, recs: Seq<SymbolRecordSpec>) -> bool {
    &&& forall|i: int, j: int| 0 <= i < j < paths.len() ==> text_less(paths[i], paths[j])
    &&& forall|x: Seq<char>| paths.contains(x) <==> record_paths(recs).contains(x)
}

/// `"{scope}::"` for a symbol with a parent scope, else nothing.
pub open spec fn scope_prefix(r: SymbolRecordSpec) -> Seq<char> {
    match r.parent_scope {
        Some(s) => s + "::"@,
        None => Seq::empty(),
    }
}

/// The two lines that show a symbol:
/// ``"  - [{kind}] {scope::}{name}: L{start}-L{end}\n    `{signature}`\n"``.
pub open spec fn symbol_line(r: SymbolRecordSpec) -> Seq<char> {
    "  - ["@ + r.kind + "] "@ + scope_prefix(r) + r.name + ": L"@ + decimal(r.line_start as nat)
        + "-L"@ + decimal(r.line_end as nat) + "\n    `"@ + r.signature + "`\n"@
}

/// The lines of the symbols of file `p`, in the order of the records.
pub open spec fn file_lines(recs: Seq<SymbolRecordSpec>, p: Seq<char>) -> Seq<char>
    decreases recs.len(),
{
    if recs.len() == 0 {
        Seq::empty()
    } else {
        file_lines(recs.drop_last(), p) + if recs.last().relative_path == p {
            symbol_line(recs.last())
        } else {
            Seq::empty()
        }
    }
}

/// The block of file `p`: `"## {p}\n"`, its symbol lines, and an empty line.
pub open spec fn file_block(recs: Seq<SymbolRecordSpec>, p: Seq<char>) -> Seq<char> {
    "## "@ + p + seq!['\n'] + file_lines(recs, p) + seq!['\n']
}

/// The blocks of the files `paths`, in order, as long as the running token
/// estimate (starting at `used`) stays within `max_tokens`; at the first block
/// that does not fit, the truncation note instead, and nothing after it.
pub open spec fn map_body(paths: Seq<Seq<char>>, recs: Seq<SymbolRecordSpec>, used: int, max_tokens: int) -> Seq<char>
    decreases paths.len(),
{
    if paths.len() == 0 {
        Seq::empty()
    } else {
        let b = file_block(recs, paths[0]);
        let t = token_estimate(b) as int;
        if used + t > max_tokens {
            truncation_note()
        } else {
            b + map_body(paths.drop_first(), recs, used + t, max_tokens)
        }
    }
}

/// The repository map of the records, their files taken in the order `paths`.
pub open spec fn repo_map_text(paths: Seq<Seq<char>>, recs: Seq<SymbolRecordSpec>, max_tokens: int) -> Seq<char> {
    map_header() + map_body(paths, recs, token_estimate(map_header()) as int, max_tokens)
}

/// The files of the records, each once, in ascending order.
fn sorted_paths(recs: &Vec<SymbolRecord>) -> (ps: Vec<String>)
    ensures
        ascending_paths(views(ps@), record_views(recs@)),
{
    let ghost rs = record_views(recs@);
    let mut ps: Vec<String> = Vec::new();
    let mut i: usize = 0;
    while i < recs.len()
        invariant
            i <= recs@.len(),
            rs == record_views(recs@),
            forall|a: int, b: int| 0 <= a < b < views(ps@).len() ==> text_less(views(ps@)[a], views(ps@)[b]),
            forall|x: Seq<char>| views(ps@).contains(x) <==> record_paths(rs.subrange(0, i as int)).contains(x),
        decreases recs@.len() - i,
    {
        let p = &recs[i].relative_path;
        let ghost old_ps = views(ps@);
        let mut j: usize = 0;
        while j < ps.len() && text_lt(ps[j].as_str(), p.as_str())
            invariant
                j <= ps@.len(),
                old_ps == views(ps@),
                forall|k: int| 0 <= k < j ==> text_less(#[trigger] old_ps[k], p@),
            decreases ps@.len() - j,
        {
            j = j + 1;
        }
        let ghost next = record_paths(rs.subrange(0, i + 1));
        proof {
            assert(next =~= record_paths(rs.subrange(0, i as int)).push(p@));
        }
        if j < ps.len() && ps[j] == *p {
            proof {
                assert(old_ps[j as int] == p@);
                assert forall|x: Seq<char>| old_ps.contains(x) <==> next.contains(x) by {
                    if next.contains(x) && x == p@ {
                        assert(old_ps[j as int] == x);
                    }
                    if next.contains(x) && x != p@ {
                        let k = choose|k: int| 0 <= k < next.len() && next[k] == x;
                        assert(record_paths(rs.subrange(0, i as int))[k] == x);
                    }
                    if old_ps.contains(x) {
                        let k = choose|k: int| 0 <= k < record_paths(rs.subrange(0, i as int)).len()
                            && record_paths(rs.subrange(0, i as int))[k] == x;
                        assert(next[k] == x);
                    }
                }
            }
        } else {
            let ghost q = p@;
            ps.insert(j, p.clone());
            proof {
                let np = views(ps@);
                assert(np =~= old_ps.insert(j as int, q));
                if j < old_ps.len() {
                    lemma_text_less_order(old_ps[j as int], q, q);
                }
                assert forall|a: int, b: int| 0 <= a < b < np.len() implies text_less(np[a], np[b]) by {
                    if b == j {
                        assert(np[a] == old_ps[a]);
                    } else if a == j {
                        assert(np[b] == old_ps[b - 1]);
                        if b - 1 > j {
                            assert(text_less(old_ps[j as int], old_ps[b - 1]));
                            lemma_text_less_order(q, old_ps[j as int], old_ps[b - 1]);
                        }
                    } else if a < j {
                        assert(np[a] == old_ps[a]);
                        if b < j {
                            assert(np[b] == old_ps[b]);
                        } else {
                            assert(np[b] == old_ps[b - 1]);
                        }
                    } else {
                        assert(np[a] == old_ps[a - 1]);
                        assert(np[b] == old_ps[b - 1]);
                    }
                }
                assert forall|x: Seq<char>| np.contains(x) <==> next.contains(x) by {
                    let prev = record_paths(rs.subrange(0, i as int));
                    if np.contains(x) {
                        let k = choose|k: int| 0 <= k < np.len() && np[k] == x;
                        if k == j {
                            assert(next[next.len() - 1] == x);
                        } else {
                            let k2 = if k < j { k } else { k - 1 };
                            assert(old_ps[k2] == x);
                            assert(old_ps.contains(x));
                            let m = choose|m: int| 0 <= m < prev.len() && prev[m] == x;
                            assert(next[m] == x);
                        }
                    }
                    if next.contains(x) {
                        let k = choose|k: int| 0 <= k < next.len() && next[k] == x;
                        if k == next.len() - 1 {
                            assert(np[j as int] == x);
                        } else {
                            assert(prev[k] == x);
                            assert(old_ps.contains(x));
                            let m = choose|m: int| 0 <= m < old_ps.len() && old_ps[m] == x;
                            let m2 = if m < j { m } else { m + 1 };
                            assert(np[m2] == x);
                        }
                    }
                }
            }
        }
        i = i + 1;
    }
    proof {
        assert(rs.subrange(0, recs@.len() as int) =~= rs);
    }
    ps
}

/// Appends the two lines that show a symbol.
fn push_symbol_line(out: &mut String, r: &SymbolRecord)
    ensures
        final(out)@ == old(out)@ + symbol_line(r@),
{
    let ghost before = out@;
    push_str(out, "  - [");
    push_str(out, r.kind.as_str());
    push_str(out, "] ");
    match &r.parent_scope {
        Some(s) => {
            push_str(out, s.as_str());
            push_str(out, "::");
        },
        None => {},
    }
    let ghost mid = out@;
    assert(mid =~= before + ("  - ["@ + r@.kind + "] "@ + scope_prefix(r@)));
    push_str(out, r.name.as_str());
    push_str(out, ": L");
    push_decimal(out, r.line_start);
    push_str(out, "-L");
    push_decimal(out, r.line_end);
    push_str(out, "\n    `");
    push_str(out, r.signature.as_str());
    push_str(out, "`\n");
    assert(out@ =~= before + symbol_line(r@));
}

/// The block of the file `p`.
fn file_block_text(recs: &Vec<SymbolRecord>, p: &String) -> (b: String)
    ensures
        b@ == file_block(record_views(recs@), p@),
{
    let ghost rs = record_views(recs@);
    let mut b = String::new();
    push_str(&mut b, "## ");
    push_str(&mut b, p.as_str());
    push_char(&mut b, '\n');
    let ghost head = b@;
    let mut i: usize = 0;
    proof {
        assert(rs.subrange(0, 0).len() == 0);
        assert(file_lines(rs.subrange(0, 0), p@) == Seq::<char>::empty());
        assert(b@ =~= head + file_lines(rs.subrange(0, 0), p@));
    }
    while i < recs.len()
        invariant
            i <= recs@.len(),
            rs == record_views(recs@),
            b@ == head + file_lines(rs.subrange(0, i as int), p@),
        decreases recs@.len() - i,
    {
        let r = &recs[i];
        proof {
            assert(rs.subrange(0, i + 1).drop_last() =~= rs.subrange(0, i as int));
            assert(rs.subrange(0, i + 1).last() == r@);
        }
        if r.relative_path == *p {
            push_symbol_line(&mut b, r);
        }
        proof {
            assert(b@ =~= head + file_lines(rs.subrange(0, i + 1), p@));
        }
        i = i + 1;
    }
    push_char(&mut b, '\n');
    proof {
        assert(rs.subrange(0, recs@.len() as int) =~= rs);
        assert(b@ =~= file_block(rs, p@));
    }
    b
}

/// The repository map of a symbol index: a header, then for each file, in
/// ascending order of path, a block listing its symbols in index order,
/// as long as the running token estimate stays within `max_tokens`; the
/// first block that would exceed it is replaced by a truncation note.
pub fn repo_map(store: &SymbolStore, max_tokens: usize) -> (out: String)
    ensures
        exists|paths: Seq<Seq<char>>| {
            &&& ascending_paths(paths, store.records())
            &&& out@ == repo_map_text(paths, store.records(), max_tokens as int)
        },
{
    let recs = store.get_all_symbols();
    let ps = sorted_paths(recs);
    let ghost paths = views(ps@);
    let ghost rs = record_views(recs@);
    let mut out = String::new();
    push_str(&mut out, "# Repository Structural Skeleton & Symbol Map\n\n");
    let mut used = Chunker::estimate_tokens(out.as_str());
    let mut i: usize = 0;
    proof {
        assert(paths.subrange(0, paths.len() as int) =~= paths);
    }
    while i < ps.len()
        invariant_except_break
            i <= paths.len(),
            out@ + map_body(paths.subrange(i as int, paths.len() as int), rs, used as int, max_tokens as int)
                == repo_map_text(paths, rs, max_tokens as int),
        invariant
            paths == views(ps@),
            rs == record_views(recs@),
        ensures
            out@ == repo_map_text(paths, rs, max_tokens as int),
        decreases paths.len() - i,
    {
        let ghost rest = paths.subrange(i as int, paths.len() as int);
        proof {
            assert(rest[0] == ps@[i as int]@);
            assert(rest.drop_first() =~= paths.subrange(i + 1, paths.len() as int));
        }
        let block = file_block_text(recs, &ps[i]);
        let t = Chunker::estimate_tokens(block.as_str());
        if used > max_tokens || t > max_tokens - used {
            push_str(&mut out, "... (truncated to fit token budget)\n");
            break;
        }
        push_str(&mut out, block.as_str());
        used = used + t;
        proof {
            assert(out@ + map_body(paths.subrange(i + 1, paths.len() as int), rs, used as int, max_tokens as int)
                =~= repo_map_text(paths, rs, max_tokens as int));
        }
        i = i + 1;
    }
    out
}

/// The order of files in a map is fixed by the records: two sequences that
/// each hold the records' files once in ascending order are equal, so the map
/// of a symbol index is determined by it and the budget.
pub proof fn law_ascending_paths_unique(p: Seq<Seq<char>>, q: Seq<Seq<char>>, recs: Seq<SymbolRecordSpec>)
    requires
        ascending_paths(p, recs),
        ascending_paths(q, recs),
    ensures
        p == q,
    decreases p.len(),
{
    lemma_ascending_unique(p, q);
}

proof fn lemma_ascending_unique(p: Seq<Seq<char>>, q: Seq<Seq<char>>)
    requires
        forall|i: int, j: int| 0 <= i < j < p.len() ==> text_less(p[i], p[j]),
        forall|i: int, j: int| 0 <= i < j < q.len() ==> text_less(q[i], q[j]),
        forall|x: Seq<char>| p.contains(x) <==> q.contains(x),
    ensures
        p == q,
    decreases p.len(),
{
    if p.len() == 0 {
        if q.len() > 0 {
            assert(q.contains(q[0]));
        }
        assert(p =~= q);
    } else if q.len() == 0 {
        assert(p.contains(p[0]));
    } else {
        // The least elements agree.
        assert(p.contains(p[0]));
        assert(q.contains(q[0]));
        let a = choose|k: int| 0 <= k < q.len() && q[k] == p[0];
        let b = choose|k: int| 0 <= k < p.len() && p[k] == q[0];
        if a > 0 {
            assert(text_less(q[0], q[a]));
            if b > 0 {
                assert(text_less(p[0], p[b]));
                lemma_text_less_order(p[0], q[0], p[0]);
            } else {
                lemma_text_less_order(q[0], q[0], q[0]);
            }
        }
        assert(p[0] == q[0]);
        let p1 = p.drop_first();
        let q1 = q.drop_first();
        assert forall|x: Seq<char>| p1.contains(x) <==> q1.contains(x) by {
            if p1.contains(x) {
                let k = choose|k: int| 0 <= k < p1.len() && p1[k] == x;
                assert(p[k + 1] == x);
                assert(text_less(p[0], p[k + 1]));
                lemma_text_less_order(p[0], p[0], p[0]);
                assert(q.contains(x));
                let m = choose|m: int| 0 <= m < q.len() && q[m] == x;
                assert(m != 0);
                assert(q1[m - 1] == x);
            }
            if q1.contains(x) {
                let k = choose|k: int| 0 <= k < q1.len() && q1[k] == x;
                assert(q[k + 1] == x);
                assert(text_less(q[0], q[k + 1]));
                lemma_text_less_order(q[0], q[0], q[0]);
                assert(p.contains(x));
                let m = choose|m: int| 0 <= m < p.len() && p[m] == x;
                assert(m != 0);
                assert(p1[m - 1] == x);
            }
        }
        assert forall|i: int, j: int| 0 <= i < j < p1.len() implies text_less(p1[i], p1[j]) by {
            assert(p1[i] == p[i + 1]);
            assert(p1[j] == p[j + 1]);
        }
        assert forall|i: int, j: int| 0 <= i < j < q1.len() implies text_less(q1[i], q1[j]) by {
            assert(q1[i] == q[i + 1]);
            assert(q1[j] == q[j + 1]);
        }
        lemma_ascending_unique(p1, q1);
        assert(p =~= seq![p[0]] + p1);
        assert(q =~= seq![q[0]] + q1);
    }
}


/// How many file blocks the map shows, starting with `used` tokens spent.
pub open spec fn shown_count(paths: Seq<Seq<char>>, recs: Seq<SymbolRecordSpec>, used: int, max_tokens: int) -> nat
    decreases paths.len(),
{
    if paths.len() == 0 {
        0
    } else {
        let t = token_estimate(file_block(recs, paths[0])) as int;
        if used + t > max_tokens { 0 } else { 1 + shown_count(paths.drop_first(), recs, used + t, max_tokens) }
    }
}

/// The token estimates of the blocks of the first `k` files, summed.
pub open spec fn blocks_tokens(paths: Seq<Seq<char>>, recs: Seq<SymbolRecordSpec>, k: int) -> int
    decreases k,
{
    if k <= 0 {
        0
    } else {
        blocks_tokens(paths, recs, k - 1) + token_estimate(file_block(recs, paths[k - 1])) as int
    }
}

/// The blocks of the first `k` files, in order.
pub open spec fn shown_blocks(paths: Seq<Seq<char>>, recs: Seq<SymbolRecordSpec>, k: int) -> Seq<char>
    decreases k,
{
    if k <= 0 {
        Seq::empty()
    } else {
        shown_blocks(paths, recs, k - 1) + file_block(recs, paths[k - 1])
    }
}

proof fn lemma_shifted_sums(paths: Seq<Seq<char>>, recs: Seq<SymbolRecordSpec>, k: int)
    requires
        0 <= k < paths.len(),
    ensures
        blocks_tokens(paths, recs, k + 1) == token_estimate(file_block(recs, paths[0])) as int
            + blocks_tokens(paths.drop_first(), recs, k),
        shown_blocks(paths, recs, k + 1) == file_block(recs, paths[0]) + shown_blocks(paths.drop_first(), recs, k),
    decreases k,
{
    let rest = paths.drop_first();
    if k > 0 {
        lemma_shifted_sums(paths, recs, k - 1);
        assert(rest[k - 1] == paths[k]);
        assert(blocks_tokens(paths, recs, k + 1) == blocks_tokens(paths, recs, k) + token_estimate(file_block(recs, paths[k])) as int);
        assert(blocks_tokens(rest, recs, k) == blocks_tokens(rest, recs, k - 1) + token_estimate(file_block(recs, rest[k - 1])) as int);
        assert(shown_blocks(paths, recs, k + 1) == shown_blocks(paths, recs, k) + file_block(recs, paths[k]));
        assert(shown_blocks(rest, recs, k) == shown_blocks(rest, recs, k - 1) + file_block(recs, rest[k - 1]));
        assert(shown_blocks(paths, recs, k + 1) =~= file_block(recs, paths[0]) + shown_blocks(rest, recs, k));
    } else {
        assert(shown_blocks(paths, recs, 0) == Seq::<char>::empty());
        assert(shown_blocks(rest, recs, 0) == Seq::<char>::empty());
        assert(blocks_tokens(paths, recs, 0) == 0);
        assert(blocks_tokens(rest, recs, 0) == 0);
        assert(shown_blocks(paths, recs, 1) =~= file_block(recs, paths[0]));
    }
}

/// A map shows whole file blocks in order, then the truncation note if some
/// file did not fit, and the blocks it shows stay within the budget: the
/// tokens spent before them plus theirs are at most `max_tokens`.
pub proof fn law_map_within_budget(paths: Seq<Seq<char>>, recs: Seq<SymbolRecordSpec>, used: int, max_tokens: int)
    ensures
        ({
            let k = shown_count(paths, recs, used, max_tokens) as int;
            &&& k <= paths.len()
            &&& map_body(paths, recs, used, max_tokens) == shown_blocks(paths, recs, k)
                + if k < paths.len() { truncation_note() } else { Seq::empty() }
            &&& (k > 0 ==> used + blocks_tokens(paths, recs, k) <= max_tokens)
        }),
    decreases paths.len(),
{
    if paths.len() > 0 {
        let t = token_estimate(file_block(recs, paths[0])) as int;
        if used + t <= max_tokens {
            let rest = paths.drop_first();
            law_map_within_budget(rest, recs, used + t, max_tokens);
            let k1 = shown_count(rest, recs, used + t, max_tokens) as int;
            lemma_shifted_sums(paths, recs, k1);
            assert(map_body(paths, recs, used, max_tokens) =~= shown_blocks(paths, recs, k1 + 1)
                + if k1 + 1 < paths.len() { truncation_note() } else { Seq::empty() });
        } else {
            assert(map_body(paths, recs, used, max_tokens) =~= shown_blocks(paths, recs, 0) + truncation_note());
        }
    }
}

} // verus!
