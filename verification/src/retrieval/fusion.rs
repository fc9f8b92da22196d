use vstd::prelude::*;

verus! {

/// A chunk ranked by the fusion of several retrieval channels. `S` is the
/// type of the scores, which the library carries without computing on them.
#[derive(Debug, Clone)]
pub struct ScoredChunk<S> {
    pub chunk_id: String,
    pub relative_path: String,
    pub language: String,
    pub symbol_name: Option<String>,
    pub symbol_kind: Option<String>,
    pub signature: Option<String>,
    pub content: String,
    pub line_start: usize,
    pub line_end: usize,
    pub rrf_score: S,
    pub bm25_score: Option<S>,
    pub vector_score: Option<S>,
    pub symbol_score: Option<S>,
}

/// A chunk as one retrieval channel ranked it, with that channel's raw score.
#[derive(Debug, Clone)]
pub struct RankedListCandidate<S> {
    pub chunk_id: String,
    pub relative_path: String,
    pub language: String,
    pub symbol_name: Option<String>,
    pub symbol_kind: Option<String>,
    pub signature: Option<String>,
    pub content: String,
    pub line_start: usize,
    pub line_end: usize,
    pub raw_score: S,
}


/// The chunk ids of a ranked list, in rank order.
pub open spec fn candidate_ids<S>(list: Seq<RankedListCandidate<S>>) -> Seq<Seq<char>> {
    list.map_values(|c: RankedListCandidate<S>| c.chunk_id@)
}

/// The distinct items of a sequence, in the order of their first occurrence.
pub open spec fn distinct_in_order(s: Seq<Seq<char>>) -> Seq<Seq<char>>
    decreases s.len(),
{
    if s.len() == 0 {
        Seq::empty()
    } else {
        let d = distinct_in_order(s.drop_last());
        if s.drop_last().contains(s.last()) {
            d
        } else {
            d.push(s.last())
        }
    }
}

/// The positions at which `x` occurs in `s`, ascending.
pub open spec fn positions_of(s: Seq<Seq<char>>, x: Seq<char>) -> Seq<int>
    decreases s.len(),
{
    if s.len() == 0 {
        Seq::empty()
    } else {
        let p = positions_of(s.drop_last(), x);
        if s.last() == x {
            p.push(s.len() - 1)
        } else {
            p
        }
    }
}

/// The position of the first occurrence of `x` in `s` (where it occurs).
pub open spec fn first_position(s: Seq<Seq<char>>, x: Seq<char>) -> int
    decreases s.len(),
{
    if s.len() == 0 {
        0
    } else if s.drop_last().contains(x) {
        first_position(s.drop_last(), x)
    } else {
        s.len() - 1
    }
}

/// A chunk id found in the ranked lists, where its first occurrence is (the
/// candidate that supplies its text: `source_list` 0 for the lexical list, 1
/// for the vector list, 2 for the symbol list, at `source_index`), and its
/// 0-based ranks in each list.
#[derive(Debug, Clone)]
pub struct FusedCandidate {
    pub chunk_id: String,
    pub source_list: usize,
    pub source_index: usize,
    pub bm25_ranks: Vec<usize>,
    pub vector_ranks: Vec<usize>,
    pub symbol_ranks: Vec<usize>,
}

/// A sequence of ranks as integers.
pub open spec fn rank_ints(v: Seq<usize>) -> Seq<int> {
    v.map_values(|r: usize| r as int)
}

/// Where position `p` of the three lists laid end to end falls: list and index.
pub open spec fn source_of(p: int, len_bm25: int, len_vector: int) -> (int, int) {
    if p < len_bm25 {
        (0, p)
    } else if p < len_bm25 + len_vector {
        (1, p - len_bm25)
    } else {
        (2, p - len_bm25 - len_vector)
    }
}

/// The grouping of the lists `b`, `v`, `s` (chunk ids) into one entry per
/// distinct chunk id, in the order of first occurrence.
pub open spec fn grouping_matches(entries: Seq<FusedCandidate>, b: Seq<Seq<char>>, v: Seq<Seq<char>>, s: Seq<Seq<char>>) -> bool {
    let all = b + v + s;
    let d = distinct_in_order(all);
    &&& entries.len() == d.len()
    &&& forall|j: int| 0 <= j < d.len() ==> {
        let e = #[trigger] entries[j];
        &&& e.chunk_id@ == d[j]
        &&& rank_ints(e.bm25_ranks@) == positions_of(b, d[j])
        &&& rank_ints(e.vector_ranks@) == positions_of(v, d[j])
        &&& rank_ints(e.symbol_ranks@) == positions_of(s, d[j])
        &&& (e.source_list as int, e.source_index as int) == source_of(first_position(all, d[j]), b.len() as int, v.len() as int)
    }
}

proof fn lemma_push_contains(s: Seq<Seq<char>>, a: Seq<char>, x: Seq<char>)
    ensures
        s.push(a).contains(x) <==> (s.contains(x) || a == x),
{
    if s.contains(x) {
        let i = choose|i: int| 0 <= i < s.len() && s[i] == x;
        assert(s.push(a)[i] == x);
    }
    if a == x {
        assert(s.push(a)[s.len() as int] == x);
    }
    if s.push(a).contains(x) && a != x {
        let i = choose|i: int| 0 <= i < s.len() + 1 && s.push(a)[i] == x;
        assert(i < s.len());
        assert(s[i] == x);
    }
}

proof fn lemma_distinct_contains(s: Seq<Seq<char>>, x: Seq<char>)
    ensures
        distinct_in_order(s).contains(x) <==> s.contains(x),
    decreases s.len(),
{
    if s.len() > 0 {
        let t = s.drop_last();
        let l = s.last();
        lemma_distinct_contains(t, x);
        assert(s =~= t.push(l));
        lemma_push_contains(t, l, x);
        if !t.contains(l) {
            lemma_push_contains(distinct_in_order(t), l, x);
        }
    }
}

proof fn lemma_distinct_unique(s: Seq<Seq<char>>)
    ensures
        forall|i: int, j: int| 0 <= i < j < distinct_in_order(s).len() ==> distinct_in_order(s)[i] != distinct_in_order(s)[j],
    decreases s.len(),
{
    if s.len() > 0 {
        lemma_distinct_unique(s.drop_last());
        lemma_distinct_contains(s.drop_last(), s.last());
    }
}

proof fn lemma_first_position_push(s: Seq<Seq<char>>, x: Seq<char>, y: Seq<char>)
    requires
        s.contains(y),
    ensures
        first_position(s.push(x), y) == first_position(s, y),
{
    assert(s.push(x).drop_last() =~= s);
}

proof fn lemma_positions_push(s: Seq<Seq<char>>, x: Seq<char>, y: Seq<char>)
    ensures
        positions_of(s.push(x), y) == if x == y { positions_of(s, y).push(s.len() as int) } else { positions_of(s, y) },
{
    assert(s.push(x).drop_last() =~= s);
}

/// Adds the candidates of one list (`which`: 0, 1 or 2) to the grouping.
fn absorb_list<S>(entries: &mut Vec<FusedCandidate>, list: &Vec<RankedListCandidate<S>>, which: usize,
    Ghost(b): Ghost<Seq<Seq<char>>>, Ghost(v): Ghost<Seq<Seq<char>>>)
    requires
        which < 3,
        which == 0 ==> b.len() == 0 && v.len() == 0,
        which == 1 ==> v.len() == 0,
        grouping_matches(old(entries)@, b, v, Seq::empty()),
    ensures
        which == 0 ==> grouping_matches(final(entries)@, candidate_ids(list@), Seq::empty(), Seq::empty()),
        which == 1 ==> grouping_matches(final(entries)@, b, candidate_ids(list@), Seq::empty()),
        which == 2 ==> grouping_matches(final(entries)@, b, v, candidate_ids(list@)),
{
    let ghost ids = candidate_ids(list@);
    let n = list.len();
    let mut i: usize = 0;
    proof {
        assert(ids.subrange(0, 0) =~= Seq::<Seq<char>>::empty());
        assert(b + v + Seq::<Seq<char>>::empty() =~= b + v);
    }
    while i < n
        invariant
            i <= n,
            n == list@.len(),
            which < 3,
            which == 0 ==> b.len() == 0 && v.len() == 0,
            which == 1 ==> v.len() == 0,
            ids == candidate_ids(list@),
            which == 0 ==> grouping_matches(entries@, ids.subrange(0, i as int), Seq::empty(), Seq::empty()),
            which == 1 ==> grouping_matches(entries@, b, ids.subrange(0, i as int), Seq::empty()),
            which == 2 ==> grouping_matches(entries@, b, v, ids.subrange(0, i as int)),
        decreases n - i,
    {
        let ghost seen = ids.subrange(0, i as int);
        let ghost (lb, lv, ls) = if which == 0 { (seen, Seq::<Seq<char>>::empty(), Seq::<Seq<char>>::empty()) }
            else if which == 1 { (b, seen, Seq::<Seq<char>>::empty()) } else { (b, v, seen) };
        let ghost all = lb + lv + ls;
        let ghost d = distinct_in_order(all);
        let ghost x = ids[i as int];
        let ghost seen2 = ids.subrange(0, i + 1);
        proof {
            assert(seen2 =~= seen.push(x));
        }
        let cand = &list[i];
        let mut found = false;
        let mut j: usize = 0;
        while !found && j < entries.len()
            invariant
                j <= entries@.len(),
                entries@.len() == d.len(),
                forall|k: int| 0 <= k < d.len() ==> (#[trigger] entries@[k]).chunk_id@ == d[k],
                x == cand.chunk_id@,
                !found ==> forall|k: int| 0 <= k < j ==> d[k] != x,
                found ==> j < entries@.len() && d[j as int] == x,
            decreases entries@.len() - j + (if found { 0int } else { 1int }),
        {
            if entries[j].chunk_id == cand.chunk_id {
                found = true;
            } else {
                j = j + 1;
            }
        }
        let ghost old_entries = entries@;
        if found {
            if which == 0 {
                entries[j].bm25_ranks.push(i);
            } else if which == 1 {
                entries[j].vector_ranks.push(i);
            } else {
                entries[j].symbol_ranks.push(i);
            }
            proof {
                lemma_absorb_known(old_entries, entries@, lb, lv, ls, x, which as int, j as int, i as int);
            }
        } else {
            let mut e = FusedCandidate {
                chunk_id: cand.chunk_id.clone(),
                source_list: which,
                source_index: i,
                bm25_ranks: Vec::new(),
                vector_ranks: Vec::new(),
                symbol_ranks: Vec::new(),
            };
            if which == 0 {
                e.bm25_ranks.push(i);
            } else if which == 1 {
                e.vector_ranks.push(i);
            } else {
                e.symbol_ranks.push(i);
            }
            entries.push(e);
            proof {
                assert(!d.contains(x)) by {
                    if d.contains(x) {
                        let k = choose|k: int| 0 <= k < d.len() && d[k] == x;
                        assert(d[k] != x);
                    }
                }
                lemma_absorb_new(old_entries, entries@, lb, lv, ls, x, which as int, i as int);
            }
        }
        proof {
            if which == 0 {
                assert(lb.push(x) =~= seen2);
            } else if which == 1 {
                assert(lv.push(x) =~= seen2);
            } else {
                assert(ls.push(x) =~= seen2);
            }
        }
        i = i + 1;
    }
    proof {
        assert(ids.subrange(0, n as int) =~= ids);
    }
}

/// The three lists with `x` appended to list `which` (the later lists being empty).
pub open spec fn with_pushed(b: Seq<Seq<char>>, v: Seq<Seq<char>>, s: Seq<Seq<char>>, which: int, x: Seq<char>) -> (Seq<Seq<char>>, Seq<Seq<char>>, Seq<Seq<char>>) {
    if which == 0 { (b.push(x), v, s) } else if which == 1 { (b, v.push(x), s) } else { (b, v, s.push(x)) }
}

proof fn lemma_first_position_lt(s: Seq<Seq<char>>, y: Seq<char>)
    requires
        s.contains(y),
    ensures
        0 <= first_position(s, y) < s.len(),
        s[first_position(s, y)] == y,
    decreases s.len(),
{
    if s.drop_last().contains(y) {
        lemma_first_position_lt(s.drop_last(), y);
    } else {
        let i = choose|i: int| 0 <= i < s.len() && s[i] == y;
        if i < s.len() - 1 {
            assert(s.drop_last()[i] == y);
        }
    }
}

proof fn lemma_absorb_known(
    old_entries: Seq<FusedCandidate>,
    entries: Seq<FusedCandidate>,
    b: Seq<Seq<char>>,
    v: Seq<Seq<char>>,
    s: Seq<Seq<char>>,
    x: Seq<char>,
    which: int,
    j: int,
    i: int,
)
    requires
        0 <= which < 3,
        which == 0 ==> v.len() == 0 && s.len() == 0,
        which == 1 ==> s.len() == 0,
        i == (if which == 0 { b.len() } else if which == 1 { v.len() } else { s.len() }),
        0 <= i <= usize::MAX,
        grouping_matches(old_entries, b, v, s),
        0 <= j < old_entries.len(),
        distinct_in_order(b + v + s)[j] == x,
        entries.len() == old_entries.len(),
        forall|k: int| 0 <= k < entries.len() && k != j ==> entries[k] == old_entries[k],
        entries[j].chunk_id == old_entries[j].chunk_id,
        entries[j].source_list == old_entries[j].source_list,
        entries[j].source_index == old_entries[j].source_index,
        entries[j].bm25_ranks@ == if which == 0 { old_entries[j].bm25_ranks@.push(i as usize) } else { old_entries[j].bm25_ranks@ },
        entries[j].vector_ranks@ == if which == 1 { old_entries[j].vector_ranks@.push(i as usize) } else { old_entries[j].vector_ranks@ },
        entries[j].symbol_ranks@ == if which == 2 { old_entries[j].symbol_ranks@.push(i as usize) } else { old_entries[j].symbol_ranks@ },
    ensures
        ({
            let (b2, v2, s2) = with_pushed(b, v, s, which, x);
            grouping_matches(entries, b2, v2, s2)
        }),
{
    let all = b + v + s;
    let d = distinct_in_order(all);
    let (b2, v2, s2) = with_pushed(b, v, s, which, x);
    let all2 = b2 + v2 + s2;
    assert(all2 =~= all.push(x));
    assert(all2.drop_last() =~= all);
    lemma_distinct_unique(all);
    assert(d.contains(x)) by {
        assert(d[j] == x);
    }
    lemma_distinct_contains(all, x);
    assert(distinct_in_order(all2) == d);
    assert forall|k: int| 0 <= k < d.len() implies {
        let e = #[trigger] entries[k];
        &&& e.chunk_id@ == d[k]
        &&& rank_ints(e.bm25_ranks@) == positions_of(b2, d[k])
        &&& rank_ints(e.vector_ranks@) == positions_of(v2, d[k])
        &&& rank_ints(e.symbol_ranks@) == positions_of(s2, d[k])
        &&& (e.source_list as int, e.source_index as int) == source_of(first_position(all2, d[k]), b2.len() as int, v2.len() as int)
    } by {
        let e = entries[k];
        let oe = old_entries[k];
        assert(oe.chunk_id@ == d[k]);
        lemma_distinct_contains(all, d[k]);
        assert(d.contains(d[k]));
        assert(all.contains(d[k]));
        lemma_first_position_push(all, x, d[k]);
        lemma_first_position_lt(all, d[k]);
        lemma_positions_push(b, x, d[k]);
        lemma_positions_push(v, x, d[k]);
        lemma_positions_push(s, x, d[k]);
        if k == j {
            assert(rank_ints(oe.bm25_ranks@.push(i as usize)) =~= rank_ints(oe.bm25_ranks@).push(i));
            assert(rank_ints(oe.vector_ranks@.push(i as usize)) =~= rank_ints(oe.vector_ranks@).push(i));
            assert(rank_ints(oe.symbol_ranks@.push(i as usize)) =~= rank_ints(oe.symbol_ranks@).push(i));
        } else {
            assert(d[k] != x);
        }
    }
}

proof fn lemma_absorb_new(
    old_entries: Seq<FusedCandidate>,
    entries: Seq<FusedCandidate>,
    b: Seq<Seq<char>>,
    v: Seq<Seq<char>>,
    s: Seq<Seq<char>>,
    x: Seq<char>,
    which: int,
    i: int,
)
    requires
        0 <= which < 3,
        which == 0 ==> v.len() == 0 && s.len() == 0,
        which == 1 ==> s.len() == 0,
        i == (if which == 0 { b.len() } else if which == 1 { v.len() } else { s.len() }),
        0 <= i <= usize::MAX,
        grouping_matches(old_entries, b, v, s),
        !distinct_in_order(b + v + s).contains(x),
        entries.len() == old_entries.len() + 1,
        forall|k: int| 0 <= k < old_entries.len() ==> entries[k] == old_entries[k],
        entries.last().chunk_id@ == x,
        entries.last().source_list == which,
        entries.last().source_index == i,
        entries.last().bm25_ranks@ == if which == 0 { seq![i as usize] } else { Seq::<usize>::empty() },
        entries.last().vector_ranks@ == if which == 1 { seq![i as usize] } else { Seq::<usize>::empty() },
        entries.last().symbol_ranks@ == if which == 2 { seq![i as usize] } else { Seq::<usize>::empty() },
    ensures
        ({
            let (b2, v2, s2) = with_pushed(b, v, s, which, x);
            grouping_matches(entries, b2, v2, s2)
        }),
{
    let all = b + v + s;
    let d = distinct_in_order(all);
    let (b2, v2, s2) = with_pushed(b, v, s, which, x);
    let all2 = b2 + v2 + s2;
    assert(all2 =~= all.push(x));
    assert(all2.drop_last() =~= all);
    lemma_distinct_contains(all, x);
    assert(!all.contains(x));
    assert(distinct_in_order(all2) == d.push(x));
    assert forall|t: int| 0 <= t < b.len() implies b[t] != x by {
        assert(all[t] == b[t]);
    }
    assert forall|t: int| 0 <= t < v.len() implies v[t] != x by {
        assert(all[b.len() + t] == v[t]);
    }
    assert forall|t: int| 0 <= t < s.len() implies s[t] != x by {
        assert(all[b.len() + v.len() + t] == s[t]);
    }
    lemma_positions_absent(b, x);
    lemma_positions_absent(v, x);
    lemma_positions_absent(s, x);
    assert forall|k: int| 0 <= k < d.len() + 1 implies {
        let e = #[trigger] entries[k];
        &&& e.chunk_id@ == d.push(x)[k]
        &&& rank_ints(e.bm25_ranks@) == positions_of(b2, d.push(x)[k])
        &&& rank_ints(e.vector_ranks@) == positions_of(v2, d.push(x)[k])
        &&& rank_ints(e.symbol_ranks@) == positions_of(s2, d.push(x)[k])
        &&& (e.source_list as int, e.source_index as int) == source_of(first_position(all2, d.push(x)[k]), b2.len() as int, v2.len() as int)
    } by {
        let y = d.push(x)[k];
        lemma_positions_push(b, x, y);
        lemma_positions_push(v, x, y);
        lemma_positions_push(s, x, y);
        if k < d.len() {
            assert(y == d[k]);
            lemma_distinct_contains(all, y);
            assert(d.contains(y));
            lemma_first_position_push(all, x, y);
            lemma_first_position_lt(all, y);
            assert(y != x);
            assert(entries[k] == old_entries[k]);
        } else {
            assert(y == x);
            assert(first_position(all2, x) == all.len());
            assert(rank_ints(entries[k].bm25_ranks@) =~= if which == 0 { seq![i] } else { Seq::<int>::empty() });
            assert(rank_ints(entries[k].vector_ranks@) =~= if which == 1 { seq![i] } else { Seq::<int>::empty() });
            assert(rank_ints(entries[k].symbol_ranks@) =~= if which == 2 { seq![i] } else { Seq::<int>::empty() });
        }
    }
}

proof fn lemma_positions_absent(s: Seq<Seq<char>>, x: Seq<char>)
    requires
        forall|t: int| 0 <= t < s.len() ==> s[t] != x,
    ensures
        positions_of(s, x) == Seq::<int>::empty(),
    decreases s.len(),
{
    if s.len() > 0 {
        lemma_positions_absent(s.drop_last(), x);
    }
}

/// Groups the candidates of three ranked lists by chunk id: one entry per
/// distinct id, in order of first occurrence (lexical list, then vector list,
/// then symbol list), with the id's ranks in each list and where it first
/// occurs. This is the part of reciprocal rank fusion that needs no score.
pub fn group_ranked_lists<S>(
    bm25: &Vec<RankedListCandidate<S>>,
    vector: &Vec<RankedListCandidate<S>>,
    symbol: &Vec<RankedListCandidate<S>>,
) -> (entries: Vec<FusedCandidate>)
    ensures
        grouping_matches(entries@, candidate_ids(bm25@), candidate_ids(vector@), candidate_ids(symbol@)),
{
    let mut entries: Vec<FusedCandidate> = Vec::new();
    proof {
        let e = Seq::<Seq<char>>::empty();
        assert(e + e + e =~= e);
        assert(distinct_in_order(e + e + e) =~= Seq::<Seq<char>>::empty());
    }
    absorb_list(&mut entries, bm25, 0, Ghost(Seq::empty()), Ghost(Seq::empty()));
    absorb_list(&mut entries, vector, 1, Ghost(candidate_ids(bm25@)), Ghost(Seq::empty()));
    absorb_list(&mut entries, symbol, 2, Ghost(candidate_ids(bm25@)), Ghost(candidate_ids(vector@)));
    entries
}


/// Fusion deduplicates: the grouped entries have pairwise distinct chunk ids,
/// and a chunk id has an entry exactly when it occurs in one of the lists.
pub proof fn law_grouping_deduplicates(entries: Seq<FusedCandidate>, b: Seq<Seq<char>>, v: Seq<Seq<char>>, s: Seq<Seq<char>>)
    requires
        grouping_matches(entries, b, v, s),
    ensures
        forall|i: int, j: int| 0 <= i < j < entries.len() ==> entries[i].chunk_id@ != entries[j].chunk_id@,
        forall|x: Seq<char>| (b + v + s).contains(x) <==> exists|j: int| 0 <= j < entries.len() && #[trigger] entries[j].chunk_id@ == x,
{
    let all = b + v + s;
    let d = distinct_in_order(all);
    lemma_distinct_unique(all);
    assert forall|i: int, j: int| 0 <= i < j < entries.len() implies entries[i].chunk_id@ != entries[j].chunk_id@ by {
        assert(entries[i].chunk_id@ == d[i]);
        assert(entries[j].chunk_id@ == d[j]);
    }
    assert forall|x: Seq<char>| all.contains(x) <==> exists|j: int| 0 <= j < entries.len() && #[trigger] entries[j].chunk_id@ == x by {
        lemma_distinct_contains(all, x);
        if all.contains(x) {
            let j = choose|j: int| 0 <= j < d.len() && d[j] == x;
            assert(entries[j].chunk_id@ == x);
        }
        if exists|j: int| 0 <= j < entries.len() && #[trigger] entries[j].chunk_id@ == x {
            let j = choose|j: int| 0 <= j < entries.len() && #[trigger] entries[j].chunk_id@ == x;
            assert(d[j] == x);
        }
    }
}

} // verus!
