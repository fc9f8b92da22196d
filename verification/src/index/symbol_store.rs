use vstd::prelude::*;

use crate::parser::ast::{opt_view, symbol_views, SymbolInfo, SymbolKind, SymbolSpec};
use crate::text::{chars_of, lowercase, push_str, to_lowercase};

verus! {

/// A symbol definition as the symbol index keeps it.
#[derive(Debug, Clone)]
pub struct SymbolRecord {
    pub name: String,
    pub kind: String,
    pub relative_path: String,
    pub signature: String,
    pub parent_scope: Option<String>,
    pub line_start: usize,
    pub line_end: usize,
}

/// The plain value of a `SymbolRecord`.
pub struct SymbolRecordSpec {
    pub name: Seq<char>,
    pub kind: Seq<char>,
    pub relative_path: Seq<char>,
    pub signature: Seq<char>,
    pub parent_scope: Option<Seq<char>>,
    pub line_start: int,
    pub line_end: int,
}

impl View for SymbolRecord {
    type V = SymbolRecordSpec;

    open spec fn view(&self) -> SymbolRecordSpec {
        SymbolRecordSpec {
            name: self.name@,
            kind: self.kind@,
            relative_path: self.relative_path@,
            signature: self.signature@,
            parent_scope: opt_view(self.parent_scope),
            line_start: self.line_start as int,
            line_end: self.line_end as int,
        }
    }
}

/// The views of a sequence of records.
pub open spec fn record_views(v: Seq<SymbolRecord>) -> Seq<SymbolRecordSpec> {
    v.map_values(|r: SymbolRecord| r@)
}

/// The record of a symbol defined in the file at `relative_path`.
pub open spec fn record_of(relative_path: Seq<char>, s: SymbolSpec) -> SymbolRecordSpec {
    SymbolRecordSpec {
        name: s.name,
        kind: s.kind.spec_as_str(),
        relative_path,
        signature: s.signature,
        parent_scope: s.parent_scope,
        line_start: s.line_start,
        line_end: s.line_end,
    }
}

/// The records of the symbols that are not imports, in order.
pub open spec fn records_of(relative_path: Seq<char>, syms: Seq<SymbolSpec>) -> Seq<SymbolRecordSpec>
    decreases syms.len(),
{
    if syms.len() == 0 {
        Seq::empty()
    } else {
        records_of(relative_path, syms.drop_last()) + if syms.last().kind == SymbolKind::Import {
            Seq::empty()
        } else {
            seq![record_of(relative_path, syms.last())]
        }
    }
}

/// The records that are not of the file at `relative_path`, in order.
pub open spec fn without_file(recs: Seq<SymbolRecordSpec>, relative_path: Seq<char>) -> Seq<SymbolRecordSpec>
    decreases recs.len(),
{
    if recs.len() == 0 {
        Seq::empty()
    } else {
        without_file(recs.drop_last(), relative_path) + if recs.last().relative_path == relative_path {
            Seq::empty()
        } else {
            seq![recs.last()]
        }
    }
}

/// The index of symbol definitions of a workspace.
pub struct SymbolStore {
    symbols: Vec<SymbolRecord>,
    file_path: Option<String>,
}

/// How well a symbol name matches a query (both lower-cased).
#[derive(Debug, Clone, Copy, PartialEq, Eq, Structural)]
pub enum MatchTier {
    Exact,
    Prefix,
    Contains,
    Fuzzy,
}

/// Whether `t` occurs in `s` as a contiguous part.
pub open spec fn occurs_in(t: Seq<char>, s: Seq<char>) -> bool {
    exists|i: int| 0 <= i <= s.len() - t.len() && #[trigger] s.subrange(i, i + t.len()) == t
}

/// The match tier of a name for a query: equal, prefix, contained, or none
/// of these (then a fuzzy similarity decides).
pub open spec fn match_tier(query: Seq<char>, name: Seq<char>) -> MatchTier {
    if name == query {
        MatchTier::Exact
    } else if query.len() <= name.len() && name.subrange(0, query.len() as int) == query {
        MatchTier::Prefix
    } else if occurs_in(query, name) {
        MatchTier::Contains
    } else {
        MatchTier::Fuzzy
    }
}

fn seq_eq(a: &Vec<char>, b: &Vec<char>, start: usize) -> (r: bool)
    requires
        start + b@.len() <= a@.len(),
    ensures
        r == (a@.subrange(start as int, start + b@.len()) == b@),
{
    let _al = a.len();
    let mut i: usize = 0;
    while i < b.len()
        invariant
            i <= b@.len(),
            start + b@.len() <= a@.len(),
            a@.len() <= usize::MAX,
            forall|k: int| 0 <= k < i ==> a@[start + k] == b@[k],
        decreases b@.len() - i,
    {
        if a[start + i] != b[i] {
            assert(a@.subrange(start as int, start + b@.len())[i as int] != b@[i as int]);
            return false;
        }
        i = i + 1;
    }
    assert(a@.subrange(start as int, start + b@.len()) =~= b@);
    true
}

/// The match tier of a lower-cased name for a lower-cased query.
pub fn tier_of(query: &Vec<char>, name: &Vec<char>) -> (t: MatchTier)
    ensures
        t == match_tier(query@, name@),
{
    if query.len() == name.len() && seq_eq(name, query, 0) {
        assert(name@.subrange(0, name@.len() as int) =~= name@);
        return MatchTier::Exact;
    }
    if query.len() > name.len() {
        assert(!occurs_in(query@, name@));
        return MatchTier::Fuzzy;
    }
    if seq_eq(name, query, 0) {
        proof {
            if name@ == query@ {
                assert(name@.subrange(0, name@.len() as int) =~= name@);
            }
        }
        return MatchTier::Prefix;
    }
    proof {
        if query@.len() == 0 {
            assert(name@.subrange(0, 0) =~= query@);
        }
        if name@ == query@ {
            assert(name@.subrange(0, name@.len() as int) =~= name@);
        }
    }
    let mut i: usize = 1;
    let last = name.len() - query.len();
    while i <= last
        invariant
            1 <= i,
            last == name@.len() - query@.len(),
            query@.len() <= name@.len(),
            query@.len() >= 1,
            name@.len() <= usize::MAX,
            name@ != query@,
            name@.subrange(0, query@.len() as int) != query@,
            forall|k: int| 0 <= k < i ==> #[trigger] name@.subrange(k, k + query@.len()) != query@,
        decreases last + 1 - i,
    {
        if seq_eq(name, query, i) {
            assert(occurs_in(query@, name@));
            return MatchTier::Contains;
        }
        i = i + 1;
    }
    proof {
        assert(!occurs_in(query@, name@)) by {
            if occurs_in(query@, name@) {
                let k = choose|k: int| 0 <= k <= name@.len() - query@.len() && #[trigger] name@.subrange(k, k + query@.len()) == query@;
                assert(name@.subrange(k, k + query@.len()) != query@);
            }
        }
    }
    MatchTier::Fuzzy
}

impl SymbolRecord {
    /// A copy of the record.
    pub fn duplicate(&self) -> (r: SymbolRecord)
        ensures
            r@ == self@,
    {
        SymbolRecord {
            name: self.name.clone(),
            kind: self.kind.clone(),
            relative_path: self.relative_path.clone(),
            signature: self.signature.clone(),
            parent_scope: match &self.parent_scope {
                Some(s) => Some(s.clone()),
                None => None,
            },
            line_start: self.line_start,
            line_end: self.line_end,
        }
    }
}

impl SymbolStore {
    /// The records of the store, in order.
    pub closed spec fn records(self) -> Seq<SymbolRecordSpec> {
        record_views(self.symbols@)
    }

    /// The file the store is saved to, if any.
    pub closed spec fn storage(self) -> Option<Seq<char>> {
        opt_view(self.file_path)
    }

    /// An empty store kept in memory only.
    pub fn create_in_ram() -> (store: SymbolStore)
        ensures
            store.records() == Seq::<SymbolRecordSpec>::empty(),
            store.storage() is None,
    {
        let store = SymbolStore { symbols: Vec::new(), file_path: None };
        assert(store.records() =~= Seq::<SymbolRecordSpec>::empty());
        store
    }

    /// A store holding the given records, saved to `file_path` where given.
    pub fn from_records(symbols: Vec<SymbolRecord>, file_path: Option<String>) -> (store: SymbolStore)
        ensures
            store.records() == record_views(symbols@),
            store.storage() == opt_view(file_path),
    {
        SymbolStore { symbols, file_path }
    }

    /// The file the store is saved to, if any.
    pub fn file_path(&self) -> (p: &Option<String>)
        ensures
            opt_view(*p) == self.storage(),
    {
        &self.file_path
    }

    /// Replaces the symbols of the file at `relative_path` by the given ones,
    /// imports left out.
    pub fn add_symbols(&mut self, relative_path: &str, symbols: &[SymbolInfo])
        ensures
            final(self).records() == without_file(old(self).records(), relative_path@)
                + records_of(relative_path@, symbols@.map_values(|s: SymbolInfo| s@)),
            final(self).storage() == old(self).storage(),
    {
        self.delete_file(relative_path);
        let ghost base = self.records();
        let ghost syms = symbols@.map_values(|s: SymbolInfo| s@);
        let mut i: usize = 0;
        proof {
            assert(syms.subrange(0, 0) =~= Seq::<SymbolSpec>::empty());
            assert(self.records() =~= base + records_of(relative_path@, syms.subrange(0, 0)));
        }
        while i < symbols.len()
            invariant
                i <= symbols@.len(),
                syms == symbols@.map_values(|s: SymbolInfo| s@),
                self.records() == base + records_of(relative_path@, syms.subrange(0, i as int)),
                self.storage() == old(self).storage(),
                base == without_file(old(self).records(), relative_path@),
            decreases symbols@.len() - i,
        {
            let sym = &symbols[i];
            proof {
                assert(syms.subrange(0, i + 1).drop_last() =~= syms.subrange(0, i as int));
                assert(syms.subrange(0, i + 1).last() == sym@);
            }
            if sym.kind != SymbolKind::Import {
                let mut kind = String::new();
                push_str(&mut kind, sym.kind.as_str());
                let mut rel = String::new();
                push_str(&mut rel, relative_path);
                let parent_scope = match &sym.parent_scope {
                    Some(s) => Some(s.clone()),
                    None => None,
                };
                let rec = SymbolRecord {
                    name: sym.name.clone(),
                    kind,
                    relative_path: rel,
                    signature: sym.signature.clone(),
                    parent_scope,
                    line_start: sym.line_start,
                    line_end: sym.line_end,
                };
                let ghost before = self.symbols@;
                self.symbols.push(rec);
                proof {
                    assert(rec@ == record_of(relative_path@, sym@)) by {
                        assert(rec@.kind =~= sym@.kind.spec_as_str());
                        assert(rec@.relative_path =~= relative_path@);
                    }
                    assert(record_views(self.symbols@) =~= record_views(before).push(rec@));
                    assert(self.records() =~= base + records_of(relative_path@, syms.subrange(0, i + 1)));
                }
            } else {
                proof {
                    assert(self.records() =~= base + records_of(relative_path@, syms.subrange(0, i + 1)));
                }
            }
            i = i + 1;
        }
        proof {
            assert(syms.subrange(0, symbols@.len() as int) =~= syms);
        }
    }

    /// Removes the symbols of the file at `relative_path`.
    pub fn delete_file(&mut self, relative_path: &str)
        ensures
            final(self).records() == without_file(old(self).records(), relative_path@),
            final(self).storage() == old(self).storage(),
    {
        let ghost old_recs = self.records();
        let mut kept: Vec<SymbolRecord> = Vec::new();
        let n = self.symbols.len();
        let mut i: usize = 0;
        let mut rel = String::new();
        push_str(&mut rel, relative_path);
        proof {
            assert(old_recs.subrange(0, 0) =~= Seq::<SymbolRecordSpec>::empty());
            assert(record_views(kept@) =~= Seq::<SymbolRecordSpec>::empty());
        }
        while i < n
            invariant
                i <= n,
                n == self.symbols@.len(),
                old_recs == record_views(self.symbols@),
                rel@ == relative_path@,
                record_views(kept@) == without_file(old_recs.subrange(0, i as int), relative_path@),
            decreases n - i,
        {
            proof {
                assert(old_recs.subrange(0, i + 1).drop_last() =~= old_recs.subrange(0, i as int));
            }
            if self.symbols[i].relative_path != rel {
                let ghost before = kept@;
                kept.push(self.symbols[i].duplicate());
                proof {
                    assert(record_views(kept@) =~= record_views(before).push(old_recs[i as int]));
                }
            }
            proof {
                assert(record_views(kept@) =~= without_file(old_recs.subrange(0, i + 1), relative_path@));
            }
            i = i + 1;
        }
        proof {
            assert(old_recs.subrange(0, n as int) =~= old_recs);
        }
        self.symbols = kept;
    }

    /// All records, in order.
    pub fn get_all_symbols(&self) -> (all: &Vec<SymbolRecord>)
        ensures
            record_views(all@) == self.records(),
    {
        &self.symbols
    }

    /// The number of records.
    pub fn count(&self) -> (n: usize)
        ensures
            n == self.records().len(),
    {
        self.symbols.len()
    }

    /// The match tier of every record's name for a query, in record order,
    /// both lower-cased (`str::to_lowercase`).
    pub fn match_tiers(&self, query: &str) -> (tiers: Vec<MatchTier>)
        ensures
            tiers@.len() == self.records().len(),
            forall|i: int| 0 <= i < tiers@.len() ==> tiers@[i] == match_tier(lowercase(query@), lowercase(#[trigger] self.records()[i].name)),
    {
        let q = to_lowercase(query);
        let qc = chars_of(q.as_str());
        let mut tiers: Vec<MatchTier> = Vec::new();
        let n = self.symbols.len();
        let mut i: usize = 0;
        while i < n
            invariant
                i <= n,
                n == self.symbols@.len(),
                qc@ == lowercase(query@),
                tiers@.len() == i,
                forall|k: int| 0 <= k < i ==> tiers@[k] == match_tier(lowercase(query@), lowercase(#[trigger] self.records()[k].name)),
            decreases n - i,
        {
            let name = to_lowercase(self.symbols[i].name.as_str());
            let nc = chars_of(name.as_str());
            tiers.push(tier_of(&qc, &nc));
            i = i + 1;
        }
        tiers
    }
}


impl Default for SymbolStore {
    /// An empty store kept in memory only.
    fn default() -> (s: Self)
        ensures
            s.records() == Seq::<SymbolRecordSpec>::empty(),
            s.storage() is None,
    {
        SymbolStore::create_in_ram()
    }
}

proof fn lemma_without_file_append(a: Seq<SymbolRecordSpec>, b: Seq<SymbolRecordSpec>, p: Seq<char>)
    ensures
        without_file(a + b, p) == without_file(a, p) + without_file(b, p),
    decreases b.len(),
{
    if b.len() == 0 {
        assert(a + b =~= a);
        assert(without_file(a, p) + without_file(b, p) =~= without_file(a, p));
    } else {
        assert((a + b).drop_last() =~= a + b.drop_last());
        lemma_without_file_append(a, b.drop_last(), p);
        assert(without_file(a + b, p) =~= without_file(a, p) + without_file(b, p));
    }
}

proof fn lemma_without_file_of_records(p: Seq<char>, syms: Seq<SymbolSpec>)
    ensures
        without_file(records_of(p, syms), p) == Seq::<SymbolRecordSpec>::empty(),
    decreases syms.len(),
{
    if syms.len() > 0 {
        lemma_without_file_of_records(p, syms.drop_last());
        let last = if syms.last().kind == SymbolKind::Import {
            Seq::<SymbolRecordSpec>::empty()
        } else {
            seq![record_of(p, syms.last())]
        };
        assert(records_of(p, syms) == records_of(p, syms.drop_last()) + last);
        lemma_without_file_append(records_of(p, syms.drop_last()), last, p);
        assert(without_file(Seq::<SymbolRecordSpec>::empty(), p) == Seq::<SymbolRecordSpec>::empty());
        if syms.last().kind != SymbolKind::Import {
            assert(last.drop_last() =~= Seq::<SymbolRecordSpec>::empty());
            assert(last.last().relative_path == p);
            assert(without_file(last, p) =~= Seq::<SymbolRecordSpec>::empty());
        }
        assert(without_file(last, p) =~= Seq::<SymbolRecordSpec>::empty());
        assert(without_file(records_of(p, syms), p) =~= Seq::<SymbolRecordSpec>::empty());
    }
}

/// After the symbols of a file are removed, no record is of that file, and
/// the records of every other file stay, in their order.
pub proof fn law_delete_file_removes_only_that_file(recs: Seq<SymbolRecordSpec>, p: Seq<char>)
    ensures
        forall|i: int| 0 <= i < without_file(recs, p).len() ==> #[trigger] without_file(recs, p)[i].relative_path != p,
        without_file(recs, p) == recs.filter(|r: SymbolRecordSpec| r.relative_path != p),
    decreases recs.len(),
{
    if recs.len() > 0 {
        law_delete_file_removes_only_that_file(recs.drop_last(), p);
        let f = |r: SymbolRecordSpec| r.relative_path != p;
        assert(recs.filter(f) == if f(recs.last()) { recs.drop_last().filter(f).push(recs.last()) } else { recs.drop_last().filter(f) }) by {
            reveal(Seq::filter);
            assert(recs.drop_last() =~= recs.subrange(0, recs.len() - 1));
        }
        let w = without_file(recs, p);
        let w0 = without_file(recs.drop_last(), p);
        assert forall|i: int| 0 <= i < w.len() implies #[trigger] w[i].relative_path != p by {
            if i < w0.len() {
                assert(w[i] == w0[i]);
            }
        }
        assert(w =~= recs.filter(f));
    } else {
        assert(recs.filter(|r: SymbolRecordSpec| r.relative_path != p) =~= Seq::<SymbolRecordSpec>::empty()) by {
            reveal(Seq::filter);
        }
    }
}

/// Adding the symbols of a file twice leaves the store as adding them once:
/// re-indexing a file replaces its symbols.
pub proof fn law_add_symbols_idempotent(recs: Seq<SymbolRecordSpec>, p: Seq<char>, syms: Seq<SymbolSpec>)
    ensures
        ({
            let once = without_file(recs, p) + records_of(p, syms);
            without_file(once, p) + records_of(p, syms) == once
        }),
{
    let once = without_file(recs, p) + records_of(p, syms);
    lemma_without_file_append(without_file(recs, p), records_of(p, syms), p);
    lemma_without_file_of_records(p, syms);
    lemma_without_file_twice(recs, p);
    assert(without_file(once, p) =~= without_file(recs, p));
}

proof fn lemma_without_file_twice(recs: Seq<SymbolRecordSpec>, p: Seq<char>)
    ensures
        without_file(without_file(recs, p), p) == without_file(recs, p),
    decreases recs.len(),
{
    if recs.len() > 0 {
        lemma_without_file_twice(recs.drop_last(), p);
        let last = if recs.last().relative_path == p { Seq::<SymbolRecordSpec>::empty() } else { seq![recs.last()] };
        lemma_without_file_append(without_file(recs.drop_last(), p), last, p);
        assert(without_file(Seq::<SymbolRecordSpec>::empty(), p) == Seq::<SymbolRecordSpec>::empty());
        if recs.last().relative_path != p {
            assert(last.drop_last() =~= Seq::<SymbolRecordSpec>::empty());
            assert(last.last() == recs.last());
            assert(without_file(last, p) =~= last);
        }
        assert(without_file(without_file(recs, p), p) =~= without_file(recs, p));
    }
}

} // verus!
