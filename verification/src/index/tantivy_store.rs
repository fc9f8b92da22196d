use vstd::prelude::*;

use crate::embeddings::mock::{split_words, words_and_rest, words_of};
use crate::parser::ast::opt_view;
use crate::parser::chunker::{ChunkSpec, CodeChunk};
use crate::text::{chars_of, char_is_alphanumeric, is_alphanumeric, is_white_space, owned, push_char, push_str, string_from_chars};

verus! {

/// Whether a character stays in a sanitized query word.
pub open spec fn kept_in_query(c: char) -> bool {
    is_alphanumeric(c) || c == '_' || c == ':'
}

/// The characters of a word that stay in a sanitized query, in order.
pub open spec fn clean_word(w: Seq<char>) -> Seq<char>
    decreases w.len(),
{
    if w.len() == 0 {
        Seq::empty()
    } else {
        let r = clean_word(w.drop_last());
        if kept_in_query(w.last()) { r.push(w.last()) } else { r }
    }
}

/// The cleaned words that are not empty, in order.
pub open spec fn clean_words(ws: Seq<Seq<char>>) -> Seq<Seq<char>>
    decreases ws.len(),
{
    if ws.len() == 0 {
        Seq::empty()
    } else {
        let r = clean_words(ws.drop_last());
        let c = clean_word(ws.last());
        if c.len() > 0 { r.push(c) } else { r }
    }
}

/// Words joined with one space between each two.
pub open spec fn join_words(ws: Seq<Seq<char>>) -> Seq<char>
    decreases ws.len(),
{
    if ws.len() == 0 {
        Seq::empty()
    } else if ws.len() == 1 {
        ws[0]
    } else {
        join_words(ws.drop_last()) + seq![' '] + ws.last()
    }
}

/// The query as it is first given to the query parser: each word of the
/// text kept to its letters, digits, `_` and `:`, the words that are left
/// joined by single spaces.
pub open spec fn sanitized(query: Seq<char>) -> Seq<char> {
    join_words(clean_words(words_of(query)))
}

/// Whether a character belongs to a fallback query word.
pub open spec fn word_char(c: char) -> bool {
    is_alphanumeric(c) || c == '_'
}

/// The runs of word characters of a text and the run being read at its end.
pub open spec fn runs_and_rest(s: Seq<char>) -> (Seq<Seq<char>>, Seq<char>)
    decreases s.len(),
{
    if s.len() == 0 {
        (Seq::empty(), Seq::empty())
    } else {
        let (rs, cur) = runs_and_rest(s.drop_last());
        if word_char(s.last()) {
            (rs, cur.push(s.last()))
        } else if cur.len() > 0 {
            (rs.push(cur), Seq::empty())
        } else {
            (rs, Seq::empty())
        }
    }
}

/// The maximal runs of letters, digits and `_` of a text, in order.
pub open spec fn word_runs(s: Seq<char>) -> Seq<Seq<char>> {
    let (rs, cur) = runs_and_rest(s);
    if cur.len() > 0 { rs.push(cur) } else { rs }
}

fn join_with_spaces(ws: &Vec<String>) -> (s: String)
    ensures
        s@ == join_words(ws@.map_values(|w: String| w@)),
{
    let ghost v = ws@.map_values(|w: String| w@);
    let mut s = String::new();
    let mut i: usize = 0;
    while i < ws.len()
        invariant
            i <= ws@.len(),
            v == ws@.map_values(|w: String| w@),
            s@ == join_words(v.subrange(0, i as int)),
        decreases ws@.len() - i,
    {
        proof {
            assert(v.subrange(0, i + 1).drop_last() =~= v.subrange(0, i as int));
        }
        if i > 0 {
            push_char(&mut s, ' ');
        }
        push_str(&mut s, ws[i].as_str());
        proof {
            if i == 0 {
                assert(s@ =~= v.subrange(0, 1)[0]);
            } else {
                assert(s@ =~= join_words(v.subrange(0, i as int)) + seq![' '] + v[i as int]);
            }
        }
        i = i + 1;
    }
    proof {
        assert(v.subrange(0, ws@.len() as int) =~= v);
    }
    s
}

fn clean(w: &str) -> (c: Vec<char>)
    ensures
        c@ == clean_word(w@),
{
    let cs = chars_of(w);
    let mut out: Vec<char> = Vec::new();
    let mut i: usize = 0;
    while i < cs.len()
        invariant
            i <= cs@.len(),
            cs@ == w@,
            out@ == clean_word(cs@.subrange(0, i as int)),
        decreases cs@.len() - i,
    {
        let ch = cs[i];
        proof {
            assert(cs@.subrange(0, i + 1).drop_last() =~= cs@.subrange(0, i as int));
            assert(cs@.subrange(0, i + 1).last() == ch);
        }
        if char_is_alphanumeric(ch) || ch == '_' || ch == ':' {
            out.push(ch);
        }
        i = i + 1;
    }
    proof {
        assert(cs@.subrange(0, cs@.len() as int) =~= cs@);
    }
    out
}

/// The sanitized form of a query (see `sanitized`).
pub fn sanitize_query(query: &str) -> (s: String)
    ensures
        s@ == sanitized(query@),
{
    let words = split_words(query);
    let ghost ws = words@.map_values(|w: String| w@);
    let mut kept: Vec<String> = Vec::new();
    let mut i: usize = 0;
    while i < words.len()
        invariant
            i <= words@.len(),
            ws == words@.map_values(|w: String| w@),
            ws == words_of(query@),
            kept@.map_values(|w: String| w@) == clean_words(ws.subrange(0, i as int)),
        decreases words@.len() - i,
    {
        let c = clean(words[i].as_str());
        proof {
            assert(ws.subrange(0, i + 1).drop_last() =~= ws.subrange(0, i as int));
            assert(ws.subrange(0, i + 1).last() == words@[i as int]@);
        }
        if c.len() > 0 {
            let ghost before = kept@;
            kept.push(string_from_chars(c.as_slice()));
            proof {
                assert(kept@.map_values(|w: String| w@) =~= before.map_values(|w: String| w@).push(c@));
            }
        }
        i = i + 1;
    }
    proof {
        assert(ws.subrange(0, words@.len() as int) =~= ws);
    }
    join_with_spaces(&kept)
}

/// The query of last resort: the runs of letters, digits and `_` of the
/// text joined by single spaces, or nothing where there are none.
pub fn fallback_query(query: &str) -> (r: Option<String>)
    ensures
        match r {
            Some(s) => word_runs(query@).len() > 0 && s@ == join_words(word_runs(query@)),
            None => word_runs(query@).len() == 0,
        },
{
    let cs = chars_of(query);
    let mut runs: Vec<String> = Vec::new();
    let mut cur: Vec<char> = Vec::new();
    let mut i: usize = 0;
    while i < cs.len()
        invariant
            i <= cs@.len(),
            cs@ == query@,
            (runs@.map_values(|w: String| w@), cur@) == runs_and_rest(cs@.subrange(0, i as int)),
        decreases cs@.len() - i,
    {
        let c = cs[i];
        proof {
            assert(cs@.subrange(0, i + 1).drop_last() =~= cs@.subrange(0, i as int));
            assert(cs@.subrange(0, i + 1).last() == c);
        }
        if char_is_alphanumeric(c) || c == '_' {
            cur.push(c);
        } else if cur.len() > 0 {
            let ghost before = runs@;
            runs.push(string_from_chars(cur.as_slice()));
            proof {
                assert(runs@.map_values(|w: String| w@) =~= before.map_values(|w: String| w@).push(cur@));
            }
            cur = Vec::new();
        }
        i = i + 1;
    }
    proof {
        assert(cs@.subrange(0, cs@.len() as int) =~= cs@);
    }
    if cur.len() > 0 {
        let ghost before = runs@;
        runs.push(string_from_chars(cur.as_slice()));
        proof {
            assert(runs@.map_values(|w: String| w@) =~= before.map_values(|w: String| w@).push(cur@));
        }
    }
    if runs.len() == 0 {
        return None;
    }
    Some(join_with_spaces(&runs))
}

/// The texts that a lexical search tries, in order, to parse as a query: the
/// sanitized query (see `sanitized`), the query as given, and last the runs of
/// word characters (see `fallback_query`) where there are any. The first text
/// that parses is searched; where none parses, a failure on that last text is
/// an error, and without it the search finds nothing.
pub fn query_attempts(query: &str) -> (v: Vec<String>)
    ensures
        v@.len() == if word_runs(query@).len() > 0 { 3int } else { 2int },
        v@[0]@ == sanitized(query@),
        v@[1]@ == query@,
        v@.len() == 3 ==> v@[2]@ == join_words(word_runs(query@)),
{
    let mut v: Vec<String> = Vec::new();
    v.push(sanitize_query(query));
    v.push(owned(query));
    match fallback_query(query) {
        Some(text) => v.push(text),
        None => {},
    }
    v
}


/// A document of the lexical index, as `tantivy` stores it.
#[verifier::external_type_specification]
#[verifier::external_body]
pub struct ExTantivyDocument(tantivy::TantivyDocument);

/// A value held by a document of the lexical index.
pub enum IndexedValue {
    Text(Seq<char>),
    Unsigned(u64),
    Other,
}

/// The field values of a document, in the order they were added, each with
/// the id of its field.
pub uninterp spec fn document_values(d: tantivy::TantivyDocument) -> Seq<(u32, IndexedValue)>;

/// `TantivyDocument::new`: a document without values.
#[verifier::external_body]
fn new_document() -> (d: tantivy::TantivyDocument)
    ensures
        document_values(d) == Seq::<(u32, IndexedValue)>::empty(),
{
    tantivy::TantivyDocument::new()
}

/// `TantivyDocument::add_text`: appends a text value for the field with id `field`.
#[verifier::external_body]
fn add_text(d: &mut tantivy::TantivyDocument, field: u32, text: &str)
    ensures
        document_values(*final(d)) == document_values(*old(d)).push((field, IndexedValue::Text(text@))),
{
    d.add_text(tantivy::schema::Field::from_field_id(field), text);
}

/// `TantivyDocument::add_u64`: appends an unsigned value for the field with id `field`.
#[verifier::external_body]
fn add_u64(d: &mut tantivy::TantivyDocument, field: u32, value: u64)
    ensures
        document_values(*final(d)) == document_values(*old(d)).push((field, IndexedValue::Unsigned(value))),
{
    d.add_u64(tantivy::schema::Field::from_field_id(field), value);
}

/// The first value of field `field` among `vals`, if there is one.
pub open spec fn first_value(vals: Seq<(u32, IndexedValue)>, field: u32) -> Option<IndexedValue>
    decreases vals.len(),
{
    if vals.len() == 0 {
        None
    } else if vals[0].0 == field {
        Some(vals[0].1)
    } else {
        first_value(vals.drop_first(), field)
    }
}

/// The first value of a field where it is a text.
pub open spec fn first_text(vals: Seq<(u32, IndexedValue)>, field: u32) -> Option<Seq<char>> {
    match first_value(vals, field) {
        Some(IndexedValue::Text(t)) => Some(t),
        _ => None,
    }
}

/// The first value of a field where it is an unsigned integer.
pub open spec fn first_unsigned(vals: Seq<(u32, IndexedValue)>, field: u32) -> Option<u64> {
    match first_value(vals, field) {
        Some(IndexedValue::Unsigned(v)) => Some(v),
        _ => None,
    }
}

/// A value read from a stored document: a text, an unsigned integer, or
/// some other kind of value.
#[derive(Debug, Clone)]
pub enum StoredValue {
    Text(String),
    Unsigned(u64),
    Other,
}

impl View for StoredValue {
    type V = IndexedValue;

    open spec fn view(&self) -> IndexedValue {
        match self {
            StoredValue::Text(t) => IndexedValue::Text(t@),
            StoredValue::Unsigned(n) => IndexedValue::Unsigned(*n),
            StoredValue::Other => IndexedValue::Other,
        }
    }
}

/// `TantivyDocument::get_first`: the first value of the field with id
/// `field`, a text for `OwnedValue::Str`, an integer for `OwnedValue::U64`,
/// and `Other` for any other kind of value.
#[verifier::external_body]
fn get_first(d: &tantivy::TantivyDocument, field: u32) -> (r: Option<StoredValue>)
    ensures
        match r {
            Some(v) => first_value(document_values(*d), field) == Some(v@),
            None => first_value(document_values(*d), field) is None,
        },
{
    match d.get_first(tantivy::schema::Field::from_field_id(field)) {
        Some(tantivy::schema::OwnedValue::Str(t)) => Some(StoredValue::Text(t.clone())),
        Some(tantivy::schema::OwnedValue::U64(n)) => Some(StoredValue::Unsigned(*n)),
        Some(_) => Some(StoredValue::Other),
        None => None,
    }
}

/// The first value of a field where it is a text.
fn get_first_text(d: &tantivy::TantivyDocument, field: u32) -> (r: Option<String>)
    ensures
        opt_view(r) == first_text(document_values(*d), field),
{
    match get_first(d, field) {
        Some(StoredValue::Text(t)) => Some(t),
        _ => None,
    }
}

/// The first value of a field where it is an unsigned integer.
fn get_first_u64(d: &tantivy::TantivyDocument, field: u32) -> (r: Option<u64>)
    ensures
        r == first_unsigned(document_values(*d), field),
{
    match get_first(d, field) {
        Some(StoredValue::Unsigned(n)) => Some(n),
        _ => None,
    }
}

/// The ids of the fields of the lexical index.
#[derive(Debug, Clone, Copy)]
pub struct LexicalFields {
    pub chunk_id: u32,
    pub relative_path: u32,
    pub language: u32,
    pub symbol_name: u32,
    pub symbol_kind: u32,
    pub signature: u32,
    pub content: u32,
    pub line_start: u32,
    pub line_end: u32,
}

/// Whether the fields have pairwise distinct ids.
pub open spec fn distinct_fields(f: LexicalFields) -> bool {
    let ids = seq![f.chunk_id, f.relative_path, f.language, f.symbol_name, f.symbol_kind, f.signature,
        f.content, f.line_start, f.line_end];
    forall|i: int, j: int| 0 <= i < j < 9 ==> ids[i] != ids[j]
}

/// A text value for a field, where there is a text.
pub open spec fn optional_text(field: u32, t: Option<Seq<char>>) -> Seq<(u32, IndexedValue)> {
    match t {
        Some(v) => seq![(field, IndexedValue::Text(v))],
        None => Seq::empty(),
    }
}

/// The values of the document that indexes a chunk: its id, path and
/// language; its symbol name, kind and signature where it has them; its
/// content; and its first and last line.
pub open spec fn chunk_values(f: LexicalFields, c: ChunkSpec) -> Seq<(u32, IndexedValue)> {
    seq![
        (f.chunk_id, IndexedValue::Text(c.id)),
        (f.relative_path, IndexedValue::Text(c.relative_path)),
        (f.language, IndexedValue::Text(c.language.spec_name())),
    ]
        + optional_text(f.symbol_name, c.symbol_name)
        + optional_text(f.symbol_kind, match c.symbol_kind { Some(k) => Some(k.spec_as_str()), None => None })
        + optional_text(f.signature, c.signature)
        + seq![
            (f.content, IndexedValue::Text(c.content)),
            (f.line_start, IndexedValue::Unsigned(c.line_start as u64)),
            (f.line_end, IndexedValue::Unsigned(c.line_end as u64)),
        ]
}

/// The document that indexes a chunk.
pub fn chunk_document(fields: &LexicalFields, chunk: &CodeChunk) -> (d: tantivy::TantivyDocument)
    ensures
        document_values(d) == chunk_values(*fields, chunk@),
{
    let mut d = new_document();
    add_text(&mut d, fields.chunk_id, chunk.id.as_str());
    add_text(&mut d, fields.relative_path, chunk.relative_path.as_str());
    add_text(&mut d, fields.language, chunk.language.name());
    let ghost head = document_values(d);
    match &chunk.symbol_name {
        Some(n) => add_text(&mut d, fields.symbol_name, n.as_str()),
        None => {},
    }
    let ghost with_name = document_values(d);
    assert(with_name =~= head + optional_text(fields.symbol_name, chunk@.symbol_name));
    match &chunk.symbol_kind {
        Some(k) => add_text(&mut d, fields.symbol_kind, k.as_str()),
        None => {},
    }
    let ghost with_kind = document_values(d);
    assert(with_kind =~= with_name + optional_text(fields.symbol_kind,
        match chunk@.symbol_kind { Some(k) => Some(k.spec_as_str()), None => None }));
    match &chunk.signature {
        Some(s) => add_text(&mut d, fields.signature, s.as_str()),
        None => {},
    }
    let ghost with_sig = document_values(d);
    assert(with_sig =~= with_kind + optional_text(fields.signature, chunk@.signature));
    add_text(&mut d, fields.content, chunk.content.as_str());
    add_u64(&mut d, fields.line_start, chunk.line_start as u64);
    add_u64(&mut d, fields.line_end, chunk.line_end as u64);
    assert(document_values(d) =~= chunk_values(*fields, chunk@));
    d
}

/// A chunk found by a lexical search, as its stored document gives it back
/// (without its score).
#[derive(Debug, Clone)]
pub struct LexicalHit {
    pub chunk_id: String,
    pub relative_path: String,
    pub language: String,
    pub symbol_name: Option<String>,
    pub symbol_kind: Option<String>,
    pub signature: Option<String>,
    pub content: String,
    pub line_start: usize,
    pub line_end: usize,
}

/// A text of a stored document, or the empty text where it has none.
pub open spec fn text_or_empty(t: Option<Seq<char>>) -> Seq<char> {
    match t {
        Some(v) => v,
        None => Seq::empty(),
    }
}

/// A line number of a stored document, or 1 where it has none.
pub open spec fn line_or_first(v: Option<u64>) -> usize {
    match v {
        Some(n) => n as usize,
        None => 1,
    }
}

/// What a stored document says of a chunk: its texts (empty where missing,
/// absent for the optional ones) and its lines (1 where missing).
pub open spec fn hit_matches(h: LexicalHit, vals: Seq<(u32, IndexedValue)>, f: LexicalFields) -> bool {
    &&& h.chunk_id@ == text_or_empty(first_text(vals, f.chunk_id))
    &&& h.relative_path@ == text_or_empty(first_text(vals, f.relative_path))
    &&& h.language@ == text_or_empty(first_text(vals, f.language))
    &&& opt_view(h.symbol_name) == first_text(vals, f.symbol_name)
    &&& opt_view(h.symbol_kind) == first_text(vals, f.symbol_kind)
    &&& opt_view(h.signature) == first_text(vals, f.signature)
    &&& h.content@ == text_or_empty(first_text(vals, f.content))
    &&& h.line_start == line_or_first(first_unsigned(vals, f.line_start))
    &&& h.line_end == line_or_first(first_unsigned(vals, f.line_end))
}

fn text_field(d: &tantivy::TantivyDocument, field: u32) -> (t: String)
    ensures
        t@ == text_or_empty(first_text(document_values(*d), field)),
{
    match get_first_text(d, field) {
        Some(t) => t,
        None => String::new(),
    }
}

fn line_field(d: &tantivy::TantivyDocument, field: u32) -> (n: usize)
    ensures
        n == line_or_first(first_unsigned(document_values(*d), field)),
{
    match get_first_u64(d, field) {
        Some(v) => v as usize,
        None => 1,
    }
}

/// The chunk that a stored document describes.
pub fn hit_of_document(fields: &LexicalFields, d: &tantivy::TantivyDocument) -> (h: LexicalHit)
    ensures
        hit_matches(h, document_values(*d), *fields),
{
    LexicalHit {
        chunk_id: text_field(d, fields.chunk_id),
        relative_path: text_field(d, fields.relative_path),
        language: text_field(d, fields.language),
        symbol_name: get_first_text(d, fields.symbol_name),
        symbol_kind: get_first_text(d, fields.symbol_kind),
        signature: get_first_text(d, fields.signature),
        content: text_field(d, fields.content),
        line_start: line_field(d, fields.line_start),
        line_end: line_field(d, fields.line_end),
    }
}


proof fn lemma_first_value_append(a: Seq<(u32, IndexedValue)>, b: Seq<(u32, IndexedValue)>)
    ensures
        forall|id: u32| #[trigger] first_value(a + b, id) == match first_value(a, id) {
            Some(v) => Some(v),
            None => first_value(b, id),
        },
    decreases a.len(),
{
    assert forall|id: u32| #[trigger] first_value(a + b, id) == match first_value(a, id) {
        Some(v) => Some(v),
        None => first_value(b, id),
    } by {
        if a.len() > 0 {
            assert((a + b).drop_first() =~= a.drop_first() + b);
            assert((a + b)[0] == a[0]);
            lemma_first_value_append(a.drop_first(), b);
            assert(first_value(a.drop_first() + b, id) == match first_value(a.drop_first(), id) {
                Some(v) => Some(v),
                None => first_value(b, id),
            });
            if a[0].0 != id {
                assert(first_value(a + b, id) == first_value((a + b).drop_first(), id));
                assert(first_value(a, id) == first_value(a.drop_first(), id));
            }
        } else {
            assert(a + b =~= b);
        }
    }
}

proof fn lemma_first_value_small(x: (u32, IndexedValue))
    ensures
        forall|id: u32| #[trigger] first_value(seq![x], id) == if x.0 == id { Some(x.1) } else { None },
        forall|id: u32| #[trigger] first_value(Seq::<(u32, IndexedValue)>::empty(), id) == None::<IndexedValue>,
{
    assert forall|id: u32| #[trigger] first_value(seq![x], id) == if x.0 == id { Some(x.1) } else { None } by {
        assert(seq![x].drop_first() =~= Seq::<(u32, IndexedValue)>::empty());
        assert(first_value(Seq::<(u32, IndexedValue)>::empty(), id) == None::<IndexedValue>);
        assert(seq![x][0] == x);
    }
}

/// What the lexical index stores of a chunk reads back as that chunk: the
/// hit made from its document has the chunk's id, path, language, symbol,
/// signature, content and lines, provided the fields have distinct ids.
pub proof fn law_stored_chunk_reads_back(f: LexicalFields, c: ChunkSpec, h: LexicalHit)
    requires
        distinct_fields(f),
        0 <= c.line_start <= usize::MAX,
        0 <= c.line_end <= usize::MAX,
        hit_matches(h, chunk_values(f, c), f),
    ensures
        h.chunk_id@ == c.id,
        h.relative_path@ == c.relative_path,
        h.language@ == c.language.spec_name(),
        opt_view(h.symbol_name) == c.symbol_name,
        opt_view(h.symbol_kind) == match c.symbol_kind { Some(k) => Some(k.spec_as_str()), None => None },
        opt_view(h.signature) == c.signature,
        h.content@ == c.content,
        h.line_start == c.line_start,
        h.line_end == c.line_end,
{
    let ids = seq![f.chunk_id, f.relative_path, f.language, f.symbol_name, f.symbol_kind, f.signature,
        f.content, f.line_start, f.line_end];
    assert(ids[0] == f.chunk_id && ids[1] == f.relative_path && ids[2] == f.language && ids[3] == f.symbol_name
        && ids[4] == f.symbol_kind && ids[5] == f.signature && ids[6] == f.content && ids[7] == f.line_start
        && ids[8] == f.line_end);
    let k = match c.symbol_kind { Some(k) => Some(k.spec_as_str()), None => None };
    let e0 = seq![(f.chunk_id, IndexedValue::Text(c.id))];
    let e1 = seq![(f.relative_path, IndexedValue::Text(c.relative_path))];
    let e2 = seq![(f.language, IndexedValue::Text(c.language.spec_name()))];
    let o3 = optional_text(f.symbol_name, c.symbol_name);
    let o4 = optional_text(f.symbol_kind, k);
    let o5 = optional_text(f.signature, c.signature);
    let e6 = seq![(f.content, IndexedValue::Text(c.content))];
    let e7 = seq![(f.line_start, IndexedValue::Unsigned(c.line_start as u64))];
    let e8 = seq![(f.line_end, IndexedValue::Unsigned(c.line_end as u64))];
    let v = chunk_values(f, c);
    assert(v =~= e0 + e1 + e2 + o3 + o4 + o5 + e6 + e7 + e8);
    lemma_first_value_small((f.chunk_id, IndexedValue::Text(c.id)));
    lemma_first_value_small((f.relative_path, IndexedValue::Text(c.relative_path)));
    lemma_first_value_small((f.language, IndexedValue::Text(c.language.spec_name())));
    lemma_first_value_small((f.content, IndexedValue::Text(c.content)));
    lemma_first_value_small((f.line_start, IndexedValue::Unsigned(c.line_start as u64)));
    lemma_first_value_small((f.line_end, IndexedValue::Unsigned(c.line_end as u64)));
    match c.symbol_name {
        Some(t) => { lemma_first_value_small((f.symbol_name, IndexedValue::Text(t))); },
        None => {},
    }
    match k {
        Some(t) => { lemma_first_value_small((f.symbol_kind, IndexedValue::Text(t))); },
        None => {},
    }
    match c.signature {
        Some(t) => { lemma_first_value_small((f.signature, IndexedValue::Text(t))); },
        None => {},
    }
    lemma_first_value_append(e0, e1);
    lemma_first_value_append(e0 + e1, e2);
    lemma_first_value_append(e0 + e1 + e2, o3);
    lemma_first_value_append(e0 + e1 + e2 + o3, o4);
    lemma_first_value_append(e0 + e1 + e2 + o3 + o4, o5);
    lemma_first_value_append(e0 + e1 + e2 + o3 + o4 + o5, e6);
    lemma_first_value_append(e0 + e1 + e2 + o3 + o4 + o5 + e6, e7);
    lemma_first_value_append(e0 + e1 + e2 + o3 + o4 + o5 + e6 + e7, e8);
    assert((c.line_start as u64) as usize == c.line_start);
    assert((c.line_end as u64) as usize == c.line_end);
}


proof fn lemma_single_word(q: Seq<char>)
    requires
        forall|i: int| 0 <= i < q.len() ==> !is_white_space(#[trigger] q[i]),
    ensures
        words_and_rest(q) == (Seq::<Seq<char>>::empty(), q),
    decreases q.len(),
{
    if q.len() > 0 {
        let t = q.drop_last();
        assert forall|i: int| 0 <= i < t.len() implies !is_white_space(#[trigger] t[i]) by {
            assert(t[i] == q[i]);
        }
        lemma_single_word(t);
        assert(q.last() == q[q.len() - 1]);
        assert(t.push(q.last()) =~= q);
    }
}

proof fn lemma_clean_word_keeps_all(w: Seq<char>)
    requires
        forall|i: int| 0 <= i < w.len() ==> is_alphanumeric(#[trigger] w[i]) || w[i] == '_' || w[i] == ':',
    ensures
        clean_word(w) == w,
    decreases w.len(),
{
    if w.len() > 0 {
        let t = w.drop_last();
        assert forall|i: int| 0 <= i < t.len() implies is_alphanumeric(#[trigger] t[i]) || t[i] == '_' || t[i] == ':' by {
            assert(t[i] == w[i]);
        }
        lemma_clean_word_keeps_all(t);
        assert(w.last() == w[w.len() - 1]);
        assert(t.push(w.last()) =~= w);
    }
}

/// A query that is one word of letters, digits, `_` and `:` is searched as
/// it is: sanitizing gives it back unchanged.
pub proof fn law_plain_query_sanitizes_to_itself(q: Seq<char>)
    requires
        q.len() > 0,
        forall|i: int| 0 <= i < q.len() ==> (is_alphanumeric(#[trigger] q[i]) || q[i] == '_' || q[i] == ':')
            && !is_white_space(q[i]),
    ensures
        sanitized(q) == q,
{
    lemma_single_word(q);
    assert(words_of(q) == seq![q]);
    lemma_clean_word_keeps_all(q);
    let ws = seq![q];
    assert(ws.drop_last() =~= Seq::<Seq<char>>::empty());
    assert(ws.last() == q);
    assert(clean_words(ws.drop_last()) == Seq::<Seq<char>>::empty());
    assert(clean_words(ws) =~= seq![q]);
}

proof fn lemma_clean_word_chars(w: Seq<char>)
    ensures
        forall|i: int| 0 <= i < clean_word(w).len() ==>
            is_alphanumeric(#[trigger] clean_word(w)[i]) || clean_word(w)[i] == '_' || clean_word(w)[i] == ':',
    decreases w.len(),
{
    if w.len() > 0 {
        lemma_clean_word_chars(w.drop_last());
        let r = clean_word(w.drop_last());
        assert forall|i: int| 0 <= i < clean_word(w).len() implies
            is_alphanumeric(#[trigger] clean_word(w)[i]) || clean_word(w)[i] == '_' || clean_word(w)[i] == ':' by {
            if i < r.len() {
                assert(clean_word(w)[i] == r[i]);
            }
        }
    }
}

proof fn lemma_clean_words_chars(ws: Seq<Seq<char>>)
    ensures
        forall|k: int, i: int| 0 <= k < clean_words(ws).len() && 0 <= i < clean_words(ws)[k].len() ==>
            is_alphanumeric(#[trigger] clean_words(ws)[k][i]) || clean_words(ws)[k][i] == '_' || clean_words(ws)[k][i] == ':',
    decreases ws.len(),
{
    if ws.len() > 0 {
        lemma_clean_words_chars(ws.drop_last());
        lemma_clean_word_chars(ws.last());
        let r = clean_words(ws.drop_last());
        let c = clean_word(ws.last());
        assert forall|k: int, i: int| 0 <= k < clean_words(ws).len() && 0 <= i < clean_words(ws)[k].len() implies
            is_alphanumeric(#[trigger] clean_words(ws)[k][i]) || clean_words(ws)[k][i] == '_' || clean_words(ws)[k][i] == ':' by {
            if k < r.len() {
                assert(clean_words(ws)[k] == r[k]);
            } else {
                assert(clean_words(ws)[k] == c);
                assert(c[i] == clean_word(ws.last())[i]);
            }
        }
    }
}

proof fn lemma_join_words_chars(ws: Seq<Seq<char>>, ok: spec_fn(char) -> bool)
    requires
        forall|k: int, i: int| 0 <= k < ws.len() && 0 <= i < ws[k].len() ==> ok(#[trigger] ws[k][i]),
    ensures
        forall|i: int| 0 <= i < join_words(ws).len() ==> ok(#[trigger] join_words(ws)[i]) || join_words(ws)[i] == ' ',
    decreases ws.len(),
{
    if ws.len() > 1 {
        let t = ws.drop_last();
        assert forall|k: int, i: int| 0 <= k < t.len() && 0 <= i < t[k].len() implies ok(#[trigger] t[k][i]) by {
            assert(t[k] == ws[k]);
        }
        lemma_join_words_chars(t, ok);
        let a = join_words(t);
        let l = ws.last();
        assert(join_words(ws) == a + seq![' '] + l);
        assert forall|i: int| 0 <= i < join_words(ws).len() implies ok(#[trigger] join_words(ws)[i]) || join_words(ws)[i] == ' ' by {
            if i < a.len() {
                assert(join_words(ws)[i] == a[i]);
            } else if i > a.len() {
                assert(join_words(ws)[i] == l[i - a.len() - 1]);
                assert(l == ws[ws.len() - 1]);
                assert(ok(ws[ws.len() - 1][i - a.len() - 1]));
            }
        }
    } else if ws.len() == 1 {
        assert forall|i: int| 0 <= i < join_words(ws).len() implies ok(#[trigger] join_words(ws)[i]) || join_words(ws)[i] == ' ' by {
            assert(ok(ws[0][i]));
        }
    }
}

/// A sanitized query holds only letters, digits, `_`, `:` and the single
/// spaces between its words: everything else is dropped.
pub proof fn law_sanitized_query_chars(q: Seq<char>)
    ensures
        forall|i: int| 0 <= i < sanitized(q).len() ==> {
            let c = #[trigger] sanitized(q)[i];
            c == '_' || c == ':' || c == ' ' || is_alphanumeric(c)
        },
{
    let ws = clean_words(words_of(q));
    lemma_clean_words_chars(words_of(q));
    let ok = |c: char| c == '_' || c == ':' || is_alphanumeric(c);
    assert forall|k: int, i: int| 0 <= k < ws.len() && 0 <= i < ws[k].len() implies ok(#[trigger] ws[k][i]) by {}
    lemma_join_words_chars(ws, ok);
}

proof fn lemma_single_run(q: Seq<char>)
    requires
        forall|i: int| 0 <= i < q.len() ==> is_alphanumeric(#[trigger] q[i]) || q[i] == '_',
    ensures
        runs_and_rest(q) == (Seq::<Seq<char>>::empty(), q),
    decreases q.len(),
{
    if q.len() > 0 {
        let t = q.drop_last();
        assert forall|i: int| 0 <= i < t.len() implies is_alphanumeric(#[trigger] t[i]) || t[i] == '_' by {
            assert(t[i] == q[i]);
        }
        lemma_single_run(t);
        assert(q.last() == q[q.len() - 1]);
        assert(t.push(q.last()) =~= q);
    }
}

/// A query that is one run of letters, digits and `_` is its own fallback
/// query.
pub proof fn law_plain_query_is_its_fallback(q: Seq<char>)
    requires
        q.len() > 0,
        forall|i: int| 0 <= i < q.len() ==> is_alphanumeric(#[trigger] q[i]) || q[i] == '_',
    ensures
        word_runs(q) == seq![q],
        join_words(word_runs(q)) == q,
{
    lemma_single_run(q);
    assert(word_runs(q) =~= seq![q]);
}
} // verus!
