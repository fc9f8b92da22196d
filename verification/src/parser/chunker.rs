use vstd::prelude::*;

use super::ast::{clone_opt, opt_view, symbol_views, AstParser, SymbolInfo, SymbolKind, SymbolSpec};
use super::languages::{language_of_path, Language};
use crate::text::{
    byte_len, join_line_range, join_lines, lemma_byte_len_empty, lemma_lines_nonempty, lines_of, push_char, push_decimal, push_str, split_lines,
    token_estimate, utf8_len, views, decimal,
};

verus! {

/// A piece of a source file that is indexed and retrieved as a unit.
#[derive(Debug, Clone)]
pub struct CodeChunk {
    pub id: String,
    pub file_path: String,
    pub relative_path: String,
    pub language: Language,
    pub symbol_name: Option<String>,
    pub symbol_kind: Option<SymbolKind>,
    pub signature: Option<String>,
    pub content: String,
    pub line_start: usize,
    pub line_end: usize,
    pub token_count_estimate: usize,
}

/// The plain value of a `CodeChunk`.
pub struct ChunkSpec {
    pub id: Seq<char>,
    pub file_path: Seq<char>,
    pub relative_path: Seq<char>,
    pub language: Language,
    pub symbol_name: Option<Seq<char>>,
    pub symbol_kind: Option<SymbolKind>,
    pub signature: Option<Seq<char>>,
    pub content: Seq<char>,
    pub line_start: int,
    pub line_end: int,
    pub token_count_estimate: int,
}

impl View for CodeChunk {
    type V = ChunkSpec;

    open spec fn view(&self) -> ChunkSpec {
        ChunkSpec {
            id: self.id@,
            file_path: self.file_path@,
            relative_path: self.relative_path@,
            language: self.language,
            symbol_name: opt_view(self.symbol_name),
            symbol_kind: self.symbol_kind,
            signature: opt_view(self.signature),
            content: self.content@,
            line_start: self.line_start as int,
            line_end: self.line_end as int,
            token_count_estimate: self.token_count_estimate as int,
        }
    }
}

/// The views of a sequence of chunks.
pub open spec fn chunk_views(v: Seq<CodeChunk>) -> Seq<ChunkSpec> {
    v.map_values(|c: CodeChunk| c@)
}

/// The identifier of a chunk: `"{relative_path}:{line_start}-{line_end}"`.
pub open spec fn chunk_id(relative_path: Seq<char>, line_start: nat, line_end: nat) -> Seq<char> {
    relative_path + seq![':'] + decimal(line_start) + seq!['-'] + decimal(line_end)
}

/// The chunk of lines `[from, to)` (0-based), labelled with the 1-based line
/// numbers `line_start` and `line_end` and, where given, with a symbol.
pub open spec fn chunk_of(
    file_path: Seq<char>,
    relative_path: Seq<char>,
    lang: Language,
    lines: Seq<Seq<char>>,
    from: int,
    to: int,
    line_start: nat,
    line_end: nat,
    sym: Option<SymbolSpec>,
) -> ChunkSpec {
    let content = join_lines(lines.subrange(from, to));
    ChunkSpec {
        id: chunk_id(relative_path, line_start, line_end),
        file_path,
        relative_path,
        language: lang,
        symbol_name: match sym { Some(s) => Some(s.name), None => None },
        symbol_kind: match sym { Some(s) => Some(s.kind), None => None },
        signature: match sym { Some(s) => Some(s.signature), None => None },
        content,
        line_start: line_start as int,
        line_end: line_end as int,
        token_count_estimate: token_estimate(content) as int,
    }
}

/// The windows `[s, e)` that cover lines `[start, end)`: each `width` lines
/// long but the last, each starting `step` lines after the one before.
pub open spec fn windows_from(start: int, end: int, width: int, step: int) -> Seq<(int, int)>
    decreases end - start,
{
    if start >= end {
        Seq::empty()
    } else {
        let e = if start + width < end { start + width } else { end };
        if e >= end || step <= 0 || start + step >= end {
            seq![(start, e)]
        } else {
            seq![(start, e)] + windows_from(start + step, end, width, step)
        }
    }
}

/// The chunks of the given windows, each labelled with its own line numbers.
pub open spec fn window_chunks(
    file_path: Seq<char>,
    relative_path: Seq<char>,
    lang: Language,
    lines: Seq<Seq<char>>,
    wins: Seq<(int, int)>,
    sym: Option<SymbolSpec>,
) -> Seq<ChunkSpec> {
    wins.map_values(|w: (int, int)| chunk_of(file_path, relative_path, lang, lines, w.0, w.1, w.0 as nat + 1, w.1 as nat, sym))
}

/// The chunks of a whole file cut into overlapping windows of lines.
pub open spec fn sliding_window_chunks(
    file_path: Seq<char>,
    relative_path: Seq<char>,
    lang: Language,
    lines: Seq<Seq<char>>,
    target: int,
    overlap: int,
) -> Seq<ChunkSpec> {
    window_chunks(file_path, relative_path, lang, lines, windows_from(0, lines.len() as int, target, target - overlap), None)
}

/// The chunks of one symbol: none for an import or an empty line range; the
/// whole symbol where it spans at most twice the target; else overlapping
/// windows over it.
pub open spec fn symbol_chunks(
    file_path: Seq<char>,
    relative_path: Seq<char>,
    lang: Language,
    lines: Seq<Seq<char>>,
    sym: SymbolSpec,
    target: int,
    overlap: int,
) -> Seq<ChunkSpec> {
    let start = if sym.line_start >= 1 { sym.line_start - 1 } else { 0 };
    let end = if sym.line_end < lines.len() { sym.line_end } else { lines.len() as int };
    if sym.kind == SymbolKind::Import || start >= end {
        Seq::empty()
    } else if end - start <= 2 * target {
        seq![chunk_of(file_path, relative_path, lang, lines, start, end, sym.line_start as nat, sym.line_end as nat, Some(sym))]
    } else {
        window_chunks(file_path, relative_path, lang, lines, windows_from(start, end, target, target - overlap), Some(sym))
    }
}

/// The chunks of the symbols, in order.
pub open spec fn symbols_chunks(
    file_path: Seq<char>,
    relative_path: Seq<char>,
    lang: Language,
    lines: Seq<Seq<char>>,
    syms: Seq<SymbolSpec>,
    target: int,
    overlap: int,
) -> Seq<ChunkSpec>
    decreases syms.len(),
{
    if syms.len() == 0 {
        Seq::empty()
    } else {
        symbols_chunks(file_path, relative_path, lang, lines, syms.drop_last(), target, overlap)
            + symbol_chunks(file_path, relative_path, lang, lines, syms.last(), target, overlap)
    }
}

/// The chunks of a file given its symbols: one per symbol (or per window of a
/// long symbol), or the sliding windows where that yields none.
pub open spec fn ast_chunks(
    file_path: Seq<char>,
    relative_path: Seq<char>,
    lang: Language,
    lines: Seq<Seq<char>>,
    syms: Seq<SymbolSpec>,
    target: int,
    overlap: int,
) -> Seq<ChunkSpec> {
    let c = symbols_chunks(file_path, relative_path, lang, lines, syms, target, overlap);
    if c.len() == 0 {
        sliding_window_chunks(file_path, relative_path, lang, lines, target, overlap)
    } else {
        c
    }
}

/// Cuts source files into chunks along symbol definitions or line windows.
pub struct Chunker {
    target_lines: usize,
    overlap_lines: usize,
}

impl Chunker {
    #[verifier::type_invariant]
    spec fn wf(self) -> bool {
        &&& 10 <= self.target_lines
        &&& 2 * self.overlap_lines <= self.target_lines
    }

    /// The number of lines a chunk aims at.
    pub closed spec fn target(self) -> int {
        self.target_lines as int
    }

    /// The number of lines that consecutive windows share.
    pub closed spec fn overlap(self) -> int {
        self.overlap_lines as int
    }

    /// A chunker aiming at `target_lines` lines (at least 10) per chunk, with
    /// consecutive windows sharing `overlap_lines` lines (at most half of the
    /// requested target).
    pub fn new(target_lines: usize, overlap_lines: usize) -> (c: Chunker)
        ensures
            c.target() == if target_lines < 10 { 10 } else { target_lines as int },
            c.overlap() == if overlap_lines < target_lines / 2 { overlap_lines as int } else { (target_lines / 2) as int },
    {
        let t = if target_lines < 10 { 10 } else { target_lines };
        let o = if overlap_lines < target_lines / 2 { overlap_lines } else { target_lines / 2 };
        Chunker { target_lines: t, overlap_lines: o }
    }

    /// The rough token count of a text: one token per started four bytes.
    pub fn estimate_tokens(text: &str) -> (n: usize)
        ensures
            n == token_estimate(text@),
    {
        let len = utf8_len(text);
        let extra: usize = if len % 4 == 0 { 0 } else { 1 };
        len / 4 + extra
    }
}


/// The view of an optional symbol.
pub open spec fn opt_symbol_view(sym: Option<&SymbolInfo>) -> Option<SymbolSpec> {
    match sym {
        Some(s) => Some(s@),
        None => None,
    }
}

/// Builds the chunk of lines `[from, to)`.
fn make_chunk(
    file_path: &str,
    relative_path: &str,
    lang: Language,
    lines: &Vec<String>,
    from: usize,
    to: usize,
    line_start: usize,
    line_end: usize,
    sym: Option<&SymbolInfo>,
) -> (c: CodeChunk)
    requires
        from <= to <= lines@.len(),
    ensures
        c@ == chunk_of(file_path@, relative_path@, lang, views(lines@), from as int, to as int,
            line_start as nat, line_end as nat, opt_symbol_view(sym)),
{
    let content = join_line_range(lines, from, to);
    let mut id = String::new();
    push_str(&mut id, relative_path);
    push_char(&mut id, ':');
    push_decimal(&mut id, line_start);
    push_char(&mut id, '-');
    push_decimal(&mut id, line_end);
    let ghost rel = relative_path@;
    assert(id@ =~= chunk_id(rel, line_start as nat, line_end as nat));
    let token_count = Chunker::estimate_tokens(content.as_str());
    let (symbol_name, symbol_kind, signature) = match sym {
        Some(s) => (Some(s.name.clone()), Some(s.kind), Some(s.signature.clone())),
        None => (None, None, None),
    };
    let mut fp = String::new();
    push_str(&mut fp, file_path);
    let mut rp = String::new();
    push_str(&mut rp, relative_path);
    assert(fp@ =~= file_path@);
    assert(rp@ =~= relative_path@);
    CodeChunk {
        id,
        file_path: fp,
        relative_path: rp,
        language: lang,
        symbol_name,
        symbol_kind,
        signature,
        content,
        line_start,
        line_end,
        token_count_estimate: token_count,
    }
}

proof fn lemma_window_chunks_cons(
    file_path: Seq<char>,
    relative_path: Seq<char>,
    lang: Language,
    lines: Seq<Seq<char>>,
    w: (int, int),
    rest: Seq<(int, int)>,
    sym: Option<SymbolSpec>,
)
    ensures
        window_chunks(file_path, relative_path, lang, lines, seq![w] + rest, sym)
            == seq![chunk_of(file_path, relative_path, lang, lines, w.0, w.1, w.0 as nat + 1, w.1 as nat, sym)]
                + window_chunks(file_path, relative_path, lang, lines, rest, sym),
{
    assert(window_chunks(file_path, relative_path, lang, lines, seq![w] + rest, sym)
        =~= seq![chunk_of(file_path, relative_path, lang, lines, w.0, w.1, w.0 as nat + 1, w.1 as nat, sym)]
                + window_chunks(file_path, relative_path, lang, lines, rest, sym));
}

/// Appends the chunks of the windows over lines `[start, end)`.
fn push_window_chunks(
    out: &mut Vec<CodeChunk>,
    file_path: &str,
    relative_path: &str,
    lang: Language,
    lines: &Vec<String>,
    start: usize,
    end: usize,
    width: usize,
    step: usize,
    sym: Option<&SymbolInfo>,
)
    requires
        start <= end <= lines@.len(),
        0 < step <= width,
    ensures
        chunk_views(final(out)@) == chunk_views(old(out)@) + window_chunks(file_path@, relative_path@, lang,
            views(lines@), windows_from(start as int, end as int, width as int, step as int), opt_symbol_view(sym)),
{
    let ghost fp = file_path@;
    let ghost rp = relative_path@;
    let ghost ls = views(lines@);
    let ghost sv = opt_symbol_view(sym);
    let ghost target = chunk_views(old(out)@) + window_chunks(fp, rp, lang, ls, windows_from(start as int, end as int, width as int, step as int), sv);
    let mut cur = start;
    while cur < end
        invariant_except_break
            chunk_views(out@) + window_chunks(fp, rp, lang, ls, windows_from(cur as int, end as int, width as int, step as int), sv) == target,
        invariant
            start <= cur,
            end <= lines@.len(),
            0 < step <= width,
            ls == views(lines@),
            sv == opt_symbol_view(sym),
            fp == file_path@,
            rp == relative_path@,
        ensures
            chunk_views(out@) == target,
        decreases end - cur,
    {
        let e = if end - cur > width { cur + width } else { end };
        let c = make_chunk(file_path, relative_path, lang, lines, cur, e, cur + 1, e, sym);
        let ghost before = chunk_views(out@);
        let ghost w = (cur as int, e as int);
        let ghost rest = windows_from(cur as int, end as int, width as int, step as int).drop_first();
        proof {
            assert(windows_from(cur as int, end as int, width as int, step as int) =~= seq![w] + rest);
            lemma_window_chunks_cons(fp, rp, lang, ls, w, rest, sv);
        }
        out.push(c);
        proof {
            assert(chunk_views(out@) =~= before.push(c@));
        }
        if e >= end || end - cur <= step {
            proof {
                assert(rest =~= Seq::<(int, int)>::empty());
                assert(chunk_views(out@) =~= target);
            }
            break;
        }
        proof {
            assert(rest == windows_from(cur + step, end as int, width as int, step as int));
            assert(chunk_views(out@) + window_chunks(fp, rp, lang, ls, rest, sv) =~= target);
        }
        cur = cur + step;
        proof {
            if cur >= end {
                assert(windows_from(cur as int, end as int, width as int, step as int) =~= Seq::<(int, int)>::empty());
                assert(window_chunks(fp, rp, lang, ls, Seq::<(int, int)>::empty(), sv) =~= Seq::<ChunkSpec>::empty());
                assert(chunk_views(out@) =~= target);
            }
        }
    }
}


/// The chunks and symbols of a file, given the symbols its syntax tree yields:
/// nothing for a file without lines; the symbol chunks and the symbols where
/// the language is parsed and symbols were found; else the sliding windows.
pub open spec fn file_chunks(
    file_path: Seq<char>,
    relative_path: Seq<char>,
    content: Seq<char>,
    syms: Seq<SymbolSpec>,
    target: int,
    overlap: int,
) -> (Seq<ChunkSpec>, Seq<SymbolSpec>) {
    let lang = language_of_path(file_path);
    let lines = lines_of(content);
    if lines.len() == 0 {
        (Seq::empty(), Seq::empty())
    } else if lang.spec_is_ast_supported() && syms.len() > 0 {
        (ast_chunks(file_path, relative_path, lang, lines, syms, target, overlap), syms)
    } else {
        (sliding_window_chunks(file_path, relative_path, lang, lines, target, overlap), Seq::empty())
    }
}

/// The symbols that chunking a file finds: those of its language's parse
/// (see `parsed_symbols`), or none for an empty text.
pub open spec fn file_symbols(file_path: Seq<char>, content: Seq<char>) -> Seq<SymbolSpec> {
    if content.len() == 0 {
        Seq::empty()
    } else {
        super::ast::parsed_symbols(content, language_of_path(file_path))
    }
}

impl Chunker {
    /// The lines of a file cut into windows of `target` lines, each starting
    /// `target - overlap` lines after the one before (see `windows_from`).
    pub fn chunk_sliding_window(
        &self,
        file_path: &str,
        relative_path: &str,
        lang: Language,
        lines: &Vec<String>,
    ) -> (chunks: Vec<CodeChunk>)
        ensures
            chunk_views(chunks@) == sliding_window_chunks(file_path@, relative_path@, lang, views(lines@), self.target(), self.overlap()),
    {
        proof {
            use_type_invariant(self);
        }
        let mut chunks: Vec<CodeChunk> = Vec::new();
        push_window_chunks(&mut chunks, file_path, relative_path, lang, lines, 0, lines.len(),
            self.target_lines, self.target_lines - self.overlap_lines, None);
        proof {
            assert(chunk_views(chunks@) =~= sliding_window_chunks(file_path@, relative_path@, lang, views(lines@), self.target(), self.overlap()));
        }
        chunks
    }

    /// The chunks of a file along its symbols: one per symbol, windows within
    /// a symbol longer than twice the target, or the sliding windows of the
    /// whole file where the symbols yield none (see `ast_chunks`).
    pub fn chunk_from_ast(
        &self,
        file_path: &str,
        relative_path: &str,
        lang: Language,
        lines: &Vec<String>,
        symbols: &Vec<SymbolInfo>,
    ) -> (chunks: Vec<CodeChunk>)
        ensures
            chunk_views(chunks@) == ast_chunks(file_path@, relative_path@, lang, views(lines@),
                symbol_views(symbols@), self.target(), self.overlap()),
    {
        proof {
            use_type_invariant(self);
        }
        let ghost fp = file_path@;
        let ghost rp = relative_path@;
        let ghost ls = views(lines@);
        let ghost syms = symbol_views(symbols@);
        let target = self.target_lines;
        let step = self.target_lines - self.overlap_lines;
        let total = lines.len();
        let mut chunks: Vec<CodeChunk> = Vec::new();
        let mut i: usize = 0;
        proof {
            assert(syms.subrange(0, 0) =~= Seq::<SymbolSpec>::empty());
            assert(chunk_views(chunks@) =~= Seq::<ChunkSpec>::empty());
        }
        while i < symbols.len()
            invariant
                i <= symbols@.len(),
                fp == file_path@,
                rp == relative_path@,
                ls == views(lines@),
                syms == symbol_views(symbols@),
                total == lines@.len(),
                target == self.target(),
                step == self.target() - self.overlap(),
                0 < step <= target,
                chunk_views(chunks@) == symbols_chunks(fp, rp, lang, ls, syms.subrange(0, i as int), self.target(), self.overlap()),
            decreases symbols@.len() - i,
        {
            let sym = &symbols[i];
            let ghost before = chunk_views(chunks@);
            proof {
                assert(syms.subrange(0, i + 1).drop_last() =~= syms.subrange(0, i as int));
                assert(syms.subrange(0, i + 1).last() == sym@);
            }
            if sym.kind != SymbolKind::Import {
                let start = if sym.line_start >= 1 { sym.line_start - 1 } else { 0 };
                let end = if sym.line_end < total { sym.line_end } else { total };
                if start < end {
                    let line_count = end - start;
                    if line_count <= target || line_count - target <= target {
                        let c = make_chunk(file_path, relative_path, lang, lines, start, end,
                            sym.line_start, sym.line_end, Some(sym));
                        chunks.push(c);
                        proof {
                            assert(chunk_views(chunks@) =~= before.push(c@));
                            assert(symbol_chunks(fp, rp, lang, ls, sym@, self.target(), self.overlap()) =~= seq![c@]);
                        }
                    } else {
                        push_window_chunks(&mut chunks, file_path, relative_path, lang, lines, start, end,
                            target, step, Some(sym));
                    }
                } else {
                    proof {
                        assert(symbol_chunks(fp, rp, lang, ls, sym@, self.target(), self.overlap()) =~= Seq::<ChunkSpec>::empty());
                        assert(chunk_views(chunks@) =~= before + Seq::<ChunkSpec>::empty());
                    }
                }
            } else {
                proof {
                    assert(chunk_views(chunks@) =~= before + Seq::<ChunkSpec>::empty());
                }
            }
            i = i + 1;
        }
        proof {
            assert(syms.subrange(0, symbols@.len() as int) =~= syms);
        }
        if chunks.len() == 0 {
            return self.chunk_sliding_window(file_path, relative_path, lang, lines);
        }
        chunks
    }

    /// Chunks a file whose symbols are given (as `AstParser::parse_symbols`
    /// found them): see `file_chunks`.
    pub fn chunk_with_symbols(
        &self,
        file_path: &str,
        relative_path: &str,
        content: &str,
        symbols: Vec<SymbolInfo>,
    ) -> (r: (Vec<CodeChunk>, Vec<SymbolInfo>))
        ensures
            (chunk_views(r.0@), symbol_views(r.1@)) == file_chunks(file_path@, relative_path@, content@,
                symbol_views(symbols@), self.target(), self.overlap()),
    {
        let lang = Language::from_path(file_path);
        let lines = split_lines(content);
        if lines.len() == 0 {
            let none: Vec<CodeChunk> = Vec::new();
            let no_symbols: Vec<SymbolInfo> = Vec::new();
            proof {
                assert(chunk_views(none@) =~= Seq::<ChunkSpec>::empty());
                assert(symbol_views(no_symbols@) =~= Seq::<SymbolSpec>::empty());
            }
            return (none, no_symbols);
        }
        if lang.is_ast_supported() && symbols.len() > 0 {
            let chunks = self.chunk_from_ast(file_path, relative_path, lang, &lines, &symbols);
            return (chunks, symbols);
        }
        let chunks = self.chunk_sliding_window(file_path, relative_path, lang, &lines);
        let no_symbols: Vec<SymbolInfo> = Vec::new();
        proof {
            assert(symbol_views(no_symbols@) =~= Seq::<SymbolSpec>::empty());
        }
        (chunks, no_symbols)
    }

    /// Chunks a source file: along the symbols that its syntax tree yields
    /// where its language is parsed and symbols are found, else in
    /// overlapping windows of lines. Returns the chunks and those symbols.
    pub fn chunk_file(&self, file_path: &str, relative_path: &str, content: &str) -> (r: (Vec<CodeChunk>, Vec<SymbolInfo>))
        ensures
            (chunk_views(r.0@), symbol_views(r.1@)) == file_chunks(file_path@, relative_path@, content@,
                symbol_views(r.1@), self.target(), self.overlap()),
            symbol_views(r.1@) == file_symbols(file_path@, content@),
            super::ast::starts_ascending(symbol_views(r.1@)),
            forall|i: int| 0 <= i < r.1@.len() ==> super::ast::well_placed(#[trigger] r.1@[i]@, byte_len(content@) as int),
    {
        let lang = Language::from_path(file_path);
        let has_lines = utf8_len(content) > 0;
        let symbols = if has_lines && lang.is_ast_supported() {
            AstParser::parse_symbols(content, lang)
        } else {
            Vec::new()
        };
        proof {
            lemma_byte_len_empty(content@);
            lemma_lines_nonempty(content@);
            if !(has_lines && lang.is_ast_supported()) {
                assert(symbol_views(symbols@) =~= Seq::<SymbolSpec>::empty());
            }
        }
        let ghost syms = symbol_views(symbols@);
        let r = self.chunk_with_symbols(file_path, relative_path, content, symbols);
        proof {
            if symbol_views(r.1@).len() > 0 {
                assert(r.1@.len() > 0);
            }
            if content@.len() > 0 && lang.is_ast_supported() {
                assert(syms == super::ast::parsed_symbols(content@, lang));
            }
            assert forall|i: int| 0 <= i < r.1@.len() implies super::ast::well_placed(#[trigger] r.1@[i]@, byte_len(content@) as int) by {
                assert(symbol_views(r.1@)[i] == r.1@[i]@);
                assert(syms[i] == symbols@[i]@);
            }
        }
        r
    }
}


/// Whether some window holds line `l`.
pub open spec fn covers_line(w: Seq<(int, int)>, l: int) -> bool {
    exists|i: int| 0 <= i < w.len() && (#[trigger] w[i]).0 <= l < w[i].1
}

/// The sliding windows cover the lines: each window is a non-empty range of
/// at most `width` lines within `[start, end)`, each starts `step` lines after
/// the one before, and every line lies in some window.
pub proof fn law_windows_cover(start: int, end: int, width: int, step: int)
    requires
        1 <= step <= width,
    ensures
        ({
            let w = windows_from(start, end, width, step);
            &&& forall|i: int| 0 <= i < w.len() ==> start <= (#[trigger] w[i]).0 < w[i].1 <= end && w[i].1 - w[i].0 <= width
            &&& forall|i: int| 0 <= i < w.len() - 1 ==> (#[trigger] w[i + 1]).0 == w[i].0 + step
            &&& forall|l: int| start <= l < end ==> #[trigger] covers_line(w, l)
        }),
    decreases end - start,
{
    if start < end {
        let e = if start + width < end { start + width } else { end };
        let w = windows_from(start, end, width, step);
        if e >= end || start + step >= end {
            assert(w == seq![(start, e)]);
            assert forall|l: int| start <= l < end implies #[trigger] covers_line(w, l) by {
                assert(w[0].0 <= l < w[0].1);
            }
        } else {
            law_windows_cover(start + step, end, width, step);
            let r = windows_from(start + step, end, width, step);
            assert(w == seq![(start, e)] + r);
            assert forall|i: int| 0 <= i < w.len() implies start <= (#[trigger] w[i]).0 < w[i].1 <= end && w[i].1 - w[i].0 <= width by {
                if i > 0 {
                    assert(w[i] == r[i - 1]);
                }
            }
            assert forall|i: int| 0 <= i < w.len() - 1 implies (#[trigger] w[i + 1]).0 == w[i].0 + step by {
                assert(w[i + 1] == r[i]);
                if i > 0 {
                    assert(w[i] == r[i - 1]);
                    let i1 = i - 1;
                    assert(r[i1 + 1].0 == r[i1].0 + step);
                } else {
                    assert(r.len() > 0);
                    assert(r[0].0 == start + step);
                }
            }
            assert forall|l: int| start <= l < end implies #[trigger] covers_line(w, l) by {
                if l < start + step {
                    assert(w[0].0 <= l < w[0].1);
                } else {
                    assert(covers_line(r, l));
                    let k = choose|k: int| 0 <= k < r.len() && (#[trigger] r[k]).0 <= l < r[k].1;
                    assert(w[k + 1] == r[k]);
                }
            }
        }
    }
}


/// Whether some chunk spans line `l` (1-based).
pub open spec fn chunk_covers_line(cs: Seq<ChunkSpec>, l: int) -> bool {
    exists|i: int| 0 <= i < cs.len() && (#[trigger] cs[i]).line_start <= l <= cs[i].line_end
}

/// A file cut into sliding windows is covered: with a target of at least
/// two lines and an overlap of at most half of it (as every chunker has),
/// each of its lines `1..=n` lies within the lines of some chunk, and every
/// chunk spans at most `target` lines of the file.
pub proof fn law_sliding_chunks_cover_file(
    file_path: Seq<char>,
    relative_path: Seq<char>,
    lang: Language,
    lines: Seq<Seq<char>>,
    target: int,
    overlap: int,
)
    requires
        2 <= target,
        0 <= overlap,
        2 * overlap <= target,
    ensures
        ({
            let cs = sliding_window_chunks(file_path, relative_path, lang, lines, target, overlap);
            &&& forall|l: int| 1 <= l <= lines.len() ==> #[trigger] chunk_covers_line(cs, l)
            &&& forall|i: int| 0 <= i < cs.len() ==> 1 <= (#[trigger] cs[i]).line_start <= cs[i].line_end <= lines.len()
                && cs[i].line_end - cs[i].line_start < target
        }),
{
    let w = windows_from(0, lines.len() as int, target, target - overlap);
    law_windows_cover(0, lines.len() as int, target, target - overlap);
    let cs = sliding_window_chunks(file_path, relative_path, lang, lines, target, overlap);
    assert(cs.len() == w.len());
    assert forall|i: int| 0 <= i < cs.len() implies 1 <= (#[trigger] cs[i]).line_start <= cs[i].line_end <= lines.len()
        && cs[i].line_end - cs[i].line_start < target by {
        assert(0 <= w[i].0 < w[i].1 <= lines.len());
    }
    assert forall|l: int| 1 <= l <= lines.len() implies #[trigger] chunk_covers_line(cs, l) by {
        assert(covers_line(w, l - 1));
        let i = choose|i: int| 0 <= i < w.len() && (#[trigger] w[i]).0 <= l - 1 < w[i].1;
        assert(cs[i].line_start == w[i].0 + 1);
    }
}


/// Whether a chunk of a file with these lines holds exactly the lines its
/// 1-based line numbers name, joined by newlines, and is named and sized by
/// them: `"{relative_path}:{line_start}-{line_end}"`, one token per started
/// four bytes.
pub open spec fn holds_its_lines(c: ChunkSpec, file_path: Seq<char>, relative_path: Seq<char>, lines: Seq<Seq<char>>) -> bool {
    &&& 1 <= c.line_start <= c.line_end <= lines.len()
    &&& c.content == join_lines(lines.subrange(c.line_start - 1, c.line_end))
    &&& c.id == relative_path + seq![':'] + decimal(c.line_start as nat) + seq!['-'] + decimal(c.line_end as nat)
    &&& c.file_path == file_path
    &&& c.relative_path == relative_path
    &&& c.token_count_estimate == (byte_len(c.content) + 3) / 4
}

proof fn lemma_window_chunks_hold(
    file_path: Seq<char>,
    relative_path: Seq<char>,
    lang: Language,
    lines: Seq<Seq<char>>,
    wins: Seq<(int, int)>,
    sym: Option<SymbolSpec>,
)
    requires
        forall|i: int| 0 <= i < wins.len() ==> 0 <= (#[trigger] wins[i]).0 < wins[i].1 <= lines.len(),
    ensures
        forall|i: int| 0 <= i < wins.len() ==> holds_its_lines(
            #[trigger] window_chunks(file_path, relative_path, lang, lines, wins, sym)[i], file_path, relative_path, lines),
{
    assert forall|i: int| 0 <= i < wins.len() implies holds_its_lines(
        #[trigger] window_chunks(file_path, relative_path, lang, lines, wins, sym)[i], file_path, relative_path, lines) by {
        let w = wins[i];
        assert(0 <= w.0 < w.1 <= lines.len());
        assert((w.0 as nat + 1) - 1 == w.0);
    }
}

proof fn lemma_symbols_chunks_hold(
    file_path: Seq<char>,
    relative_path: Seq<char>,
    lang: Language,
    lines: Seq<Seq<char>>,
    syms: Seq<SymbolSpec>,
    target: int,
    overlap: int,
)
    requires
        0 <= overlap < target,
        forall|i: int| 0 <= i < syms.len() ==> 1 <= (#[trigger] syms[i]).line_start <= syms[i].line_end <= lines.len(),
    ensures
        ({
            let cs = symbols_chunks(file_path, relative_path, lang, lines, syms, target, overlap);
            forall|i: int| 0 <= i < cs.len() ==> holds_its_lines(#[trigger] cs[i], file_path, relative_path, lines)
        }),
    decreases syms.len(),
{
    if syms.len() > 0 {
        let init = syms.drop_last();
        assert forall|i: int| 0 <= i < init.len() implies 1 <= (#[trigger] init[i]).line_start <= init[i].line_end <= lines.len() by {
            assert(init[i] == syms[i]);
        }
        lemma_symbols_chunks_hold(file_path, relative_path, lang, lines, init, target, overlap);
        let sym = syms.last();
        assert(sym == syms[syms.len() - 1]);
        let a = symbols_chunks(file_path, relative_path, lang, lines, init, target, overlap);
        let b = symbol_chunks(file_path, relative_path, lang, lines, sym, target, overlap);
        let start = sym.line_start - 1;
        let end = sym.line_end;
        if !(sym.kind == SymbolKind::Import || start >= end) {
            if end - start <= 2 * target {
                let one = chunk_of(file_path, relative_path, lang, lines, sym.line_start - 1, sym.line_end, sym.line_start as nat,
                    sym.line_end as nat, Some(sym));
                assert(b == seq![one]);
                assert(holds_its_lines(b[0], file_path, relative_path, lines));
            } else {
                let w = windows_from(start, end, target, target - overlap);
                law_windows_cover(start, end, target, target - overlap);
                lemma_window_chunks_hold(file_path, relative_path, lang, lines, w, Some(sym));
            }
        }
        let cs = a + b;
        assert forall|i: int| 0 <= i < cs.len() implies holds_its_lines(#[trigger] cs[i], file_path, relative_path, lines) by {
            if i < a.len() {
                assert(cs[i] == a[i]);
            } else {
                assert(cs[i] == b[i - a.len()]);
            }
        }
    }
}

/// Every chunk of a file holds exactly the lines that its line numbers name:
/// its content is lines `line_start..=line_end` (1-based) of the file joined
/// by newlines, its id is `"{relative_path}:{line_start}-{line_end}"`, and it
/// carries the file's paths. This holds for window chunks and for symbol
/// chunks alike, given symbols whose lines lie within the file (as the lines
/// of a syntax tree of the file do) and a chunker whose windows advance.
pub proof fn law_chunks_hold_their_lines(
    file_path: Seq<char>,
    relative_path: Seq<char>,
    content: Seq<char>,
    syms: Seq<SymbolSpec>,
    target: int,
    overlap: int,
)
    requires
        0 <= overlap < target,
        forall|i: int| 0 <= i < syms.len() ==> 1 <= (#[trigger] syms[i]).line_start <= syms[i].line_end <= lines_of(content).len(),
    ensures
        ({
            let cs = file_chunks(file_path, relative_path, content, syms, target, overlap).0;
            forall|i: int| 0 <= i < cs.len() ==> holds_its_lines(#[trigger] cs[i], file_path, relative_path, lines_of(content))
        }),
{
    let lang = language_of_path(file_path);
    let lines = lines_of(content);
    let sw = windows_from(0, lines.len() as int, target, target - overlap);
    law_windows_cover(0, lines.len() as int, target, target - overlap);
    lemma_window_chunks_hold(file_path, relative_path, lang, lines, sw, None);
    lemma_symbols_chunks_hold(file_path, relative_path, lang, lines, syms, target, overlap);
}
} // verus!
