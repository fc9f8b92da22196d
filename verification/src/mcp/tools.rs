use vstd::prelude::*;

use crate::text::{
    chars_eq_str, chars_of, decimal, owned, lines_of, lowercase, push_char, push_decimal, push_str,
    split_lines, to_lowercase, trim, trim_chars, views,
};

verus! {

/// The tools that the server offers.
#[derive(Debug, Clone, Copy, PartialEq, Eq, Structural)]
pub enum ToolKind {
    SearchCodebase,
    FindSymbols,
    GetRepoMap,
    SearchFiles,
    ReadSnippet,
    IndexCodebase,
    IndexStatus,
}

impl ToolKind {
    /// The name under which a tool is called.
    pub open spec fn spec_name(self) -> Seq<char> {
        match self {
            ToolKind::SearchCodebase => "search_codebase"@,
            ToolKind::FindSymbols => "find_symbols"@,
            ToolKind::GetRepoMap => "get_repo_map"@,
            ToolKind::SearchFiles => "search_files"@,
            ToolKind::ReadSnippet => "read_snippet"@,
            ToolKind::IndexCodebase => "index_codebase"@,
            ToolKind::IndexStatus => "index_status"@,
        }
    }

    /// The name under which a tool is called.
    pub fn name(&self) -> (s: &'static str)
        ensures
            s@ == self.spec_name(),
    {
        match self {
            ToolKind::SearchCodebase => "search_codebase",
            ToolKind::FindSymbols => "find_symbols",
            ToolKind::GetRepoMap => "get_repo_map",
            ToolKind::SearchFiles => "search_files",
            ToolKind::ReadSnippet => "read_snippet",
            ToolKind::IndexCodebase => "index_codebase",
            ToolKind::IndexStatus => "index_status",
        }
    }
}

/// The tools in the order the catalogue lists them.
pub open spec fn catalogue_order() -> Seq<ToolKind> {
    seq![
        ToolKind::SearchCodebase,
        ToolKind::FindSymbols,
        ToolKind::GetRepoMap,
        ToolKind::SearchFiles,
        ToolKind::ReadSnippet,
        ToolKind::IndexCodebase,
        ToolKind::IndexStatus,
    ]
}

/// The tool called `name`, if there is one.
pub open spec fn tool_of_name(name: Seq<char>) -> Option<ToolKind> {
    if name == ToolKind::SearchCodebase.spec_name() {
        Some(ToolKind::SearchCodebase)
    } else if name == ToolKind::FindSymbols.spec_name() {
        Some(ToolKind::FindSymbols)
    } else if name == ToolKind::GetRepoMap.spec_name() {
        Some(ToolKind::GetRepoMap)
    } else if name == ToolKind::SearchFiles.spec_name() {
        Some(ToolKind::SearchFiles)
    } else if name == ToolKind::ReadSnippet.spec_name() {
        Some(ToolKind::ReadSnippet)
    } else if name == ToolKind::IndexCodebase.spec_name() {
        Some(ToolKind::IndexCodebase)
    } else if name == ToolKind::IndexStatus.spec_name() {
        Some(ToolKind::IndexStatus)
    } else {
        None
    }
}

/// The tool called `name`, if there is one.
pub fn tool_kind(name: &str) -> (k: Option<ToolKind>)
    ensures
        k == tool_of_name(name@),
{
    let n = chars_of(name);
    if chars_eq_str(&n, "search_codebase") {
        Some(ToolKind::SearchCodebase)
    } else if chars_eq_str(&n, "find_symbols") {
        Some(ToolKind::FindSymbols)
    } else if chars_eq_str(&n, "get_repo_map") {
        Some(ToolKind::GetRepoMap)
    } else if chars_eq_str(&n, "search_files") {
        Some(ToolKind::SearchFiles)
    } else if chars_eq_str(&n, "read_snippet") {
        Some(ToolKind::ReadSnippet)
    } else if chars_eq_str(&n, "index_codebase") {
        Some(ToolKind::IndexCodebase)
    } else if chars_eq_str(&n, "index_status") {
        Some(ToolKind::IndexStatus)
    } else {
        None
    }
}

/// The type of a tool parameter in its input schema.
#[derive(Debug, Clone, Copy, PartialEq, Eq, Structural)]
pub enum ParamKind {
    Text,
    Integer,
}

/// A parameter of a tool: its name, type, description and whether it is required.
#[derive(Debug, Clone)]
pub struct ToolParam {
    pub name: String,
    pub kind: ParamKind,
    pub description: String,
    pub required: bool,
}

/// The plain value of a `ToolParam`.
pub struct ToolParamSpec {
    pub name: Seq<char>,
    pub kind: ParamKind,
    pub description: Seq<char>,
    pub required: bool,
}

impl View for ToolParam {
    type V = ToolParamSpec;

    open spec fn view(&self) -> ToolParamSpec {
        ToolParamSpec { name: self.name@, kind: self.kind, description: self.description@, required: self.required }
    }
}

/// A tool as the catalogue describes it: what it is, what it does and its parameters.
#[derive(Debug, Clone)]
pub struct ToolSpec {
    pub kind: ToolKind,
    pub description: String,
    pub params: Vec<ToolParam>,
}

/// The description of a tool.
pub open spec fn tool_description(k: ToolKind) -> Seq<char> {
    match k {
        ToolKind::SearchCodebase => "Perform modern hybrid retrieval (BM25 lexical + semantic vector + AST symbols fused via RRF) over the codebase to find relevant code snippets, definitions, and implementations."@,
        ToolKind::FindSymbols => "Search for exact or fuzzy AST symbol definitions (functions, structs, classes, traits, interfaces, methods) across the entire codebase."@,
        ToolKind::GetRepoMap => "Generate a compressed structural skeleton outline of the repository containing files and key symbol signatures to understand high-level codebase architecture."@,
        ToolKind::SearchFiles => "Fuzzy search for file paths in the workspace ignoring gitignored files."@,
        ToolKind::ReadSnippet => "Read an exact line slice from a file in the workspace with line numbers."@,
        ToolKind::IndexCodebase => "Trigger full or incremental indexing of the codebase files, AST symbols, and embeddings."@,
        ToolKind::IndexStatus => "Get statistics on current indexed files, AST chunks, symbols, and storage location."@,
    }
}

/// A parameter's plain value.
pub open spec fn param_spec(name: Seq<char>, kind: ParamKind, description: Seq<char>, required: bool) -> ToolParamSpec {
    ToolParamSpec { name, kind, description, required }
}

/// The parameters of a tool, in order.
pub open spec fn tool_params(k: ToolKind) -> Seq<ToolParamSpec> {
    match k {
        ToolKind::SearchCodebase => seq![
            param_spec("query"@, ParamKind::Text, "Natural language or keyword query describing what you are looking for (e.g. 'authentication middleware', 'handle_user_login', 'database pool connection')"@, true),
            param_spec("top_k"@, ParamKind::Integer, "Maximum number of code snippets to return (default: 10)"@, false),
        ],
        ToolKind::FindSymbols => seq![
            param_spec("symbol"@, ParamKind::Text, "The symbol identifier or prefix to search for (e.g. 'IndexEngine', 'parse_symbols', 'UserProfile')"@, true),
            param_spec("limit"@, ParamKind::Integer, "Maximum number of symbol matches to return (default: 15)"@, false),
        ],
        ToolKind::GetRepoMap => seq![
            param_spec("max_tokens"@, ParamKind::Integer, "Maximum token budget for the skeleton map (default: 4000)"@, false),
        ],
        ToolKind::SearchFiles => seq![
            param_spec("pattern"@, ParamKind::Text, "File path pattern or query to match (e.g. 'config', 'tests/parser', 'main.rs')"@, true),
            param_spec("limit"@, ParamKind::Integer, "Maximum number of matching file paths to return (default: 20)"@, false),
        ],
        ToolKind::ReadSnippet => seq![
            param_spec("path"@, ParamKind::Text, "Relative or absolute path to the file"@, true),
            param_spec("start_line"@, ParamKind::Integer, "Starting line number (1-indexed)"@, true),
            param_spec("end_line"@, ParamKind::Integer, "Ending line number (1-indexed, inclusive)"@, true),
        ],
        ToolKind::IndexCodebase => Seq::empty(),
        ToolKind::IndexStatus => Seq::empty(),
    }
}

fn param(name: &str, kind: ParamKind, description: &str, required: bool) -> (p: ToolParam)
    ensures
        p@ == param_spec(name@, kind, description@, required),
{
    ToolParam { name: owned(name), kind, description: owned(description), required }
}

fn tool(kind: ToolKind) -> (t: ToolSpec)
    ensures
        t.kind == kind,
        t.description@ == tool_description(kind),
        t.params@.map_values(|p: ToolParam| p@) == tool_params(kind),
{
    let (description, params) = match kind {
        ToolKind::SearchCodebase => (
            owned("Perform modern hybrid retrieval (BM25 lexical + semantic vector + AST symbols fused via RRF) over the codebase to find relevant code snippets, definitions, and implementations."),
            vec![
                param("query", ParamKind::Text, "Natural language or keyword query describing what you are looking for (e.g. 'authentication middleware', 'handle_user_login', 'database pool connection')", true),
                param("top_k", ParamKind::Integer, "Maximum number of code snippets to return (default: 10)", false),
            ],
        ),
        ToolKind::FindSymbols => (
            owned("Search for exact or fuzzy AST symbol definitions (functions, structs, classes, traits, interfaces, methods) across the entire codebase."),
            vec![
                param("symbol", ParamKind::Text, "The symbol identifier or prefix to search for (e.g. 'IndexEngine', 'parse_symbols', 'UserProfile')", true),
                param("limit", ParamKind::Integer, "Maximum number of symbol matches to return (default: 15)", false),
            ],
        ),
        ToolKind::GetRepoMap => (
            owned("Generate a compressed structural skeleton outline of the repository containing files and key symbol signatures to understand high-level codebase architecture."),
            vec![param("max_tokens", ParamKind::Integer, "Maximum token budget for the skeleton map (default: 4000)", false)],
        ),
        ToolKind::SearchFiles => (
            owned("Fuzzy search for file paths in the workspace ignoring gitignored files."),
            vec![
                param("pattern", ParamKind::Text, "File path pattern or query to match (e.g. 'config', 'tests/parser', 'main.rs')", true),
                param("limit", ParamKind::Integer, "Maximum number of matching file paths to return (default: 20)", false),
            ],
        ),
        ToolKind::ReadSnippet => (
            owned("Read an exact line slice from a file in the workspace with line numbers."),
            vec![
                param("path", ParamKind::Text, "Relative or absolute path to the file", true),
                param("start_line", ParamKind::Integer, "Starting line number (1-indexed)", true),
                param("end_line", ParamKind::Integer, "Ending line number (1-indexed, inclusive)", true),
            ],
        ),
        ToolKind::IndexCodebase => (
            owned("Trigger full or incremental indexing of the codebase files, AST symbols, and embeddings."),
            Vec::new(),
        ),
        ToolKind::IndexStatus => (
            owned("Get statistics on current indexed files, AST chunks, symbols, and storage location."),
            Vec::new(),
        ),
    };
    let t = ToolSpec { kind, description, params };
    assert(t.params@.map_values(|p: ToolParam| p@) =~= tool_params(kind));
    t
}

/// The catalogue of tools, in the order `catalogue_order`.
pub fn tool_catalogue() -> (tools: Vec<ToolSpec>)
    ensures
        tools@.len() == catalogue_order().len(),
        forall|i: int| 0 <= i < tools@.len() ==> {
            let t = #[trigger] tools@[i];
            &&& t.kind == catalogue_order()[i]
            &&& t.description@ == tool_description(t.kind)
            &&& t.params@.map_values(|p: ToolParam| p@) == tool_params(t.kind)
        },
{
    vec![
        tool(ToolKind::SearchCodebase),
        tool(ToolKind::FindSymbols),
        tool(ToolKind::GetRepoMap),
        tool(ToolKind::SearchFiles),
        tool(ToolKind::ReadSnippet),
        tool(ToolKind::IndexCodebase),
        tool(ToolKind::IndexStatus),
    ]
}

/// The message of the error for an unknown tool.
pub fn unknown_tool_message(name: &str) -> (m: String)
    ensures
        m@ == "Unknown tool: "@ + name@,
{
    let mut m = String::new();
    push_str(&mut m, "Unknown tool: ");
    push_str(&mut m, name);
    m
}

/// The message of the error for a missing parameter.
pub open spec fn missing_message(param: Seq<char>) -> Seq<char> {
    "Missing required parameter: "@ + param
}

fn missing(param: &str) -> (m: String)
    ensures
        m@ == missing_message(param@),
{
    let mut m = String::new();
    push_str(&mut m, "Missing required parameter: ");
    push_str(&mut m, param);
    m
}

/// An optional integer argument as a count.
pub open spec fn count_of(v: Option<u64>) -> Option<usize> {
    match v {
        Some(k) => Some(k as usize),
        None => None,
    }
}

fn count_arg(v: Option<u64>) -> (r: Option<usize>)
    ensures
        r == count_of(v),
{
    match v {
        Some(k) => Some(k as usize),
        None => None,
    }
}

/// Whether a text holds something besides white space.
fn has_text(s: &str) -> (b: bool)
    ensures
        b == (trim(s@).len() > 0),
{
    let cs = chars_of(s);
    let t = trim_chars(&cs);
    t.len() > 0
}

/// The arguments of `search_codebase`: a query that is not blank, and an
/// optional number of results.
pub fn search_codebase_args(query: Option<&str>, top_k: Option<u64>) -> (r: Result<(String, Option<usize>), String>)
    ensures
        match query {
            Some(q) if trim(q@).len() > 0 => r matches Ok((s, k)) && s@ == q@ && k == count_of(top_k),
            _ => r matches Err(e) && e@ == missing_message("query"@),
        },
{
    match query {
        Some(q) => {
            if has_text(q) {
                Ok((owned(q), count_arg(top_k)))
            } else {
                Err(missing("query"))
            }
        },
        None => Err(missing("query")),
    }
}

/// The arguments of `find_symbols`: a symbol query that is not blank, and a
/// limit of 15 matches unless given.
pub fn find_symbols_args(symbol: Option<&str>, limit: Option<u64>) -> (r: Result<(String, usize), String>)
    ensures
        match symbol {
            Some(q) if trim(q@).len() > 0 => r matches Ok((s, n)) && s@ == q@
                && n == match limit { Some(l) => l as usize, None => 15 },
            _ => r matches Err(e) && e@ == missing_message("symbol"@),
        },
{
    match symbol {
        Some(q) => {
            if has_text(q) {
                let n: usize = match limit {
                    Some(l) => l as usize,
                    None => 15,
                };
                Ok((owned(q), n))
            } else {
                Err(missing("symbol"))
            }
        },
        None => Err(missing("symbol")),
    }
}

/// The token budget of `get_repo_map`: 4000 unless given.
pub fn repo_map_budget(max_tokens: Option<u64>) -> (n: usize)
    ensures
        n == match max_tokens { Some(t) => t as usize, None => 4000 },
{
    match max_tokens {
        Some(t) => t as usize,
        None => 4000,
    }
}

/// The arguments of `search_files`: the pattern, lower-cased, and a limit
/// of 20 matches unless given.
pub fn search_files_args(pattern: Option<&str>, limit: Option<u64>) -> (r: Result<(String, usize), String>)
    ensures
        match pattern {
            Some(p) => r matches Ok((s, n)) && s@ == lowercase(p@)
                && n == match limit { Some(l) => l as usize, None => 20 },
            None => r matches Err(e) && e@ == missing_message("pattern"@),
        },
{
    match pattern {
        Some(p) => {
            let n: usize = match limit {
                Some(l) => l as usize,
                None => 20,
            };
            Ok((to_lowercase(p), n))
        },
        None => Err(missing("pattern")),
    }
}

/// The arguments of `read_snippet`: a path and a first and last line, each
/// required, checked in that order.
pub fn read_snippet_args(path: Option<&str>, start_line: Option<u64>, end_line: Option<u64>) -> (r: Result<(String, usize, usize), String>)
    ensures
        match (path, start_line, end_line) {
            (Some(p), Some(s), Some(e)) => r matches Ok((q, a, b)) && q@ == p@ && a == s as usize && b == e as usize,
            (None, _, _) => r matches Err(m) && m@ == missing_message("path"@),
            (Some(_), None, _) => r matches Err(m) && m@ == missing_message("start_line"@),
            (Some(_), Some(_), None) => r matches Err(m) && m@ == missing_message("end_line"@),
        },
{
    let p = match path {
        Some(p) => p,
        None => return Err(missing("path")),
    };
    let s = match start_line {
        Some(s) => s as usize,
        None => return Err(missing("start_line")),
    };
    let e = match end_line {
        Some(e) => e as usize,
        None => return Err(missing("end_line")),
    };
    Ok((owned(p), s, e))
}

/// `n` spaces.
pub open spec fn spaces(n: int) -> Seq<char> {
    Seq::new(n as nat, |i: int| ' ')
}

/// The decimal notation of `n`, padded on the left with spaces to four characters.
pub open spec fn line_number(n: nat) -> Seq<char> {
    let d = decimal(n);
    if d.len() < 4 { spaces(4 - d.len()) + d } else { d }
}

/// The lines `[from, to)` (0-based) of `lines`, each as
/// `"{number:>4} | {line}\n"` with its 1-based number.
pub open spec fn numbered_lines(lines: Seq<Seq<char>>, from: int, to: int) -> Seq<char>
    decreases to - from,
{
    if to <= from {
        Seq::empty()
    } else {
        numbered_lines(lines, from, to - 1) + line_number(to as nat) + " | "@ + lines[to - 1] + seq!['\n']
    }
}

/// The message for a line range that selects nothing.
pub open spec fn invalid_range_message(start_line: nat, end_line: nat, total: nat) -> Seq<char> {
    "Invalid line range "@ + decimal(start_line) + seq!['-'] + decimal(end_line) + " for file with "@
        + decimal(total) + " lines"@
}

/// The 0-based range of lines that `read_snippet` shows for the 1-based
/// inclusive range `[start_line, end_line]` of a text of `total` lines.
pub open spec fn snippet_range(start_line: int, end_line: int, total: int) -> (int, int) {
    let s = if start_line == 0 { 0 } else { start_line - 1 };
    let e = if end_line < total { end_line } else { total };
    (s, e)
}

fn push_line_number(out: &mut String, n: usize)
    ensures
        final(out)@ == old(out)@ + line_number(n as nat),
{
    let mut d = String::new();
    push_decimal(&mut d, n);
    assert(d@ =~= decimal(n as nat));
    let cs = chars_of(d.as_str());
    let ghost before = out@;
    if cs.len() < 4 {
        let pad = 4 - cs.len();
        let mut k: usize = 0;
        while k < pad
            invariant
                k <= pad,
                out@ == before + spaces(k as int),
            decreases pad - k,
        {
            push_char(out, ' ');
            k = k + 1;
            assert(out@ =~= before + spaces(k as int));
        }
    }
    push_str(out, d.as_str());
    assert(out@ =~= before + line_number(n as nat));
}

/// The lines `[start_line, end_line]` (1-based, inclusive) of a text, each
/// with its number; the first line is taken as 1 where 0 is given and the
/// last is cut to the end of the text. A range that selects no line is an
/// error that names it and the number of lines.
pub fn format_snippet(content: &str, start_line: usize, end_line: usize) -> (r: Result<String, String>)
    ensures
        ({
            let ls = lines_of(content@);
            let (s, e) = snippet_range(start_line as int, end_line as int, ls.len() as int);
            if s >= ls.len() || s >= e {
                r matches Err(m) && m@ == invalid_range_message(start_line as nat, end_line as nat, ls.len())
            } else {
                r matches Ok(t) && t@ == numbered_lines(ls, s, e)
            }
        }),
{
    let lines = split_lines(content);
    let ghost ls = views(lines@);
    let total = lines.len();
    let s: usize = if start_line == 0 { 0 } else { start_line - 1 };
    let e: usize = if end_line < total { end_line } else { total };
    if s >= total || s >= e {
        let mut m = String::new();
        push_str(&mut m, "Invalid line range ");
        push_decimal(&mut m, start_line);
        push_char(&mut m, '-');
        push_decimal(&mut m, end_line);
        push_str(&mut m, " for file with ");
        push_decimal(&mut m, total);
        push_str(&mut m, " lines");
        assert(m@ =~= invalid_range_message(start_line as nat, end_line as nat, total as nat));
        return Err(m);
    }
    let mut out = String::new();
    let mut i: usize = s;
    assert(out@ =~= numbered_lines(ls, s as int, s as int));
    while i < e
        invariant
            s <= i <= e,
            e <= lines@.len(),
            ls == views(lines@),
            out@ == numbered_lines(ls, s as int, i as int),
        decreases e - i,
    {
        push_line_number(&mut out, i + 1);
        push_str(&mut out, " | ");
        push_str(&mut out, lines[i].as_str());
        push_char(&mut out, '\n');
        i = i + 1;
        assert(out@ =~= numbered_lines(ls, s as int, i as int));
    }
    Ok(out)
}


/// A tool is called under its own fixed name and under no other: the name
/// `search_codebase` calls the hybrid search, `get_repo_map` the repository
/// map, and so on; any other name calls no tool.
pub proof fn law_tool_names_dispatch(name: Seq<char>)
    ensures
        tool_of_name(name) == Some(ToolKind::SearchCodebase) <==> name == "search_codebase"@,
        tool_of_name(name) == Some(ToolKind::FindSymbols) <==> name == "find_symbols"@,
        tool_of_name(name) == Some(ToolKind::GetRepoMap) <==> name == "get_repo_map"@,
        tool_of_name(name) == Some(ToolKind::SearchFiles) <==> name == "search_files"@,
        tool_of_name(name) == Some(ToolKind::ReadSnippet) <==> name == "read_snippet"@,
        tool_of_name(name) == Some(ToolKind::IndexCodebase) <==> name == "index_codebase"@,
        tool_of_name(name) == Some(ToolKind::IndexStatus) <==> name == "index_status"@,
        tool_of_name(name) is None <==> !(name == "search_codebase"@ || name == "find_symbols"@ || name == "get_repo_map"@
            || name == "search_files"@ || name == "read_snippet"@ || name == "index_codebase"@ || name == "index_status"@),
{
    reveal_strlit("search_codebase");
    reveal_strlit("find_symbols");
    reveal_strlit("get_repo_map");
    reveal_strlit("search_files");
    reveal_strlit("read_snippet");
    reveal_strlit("index_codebase");
    reveal_strlit("index_status");
    if name == "search_codebase"@ {
        assert(name.len() == 15);
    }
    if name == "find_symbols"@ {
        assert(name.len() == 12);
        assert(name[0] != "get_repo_map"@[0]);
        assert(name[0] != "search_files"@[0]);
        assert(name[0] != "read_snippet"@[0]);
        assert(name[0] != "index_status"@[0]);
    }
    if name == "get_repo_map"@ {
        assert(name.len() == 12);
        assert(name[0] != "find_symbols"@[0]);
        assert(name[0] != "search_files"@[0]);
        assert(name[0] != "read_snippet"@[0]);
        assert(name[0] != "index_status"@[0]);
    }
    if name == "search_files"@ {
        assert(name.len() == 12);
        assert(name[0] != "find_symbols"@[0]);
        assert(name[0] != "get_repo_map"@[0]);
        assert(name[0] != "read_snippet"@[0]);
        assert(name[0] != "index_status"@[0]);
    }
    if name == "read_snippet"@ {
        assert(name.len() == 12);
        assert(name[0] != "find_symbols"@[0]);
        assert(name[0] != "get_repo_map"@[0]);
        assert(name[0] != "search_files"@[0]);
        assert(name[0] != "index_status"@[0]);
    }
    if name == "index_codebase"@ {
        assert(name.len() == 14);
    }
    if name == "index_status"@ {
        assert(name.len() == 12);
        assert(name[0] != "find_symbols"@[0]);
        assert(name[0] != "get_repo_map"@[0]);
        assert(name[0] != "search_files"@[0]);
        assert(name[0] != "read_snippet"@[0]);
    }
}

/// Dispatch inverts naming: the name of each tool calls that tool.
pub proof fn law_tool_name_calls_its_tool(k: ToolKind)
    ensures
        tool_of_name(k.spec_name()) == Some(k),
{
    match k {
        ToolKind::SearchCodebase => law_tool_names_dispatch("search_codebase"@),
        ToolKind::FindSymbols => law_tool_names_dispatch("find_symbols"@),
        ToolKind::GetRepoMap => law_tool_names_dispatch("get_repo_map"@),
        ToolKind::SearchFiles => law_tool_names_dispatch("search_files"@),
        ToolKind::ReadSnippet => law_tool_names_dispatch("read_snippet"@),
        ToolKind::IndexCodebase => law_tool_names_dispatch("index_codebase"@),
        ToolKind::IndexStatus => law_tool_names_dispatch("index_status"@),
    }
}
} // verus!
