use vstd::prelude::*;

use super::languages::Language;
use tree_sitter::Language as TsLanguage;
use crate::text::{
    byte_len, chars_eq_str, chars_of, first_line, get_byte_range, string_from_chars, text_or_empty,
    trim, trim_chars, trimmed_first_line, utf8_len,
};

verus! {

/// The kinds of symbol definitions found in syntax trees.
#[derive(Debug, Clone, Copy, PartialEq, Eq, Hash, Structural)]
pub enum SymbolKind {
    Function,
    Method,
    Class,
    Struct,
    Enum,
    Interface,
    Trait,
    TypeAlias,
    Constant,
    Module,
    Import,
}

impl SymbolKind {
    /// The lower-case label of the kind.
    pub open spec fn spec_as_str(self) -> Seq<char> {
        match self {
            SymbolKind::Function => "function"@,
            SymbolKind::Method => "method"@,
            SymbolKind::Class => "class"@,
            SymbolKind::Struct => "struct"@,
            SymbolKind::Enum => "enum"@,
            SymbolKind::Interface => "interface"@,
            SymbolKind::Trait => "trait"@,
            SymbolKind::TypeAlias => "type"@,
            SymbolKind::Constant => "constant"@,
            SymbolKind::Module => "module"@,
            SymbolKind::Import => "import"@,
        }
    }

    /// The lower-case label of the kind.
    pub fn as_str(&self) -> (s: &'static str)
        ensures
            s@ == self.spec_as_str(),
    {
        match self {
            SymbolKind::Function => "function",
            SymbolKind::Method => "method",
            SymbolKind::Class => "class",
            SymbolKind::Struct => "struct",
            SymbolKind::Enum => "enum",
            SymbolKind::Interface => "interface",
            SymbolKind::Trait => "trait",
            SymbolKind::TypeAlias => "type",
            SymbolKind::Constant => "constant",
            SymbolKind::Module => "module",
            SymbolKind::Import => "import",
        }
    }

    /// Whether symbols of this kind open a scope for the symbols nested in them.
    pub open spec fn opens_scope(self) -> bool {
        match self {
            SymbolKind::Class | SymbolKind::Struct | SymbolKind::Interface | SymbolKind::Trait
            | SymbolKind::Module => true,
            _ => false,
        }
    }
}

/// A symbol definition found in a source file.
#[derive(Debug, Clone)]
pub struct SymbolInfo {
    pub name: String,
    pub kind: SymbolKind,
    pub signature: String,
    pub docstring: Option<String>,
    pub parent_scope: Option<String>,
    pub line_start: usize,
    pub line_end: usize,
    pub byte_start: usize,
    pub byte_end: usize,
}

/// The plain value of a `SymbolInfo`.
pub struct SymbolSpec {
    pub name: Seq<char>,
    pub kind: SymbolKind,
    pub signature: Seq<char>,
    pub docstring: Option<Seq<char>>,
    pub parent_scope: Option<Seq<char>>,
    pub line_start: int,
    pub line_end: int,
    pub byte_start: int,
    pub byte_end: int,
}

/// The view of an optional string.
pub open spec fn opt_view(o: Option<String>) -> Option<Seq<char>> {
    match o {
        Some(s) => Some(s@),
        None => None,
    }
}

impl View for SymbolInfo {
    type V = SymbolSpec;

    open spec fn view(&self) -> SymbolSpec {
        SymbolSpec {
            name: self.name@,
            kind: self.kind,
            signature: self.signature@,
            docstring: opt_view(self.docstring),
            parent_scope: opt_view(self.parent_scope),
            line_start: self.line_start as int,
            line_end: self.line_end as int,
            byte_start: self.byte_start as int,
            byte_end: self.byte_end as int,
        }
    }
}

/// The views of a sequence of symbols.
pub open spec fn symbol_views(v: Seq<SymbolInfo>) -> Seq<SymbolSpec> {
    v.map_values(|s: SymbolInfo| s@)
}

/// A node of a concrete syntax tree, as plain values: its kind, its byte
/// range and rows, the byte ranges of its `name`, `type` and `declarator`
/// fields where it has them, and its children in order.
#[derive(Debug)]
pub struct SyntaxNode {
    pub kind: String,
    pub start_byte: usize,
    pub end_byte: usize,
    pub start_row: usize,
    pub end_row: usize,
    pub name_field: Option<(usize, usize)>,
    pub type_field: Option<(usize, usize)>,
    pub declarator_field: Option<(usize, usize)>,
    pub children: Vec<SyntaxNode>,
}

/// Which field of a node names the symbol it defines.
#[derive(Debug, Clone, Copy, PartialEq, Eq, Structural)]
pub enum NameField {
    Name,
    Type,
    Declarator,
    Whole,
}

/// The symbol kind and naming field of a node kind in a language, if the
/// node defines a symbol. `in_scope` tells whether an enclosing scope exists.
pub open spec fn classify_node(lang: Language, kind: Seq<char>, in_scope: bool) -> Option<(SymbolKind, NameField)> {
    match lang {
        Language::Rust => {
            if kind == "function_item"@ { Some((SymbolKind::Function, NameField::Name)) }
            else if kind == "struct_item"@ { Some((SymbolKind::Struct, NameField::Name)) }
            else if kind == "enum_item"@ { Some((SymbolKind::Enum, NameField::Name)) }
            else if kind == "trait_item"@ { Some((SymbolKind::Trait, NameField::Name)) }
            else if kind == "impl_item"@ { Some((SymbolKind::Class, NameField::Type)) }
            else if kind == "type_item"@ { Some((SymbolKind::TypeAlias, NameField::Name)) }
            else if kind == "const_item"@ || kind == "static_item"@ { Some((SymbolKind::Constant, NameField::Name)) }
            else if kind == "mod_item"@ { Some((SymbolKind::Module, NameField::Name)) }
            else if kind == "use_declaration"@ { Some((SymbolKind::Import, NameField::Whole)) }
            else { None }
        },
        Language::Python => {
            if kind == "function_definition"@ {
                Some((if in_scope { SymbolKind::Method } else { SymbolKind::Function }, NameField::Name))
            }
            else if kind == "class_definition"@ { Some((SymbolKind::Class, NameField::Name)) }
            else if kind == "import_statement"@ || kind == "import_from_statement"@ { Some((SymbolKind::Import, NameField::Whole)) }
            else { None }
        },
        Language::TypeScript | Language::JavaScript => {
            if kind == "function_declaration"@ || kind == "generator_function_declaration"@ { Some((SymbolKind::Function, NameField::Name)) }
            else if kind == "method_definition"@ { Some((SymbolKind::Method, NameField::Name)) }
            else if kind == "class_declaration"@ { Some((SymbolKind::Class, NameField::Name)) }
            else if kind == "interface_declaration"@ { Some((SymbolKind::Interface, NameField::Name)) }
            else if kind == "type_alias_declaration"@ { Some((SymbolKind::TypeAlias, NameField::Name)) }
            else if kind == "enum_declaration"@ { Some((SymbolKind::Enum, NameField::Name)) }
            else if kind == "import_statement"@ { Some((SymbolKind::Import, NameField::Whole)) }
            else { None }
        },
        Language::Go => {
            if kind == "function_declaration"@ { Some((SymbolKind::Function, NameField::Name)) }
            else if kind == "method_declaration"@ { Some((SymbolKind::Method, NameField::Name)) }
            else if kind == "type_declaration"@ { Some((SymbolKind::Struct, NameField::Name)) }
            else if kind == "import_declaration"@ { Some((SymbolKind::Import, NameField::Whole)) }
            else { None }
        },
        Language::Java => {
            if kind == "class_declaration"@ { Some((SymbolKind::Class, NameField::Name)) }
            else if kind == "interface_declaration"@ { Some((SymbolKind::Interface, NameField::Name)) }
            else if kind == "enum_declaration"@ { Some((SymbolKind::Enum, NameField::Name)) }
            else if kind == "method_declaration"@ { Some((SymbolKind::Method, NameField::Name)) }
            else if kind == "import_declaration"@ { Some((SymbolKind::Import, NameField::Whole)) }
            else { None }
        },
        Language::C | Language::Cpp => {
            if kind == "function_definition"@ { Some((SymbolKind::Function, NameField::Declarator)) }
            else if kind == "struct_specifier"@ { Some((SymbolKind::Struct, NameField::Name)) }
            else if kind == "class_specifier"@ { Some((SymbolKind::Class, NameField::Name)) }
            else if kind == "enum_specifier"@ { Some((SymbolKind::Enum, NameField::Name)) }
            else if kind == "type_definition"@ { Some((SymbolKind::TypeAlias, NameField::Declarator)) }
            else if kind == "preproc_include"@ { Some((SymbolKind::Import, NameField::Whole)) }
            else { None }
        },
        _ => None,
    }
}

/// The byte range of the node's field that names its symbol, if it has that field.
pub open spec fn field_range(node: SyntaxNode, f: NameField) -> Option<(usize, usize)> {
    match f {
        NameField::Name => node.name_field,
        NameField::Type => node.type_field,
        NameField::Declarator => node.declarator_field,
        NameField::Whole => None,
    }
}

/// The name of the symbol that a node defines: the trimmed text of its naming
/// field; for an import, the trimmed text of the whole node; otherwise the
/// node's kind.
pub open spec fn symbol_name(node: SyntaxNode, content: Seq<char>, kind: SymbolKind, f: NameField) -> Seq<char> {
    match field_range(node, f) {
        Some((a, b)) => trim(text_or_empty(content, a as int, b as int)),
        None => if kind == SymbolKind::Import {
            trim(text_or_empty(content, node.start_byte as int, node.end_byte as int))
        } else {
            node.kind@
        },
    }
}

/// The symbol that a node defines, if any: a classified node with a non-empty name.
pub open spec fn node_symbol(node: SyntaxNode, content: Seq<char>, lang: Language, scope: Option<Seq<char>>) -> Option<SymbolSpec> {
    match classify_node(lang, node.kind@, scope is Some) {
        Some((kind, f)) => {
            let name = symbol_name(node, content, kind, f);
            if name.len() > 0 {
                Some(SymbolSpec {
                    name,
                    kind,
                    signature: trim(first_line(text_or_empty(content, node.start_byte as int, node.end_byte as int))),
                    docstring: None,
                    parent_scope: scope,
                    line_start: node.start_row + 1,
                    line_end: node.end_row + 1,
                    byte_start: node.start_byte as int,
                    byte_end: node.end_byte as int,
                })
            } else {
                None
            }
        },
        None => None,
    }
}

/// The scope for the children of a node: the name of the symbol it defines
/// where that symbol's kind opens a scope, else the enclosing scope.
pub open spec fn inner_scope(node: SyntaxNode, content: Seq<char>, lang: Language, scope: Option<Seq<char>>) -> Option<Seq<char>> {
    match node_symbol(node, content, lang, scope) {
        Some(sym) => if sym.kind.opens_scope() { Some(sym.name) } else { scope },
        None => scope,
    }
}

/// The symbols defined in a subtree, in pre-order.
pub open spec fn tree_symbols(node: SyntaxNode, content: Seq<char>, lang: Language, scope: Option<Seq<char>>) -> Seq<SymbolSpec>
    decreases node, 1int, 0int,
{
    let own = match node_symbol(node, content, lang, scope) {
        Some(sym) => seq![sym],
        None => Seq::empty(),
    };
    own + children_symbols(node, node.children@.len() as int, content, lang, inner_scope(node, content, lang, scope))
}

/// The symbols defined in the first `k` children of a node, in pre-order.
pub open spec fn children_symbols(node: SyntaxNode, k: int, content: Seq<char>, lang: Language, scope: Option<Seq<char>>) -> Seq<SymbolSpec>
    decreases node, 0int, k,
{
    if k <= 0 || k > node.children@.len() {
        Seq::empty()
    } else {
        children_symbols(node, k - 1, content, lang, scope) + tree_symbols(node.children@[k - 1], content, lang, scope)
    }
}

/// Whether a subtree is laid out as tree-sitter lays out the trees it gives
/// for a text of `len` bytes: each node starts no later than it ends, in rows
/// and in bytes, and ends within the text; its children lie inside it, one
/// after another in order; and every row can be made a 1-based line number.
pub open spec fn tree_fits(node: SyntaxNode, len: int) -> bool
    decreases node, 1int, 0int,
{
    &&& node.start_row <= node.end_row
    &&& node.end_row < usize::MAX
    &&& node.start_byte <= node.end_byte
    &&& node.end_byte <= len
    &&& children_fit(node, node.children@.len() as int, len)
}

/// Whether the first `k` children of a node fit (see `tree_fits`), lie inside
/// the node and follow each other in order.
pub open spec fn children_fit(node: SyntaxNode, k: int, len: int) -> bool
    decreases node, 0int, k,
{
    if k <= 0 || k > node.children@.len() {
        true
    } else {
        &&& children_fit(node, k - 1, len)
        &&& tree_fits(node.children@[k - 1], len)
        &&& node.start_byte <= node.children@[k - 1].start_byte
        &&& node.children@[k - 1].end_byte <= node.end_byte
        &&& (k >= 2 ==> node.children@[k - 2].end_byte <= node.children@[k - 1].start_byte)
    }
}

proof fn lemma_children_fit_prefix(node: SyntaxNode, k: int, j: int, len: int)
    requires
        0 <= j <= k <= node.children@.len(),
        children_fit(node, k, len),
    ensures
        children_fit(node, j, len),
    decreases k,
{
    if j < k {
        lemma_children_fit_prefix(node, k - 1, j, len);
    }
}

proof fn lemma_child_fits(node: SyntaxNode, k: int, i: int, len: int)
    requires
        0 <= i < k <= node.children@.len(),
        children_fit(node, k, len),
    ensures
        tree_fits(node.children@[i], len),
        node.start_byte <= node.children@[i].start_byte,
        node.children@[i].end_byte <= node.end_byte,
{
    lemma_children_fit_prefix(node, k, i + 1, len);
}

/// A symbol as the parse places it in a text of `len` bytes: it has a name and
/// no docstring, its lines are 1-based and in order, and its byte range lies
/// in order within the text.
pub open spec fn well_placed(sym: SymbolSpec, len: int) -> bool {
    &&& sym.name.len() > 0
    &&& sym.docstring is None
    &&& 1 <= sym.line_start <= sym.line_end
    &&& 0 <= sym.byte_start <= sym.byte_end <= len
}

/// Whether symbols come in the order of their first byte.
pub open spec fn starts_ascending(s: Seq<SymbolSpec>) -> bool {
    forall|i: int, j: int| 0 <= i <= j < s.len() ==> (#[trigger] s[i]).byte_start <= (#[trigger] s[j]).byte_start
}

/// The symbols of a subtree that fits are well placed, lie within the
/// subtree's bytes, and come in the order of their first byte.
pub proof fn lemma_tree_symbols_placed(node: SyntaxNode, content: Seq<char>, lang: Language, scope: Option<Seq<char>>, len: int)
    requires
        tree_fits(node, len),
    ensures
        ({
            let s = tree_symbols(node, content, lang, scope);
            &&& starts_ascending(s)
            &&& forall|i: int| 0 <= i < s.len() ==> {
                &&& well_placed(#[trigger] s[i], len)
                &&& node.start_byte <= s[i].byte_start
                &&& s[i].byte_end <= node.end_byte
            }
        }),
    decreases node, 1int, 0int,
{
    let inner = inner_scope(node, content, lang, scope);
    let n = node.children@.len() as int;
    lemma_children_symbols_placed(node, n, content, lang, inner, len);
    let own: Seq<SymbolSpec> = match node_symbol(node, content, lang, scope) {
        Some(sym) => seq![sym],
        None => Seq::empty(),
    };
    let rest = children_symbols(node, n, content, lang, inner);
    let s = tree_symbols(node, content, lang, scope);
    assert(s == own + rest);
    assert forall|i: int| 0 <= i < s.len() implies {
        &&& well_placed(#[trigger] s[i], len)
        &&& node.start_byte <= s[i].byte_start
        &&& s[i].byte_end <= node.end_byte
    } by {
        if i >= own.len() {
            assert(s[i] == rest[i - own.len()]);
        }
    }
    assert forall|i: int, j: int| 0 <= i <= j < s.len() implies (#[trigger] s[i]).byte_start <= (#[trigger] s[j]).byte_start by {
        if j < own.len() {
        } else if i < own.len() {
            assert(s[j] == rest[j - own.len()]);
        } else {
            assert(s[i] == rest[i - own.len()]);
            assert(s[j] == rest[j - own.len()]);
        }
    }
}

/// The symbols of the first `k` children of a node whose children fit are
/// well placed, lie within the node's bytes and end by the end of child
/// `k - 1`, and come in the order of their first byte.
pub proof fn lemma_children_symbols_placed(node: SyntaxNode, k: int, content: Seq<char>, lang: Language, scope: Option<Seq<char>>, len: int)
    requires
        tree_fits(node, len),
    ensures
        ({
            let s = children_symbols(node, k, content, lang, scope);
            &&& starts_ascending(s)
            &&& forall|i: int| 0 <= i < s.len() ==> {
                &&& well_placed(#[trigger] s[i], len)
                &&& node.start_byte <= s[i].byte_start
                &&& s[i].byte_end <= node.end_byte
                &&& (0 < k <= node.children@.len() ==> s[i].byte_end <= node.children@[k - 1].end_byte)
            }
        }),
    decreases node, 0int, k,
{
    let n = node.children@.len() as int;
    if k > 0 && k <= n {
        lemma_children_symbols_placed(node, k - 1, content, lang, scope, len);
        lemma_child_fits(node, n, k - 1, len);
        let child = node.children@[k - 1];
        lemma_tree_symbols_placed(child, content, lang, scope, len);
        let a = children_symbols(node, k - 1, content, lang, scope);
        let b = tree_symbols(child, content, lang, scope);
        let s = children_symbols(node, k, content, lang, scope);
        assert(s == a + b);
        if k >= 2 {
            lemma_children_fit_prefix(node, n, k, len);
            lemma_child_fits(node, n, k - 2, len);
        }
        assert forall|i: int| 0 <= i < a.len() implies (#[trigger] a[i]).byte_end <= child.start_byte by {
            if k >= 2 {
                assert(node.children@[k - 2].end_byte <= child.start_byte);
            }
        }
        assert forall|i: int| 0 <= i < s.len() implies {
            &&& well_placed(#[trigger] s[i], len)
            &&& node.start_byte <= s[i].byte_start
            &&& s[i].byte_end <= node.end_byte
            &&& (0 < k <= node.children@.len() ==> s[i].byte_end <= node.children@[k - 1].end_byte)
        } by {
            if i >= a.len() {
                assert(s[i] == b[i - a.len()]);
            } else {
                assert(s[i] == a[i]);
                assert(a[i].byte_end <= child.start_byte);
            }
        }
        assert forall|i: int, j: int| 0 <= i <= j < s.len() implies (#[trigger] s[i]).byte_start <= (#[trigger] s[j]).byte_start by {
            if j < a.len() {
                assert(s[i] == a[i]);
                assert(s[j] == a[j]);
            } else if i < a.len() {
                assert(s[i] == a[i]);
                assert(s[j] == b[j - a.len()]);
                assert(a[i].byte_end <= child.start_byte);
            } else {
                assert(s[i] == b[i - a.len()]);
                assert(s[j] == b[j - a.len()]);
            }
        }
    }
}

fn classify(lang: Language, kind: &[char], in_scope: bool) -> (r: Option<(SymbolKind, NameField)>)
    ensures
        r == classify_node(lang, kind@, in_scope),
{
    match lang {
        Language::Rust => {
            if chars_eq_str(kind, "function_item") { Some((SymbolKind::Function, NameField::Name)) }
            else if chars_eq_str(kind, "struct_item") { Some((SymbolKind::Struct, NameField::Name)) }
            else if chars_eq_str(kind, "enum_item") { Some((SymbolKind::Enum, NameField::Name)) }
            else if chars_eq_str(kind, "trait_item") { Some((SymbolKind::Trait, NameField::Name)) }
            else if chars_eq_str(kind, "impl_item") { Some((SymbolKind::Class, NameField::Type)) }
            else if chars_eq_str(kind, "type_item") { Some((SymbolKind::TypeAlias, NameField::Name)) }
            else if chars_eq_str(kind, "const_item") || chars_eq_str(kind, "static_item") { Some((SymbolKind::Constant, NameField::Name)) }
            else if chars_eq_str(kind, "mod_item") { Some((SymbolKind::Module, NameField::Name)) }
            else if chars_eq_str(kind, "use_declaration") { Some((SymbolKind::Import, NameField::Whole)) }
            else { None }
        },
        Language::Python => {
            if chars_eq_str(kind, "function_definition") {
                Some((if in_scope { SymbolKind::Method } else { SymbolKind::Function }, NameField::Name))
            }
            else if chars_eq_str(kind, "class_definition") { Some((SymbolKind::Class, NameField::Name)) }
            else if chars_eq_str(kind, "import_statement") || chars_eq_str(kind, "import_from_statement") { Some((SymbolKind::Import, NameField::Whole)) }
            else { None }
        },
        Language::TypeScript | Language::JavaScript => {
            if chars_eq_str(kind, "function_declaration") || chars_eq_str(kind, "generator_function_declaration") { Some((SymbolKind::Function, NameField::Name)) }
            else if chars_eq_str(kind, "method_definition") { Some((SymbolKind::Method, NameField::Name)) }
            else if chars_eq_str(kind, "class_declaration") { Some((SymbolKind::Class, NameField::Name)) }
            else if chars_eq_str(kind, "interface_declaration") { Some((SymbolKind::Interface, NameField::Name)) }
            else if chars_eq_str(kind, "type_alias_declaration") { Some((SymbolKind::TypeAlias, NameField::Name)) }
            else if chars_eq_str(kind, "enum_declaration") { Some((SymbolKind::Enum, NameField::Name)) }
            else if chars_eq_str(kind, "import_statement") { Some((SymbolKind::Import, NameField::Whole)) }
            else { None }
        },
        Language::Go => {
            if chars_eq_str(kind, "function_declaration") { Some((SymbolKind::Function, NameField::Name)) }
            else if chars_eq_str(kind, "method_declaration") { Some((SymbolKind::Method, NameField::Name)) }
            else if chars_eq_str(kind, "type_declaration") { Some((SymbolKind::Struct, NameField::Name)) }
            else if chars_eq_str(kind, "import_declaration") { Some((SymbolKind::Import, NameField::Whole)) }
            else { None }
        },
        Language::Java => {
            if chars_eq_str(kind, "class_declaration") { Some((SymbolKind::Class, NameField::Name)) }
            else if chars_eq_str(kind, "interface_declaration") { Some((SymbolKind::Interface, NameField::Name)) }
            else if chars_eq_str(kind, "enum_declaration") { Some((SymbolKind::Enum, NameField::Name)) }
            else if chars_eq_str(kind, "method_declaration") { Some((SymbolKind::Method, NameField::Name)) }
            else if chars_eq_str(kind, "import_declaration") { Some((SymbolKind::Import, NameField::Whole)) }
            else { None }
        },
        Language::C | Language::Cpp => {
            if chars_eq_str(kind, "function_definition") { Some((SymbolKind::Function, NameField::Declarator)) }
            else if chars_eq_str(kind, "struct_specifier") { Some((SymbolKind::Struct, NameField::Name)) }
            else if chars_eq_str(kind, "class_specifier") { Some((SymbolKind::Class, NameField::Name)) }
            else if chars_eq_str(kind, "enum_specifier") { Some((SymbolKind::Enum, NameField::Name)) }
            else if chars_eq_str(kind, "type_definition") { Some((SymbolKind::TypeAlias, NameField::Declarator)) }
            else if chars_eq_str(kind, "preproc_include") { Some((SymbolKind::Import, NameField::Whole)) }
            else { None }
        },
        _ => None,
    }
}


/// The trimmed text of `content` between two byte offsets (empty where the
/// offsets do not delimit text).
fn trimmed_text(content: &str, a: usize, b: usize) -> (t: Vec<char>)
    ensures
        t@ == trim(text_or_empty(content@, a as int, b as int)),
{
    match get_byte_range(content, a, b) {
        Some(s) => {
            let cs = chars_of(s);
            trim_chars(&cs)
        },
        None => {
            let empty: Vec<char> = Vec::new();
            assert(empty@ =~= Seq::<char>::empty());
            trim_chars(&empty)
        },
    }
}

/// A copy of an optional text.
pub(crate) fn clone_opt(o: &Option<String>) -> (r: Option<String>)
    ensures
        opt_view(r) == opt_view(*o),
{
    match o {
        Some(s) => Some(s.clone()),
        None => None,
    }
}

/// The symbol that a node defines, if any.
fn node_symbol_of(node: &SyntaxNode, content: &str, lang: Language, scope: &Option<String>) -> (r: Option<SymbolInfo>)
    requires
        node.start_row < usize::MAX,
        node.end_row < usize::MAX,
    ensures
        match r {
            Some(sym) => node_symbol(*node, content@, lang, opt_view(*scope)) == Some(sym@),
            None => node_symbol(*node, content@, lang, opt_view(*scope)) is None,
        },
{
    let kind_chars = chars_of(node.kind.as_str());
    let classified = classify(lang, &kind_chars, scope.is_some());
    match classified {
        None => None,
        Some((kind, f)) => {
            let range = match f {
                NameField::Name => node.name_field,
                NameField::Type => node.type_field,
                NameField::Declarator => node.declarator_field,
                NameField::Whole => None,
            };
            let name_chars: Vec<char> = match range {
                Some((a, b)) => trimmed_text(content, a, b),
                None => {
                    if kind == SymbolKind::Import {
                        trimmed_text(content, node.start_byte, node.end_byte)
                    } else {
                        kind_chars
                    }
                },
            };
            if name_chars.len() == 0 {
                return None;
            }
            let node_text: Vec<char> = match get_byte_range(content, node.start_byte, node.end_byte) {
                Some(t) => chars_of(t),
                None => {
                    let empty: Vec<char> = Vec::new();
                    assert(empty@ =~= text_or_empty(content@, node.start_byte as int, node.end_byte as int));
                    empty
                },
            };
            let signature = trimmed_first_line(&node_text);
            let sym = SymbolInfo {
                name: string_from_chars(&name_chars),
                kind,
                signature: string_from_chars(&signature),
                docstring: None,
                parent_scope: clone_opt(scope),
                line_start: node.start_row + 1,
                line_end: node.end_row + 1,
                byte_start: node.start_byte,
                byte_end: node.end_byte,
            };
            Some(sym)
        },
    }
}


/// Extracts the symbol definitions of source files from their syntax trees.
pub struct AstParser;

impl AstParser {
    fn traverse_node(
        node: &SyntaxNode,
        content: &str,
        lang: Language,
        current_scope: Option<String>,
        symbols: &mut Vec<SymbolInfo>,
    )
        requires
            tree_fits(*node, byte_len(content@) as int),
        ensures
            symbol_views(final(symbols)@) == symbol_views(old(symbols)@)
                + tree_symbols(*node, content@, lang, opt_view(current_scope)),
            ({
                let added = tree_symbols(*node, content@, lang, opt_view(current_scope));
                &&& starts_ascending(added)
                &&& forall|i: int| 0 <= i < added.len() ==> well_placed(#[trigger] added[i], byte_len(content@) as int)
            }),
        decreases node,
    {
        let ghost scope = opt_view(current_scope);
        let ghost start = symbol_views(symbols@);
        let sym = node_symbol_of(node, content, lang, &current_scope);
        let next_scope = match &sym {
            Some(s) => {
                if matches!(s.kind, SymbolKind::Class | SymbolKind::Struct | SymbolKind::Interface | SymbolKind::Trait | SymbolKind::Module) {
                    Some(s.name.clone())
                } else {
                    clone_opt(&current_scope)
                }
            },
            None => clone_opt(&current_scope),
        };
        let ghost own: Seq<SymbolSpec> = match node_symbol(*node, content@, lang, scope) {
            Some(x) => seq![x],
            None => Seq::empty(),
        };
        match sym {
            Some(s) => {
                symbols.push(s);
            },
            None => {},
        }
        proof {
            assert(symbol_views(symbols@) =~= start + own);
            assert(opt_view(next_scope) == inner_scope(*node, content@, lang, scope));
        }
        let n = node.children.len();
        let mut i: usize = 0;
        while i < n
            invariant
                i <= n,
                n == node.children@.len(),
                tree_fits(*node, byte_len(content@) as int),
                symbol_views(symbols@) == start + own
                    + children_symbols(*node, i as int, content@, lang, opt_view(next_scope)),
            decreases n - i,
        {
            let ghost before = symbol_views(symbols@);
            proof {
                lemma_child_fits(*node, n as int, i as int, byte_len(content@) as int);
            }
            Self::traverse_node(&node.children[i], content, lang, clone_opt(&next_scope), symbols);
            proof {
                assert(symbol_views(symbols@) =~= start + own
                    + children_symbols(*node, i + 1, content@, lang, opt_view(next_scope)));
            }
            i = i + 1;
        }
        proof {
            assert(symbol_views(symbols@) =~= start
                + tree_symbols(*node, content@, lang, scope));
            lemma_tree_symbols_placed(*node, content@, lang, scope, byte_len(content@) as int);
        }
    }

    /// The symbols defined in a syntax tree of `content`, in pre-order, which
    /// is the order of their first byte.
    pub fn symbols_from_tree(tree: &SyntaxNode, content: &str, lang: Language) -> (symbols: Vec<SymbolInfo>)
        requires
            tree_fits(*tree, byte_len(content@) as int),
        ensures
            symbol_views(symbols@) == tree_symbols(*tree, content@, lang, None),
            starts_ascending(symbol_views(symbols@)),
            forall|i: int| 0 <= i < symbols@.len() ==> well_placed(#[trigger] symbols@[i]@, byte_len(content@) as int),
    {
        let mut symbols: Vec<SymbolInfo> = Vec::new();
        proof {
            assert(symbol_views(symbols@) =~= Seq::<SymbolSpec>::empty());
        }
        Self::traverse_node(tree, content, lang, None, &mut symbols);
        proof {
            assert(symbol_views(symbols@) =~= tree_symbols(*tree, content@, lang, None));
            assert forall|i: int| 0 <= i < symbols@.len() implies well_placed(#[trigger] symbols@[i]@, byte_len(content@) as int) by {
                assert(symbol_views(symbols@)[i] == symbols@[i]@);
            }
        }
        symbols
    }
}

impl SyntaxNode {
    /// Whether the subtree fits a text of `len` bytes (see `tree_fits`).
    pub fn fits(&self, len: usize) -> (b: bool)
        ensures
            b == tree_fits(*self, len as int),
        decreases self,
    {
        if self.start_row > self.end_row || self.end_row == usize::MAX || self.start_byte > self.end_byte
            || self.end_byte > len {
            return false;
        }
        let n = self.children.len();
        let mut i: usize = 0;
        while i < n
            invariant
                i <= n,
                n == self.children@.len(),
                self.start_row <= self.end_row,
                self.end_row < usize::MAX,
                self.start_byte <= self.end_byte <= len,
                children_fit(*self, i as int, len as int),
            decreases n - i,
        {
            let child = &self.children[i];
            let ordered = i == 0 || self.children[i - 1].end_byte <= child.start_byte;
            if !child.fits(len) || child.start_byte < self.start_byte || child.end_byte > self.end_byte || !ordered {
                proof {
                    if children_fit(*self, n as int, len as int) {
                        lemma_children_fit_prefix(*self, n as int, i + 1, len as int);
                    }
                }
                return false;
            }
            i = i + 1;
        }
        true
    }
}

/// A tree-sitter grammar.
#[verifier::external_type_specification]
#[verifier::external_body]
pub struct ExTsLanguage(TsLanguage);

/// A node of a tree-sitter syntax tree.
#[verifier::external_type_specification]
#[verifier::external_body]
pub struct ExTsNode<'tree>(tree_sitter::Node<'tree>);

/// `tree_sitter_rust::language`: the Rust grammar. Nothing is claimed of the value.
#[verifier::external_body]
fn rust_grammar() -> TsLanguage {
    tree_sitter_rust::language()
}

/// `tree_sitter_python::language`: the Python grammar. Nothing is claimed of the value.
#[verifier::external_body]
fn python_grammar() -> TsLanguage {
    tree_sitter_python::language()
}

/// `tree_sitter_typescript::language_typescript`: the TypeScript grammar. Nothing is claimed of the value.
#[verifier::external_body]
fn typescript_grammar() -> TsLanguage {
    tree_sitter_typescript::language_typescript()
}

/// `tree_sitter_javascript::language`: the JavaScript grammar. Nothing is claimed of the value.
#[verifier::external_body]
fn javascript_grammar() -> TsLanguage {
    tree_sitter_javascript::language()
}

/// `tree_sitter_go::language`: the Go grammar. Nothing is claimed of the value.
#[verifier::external_body]
fn go_grammar() -> TsLanguage {
    tree_sitter_go::language()
}

/// `tree_sitter_java::language`: the Java grammar. Nothing is claimed of the value.
#[verifier::external_body]
fn java_grammar() -> TsLanguage {
    tree_sitter_java::language()
}

/// `tree_sitter_c::language`: the C grammar. Nothing is claimed of the value.
#[verifier::external_body]
fn c_grammar() -> TsLanguage {
    tree_sitter_c::language()
}

/// `tree_sitter_cpp::language`: the C++ grammar. Nothing is claimed of the value.
#[verifier::external_body]
fn cpp_grammar() -> TsLanguage {
    tree_sitter_cpp::language()
}

/// The syntax tree, as plain values (see `SyntaxNode`), that tree-sitter's
/// parser gives for a text with the Rust grammar; none where the parser
/// refuses the grammar or gives no tree.
pub uninterp spec fn rust_tree(content: Seq<char>) -> Option<SyntaxNode>;

/// Parses a text with the Rust grammar (`tree_sitter_rust::language`, then `parse_with_grammar`):
/// the tree named `rust_tree`.
#[verifier::external_body]
fn parse_rust(content: &str) -> (r: Option<SyntaxNode>)
    ensures
        r == rust_tree(content@),
{
    parse_with_grammar(content, &rust_grammar())
}

/// The syntax tree, as plain values (see `SyntaxNode`), that tree-sitter's
/// parser gives for a text with the Python grammar; none where the parser
/// refuses the grammar or gives no tree.
pub uninterp spec fn python_tree(content: Seq<char>) -> Option<SyntaxNode>;

/// Parses a text with the Python grammar (`tree_sitter_python::language`, then `parse_with_grammar`):
/// the tree named `python_tree`.
#[verifier::external_body]
fn parse_python(content: &str) -> (r: Option<SyntaxNode>)
    ensures
        r == python_tree(content@),
{
    parse_with_grammar(content, &python_grammar())
}

/// The syntax tree, as plain values (see `SyntaxNode`), that tree-sitter's
/// parser gives for a text with the TypeScript grammar; none where the parser
/// refuses the grammar or gives no tree.
pub uninterp spec fn typescript_tree(content: Seq<char>) -> Option<SyntaxNode>;

/// Parses a text with the TypeScript grammar (`tree_sitter_typescript::language_typescript`, then `parse_with_grammar`):
/// the tree named `typescript_tree`.
#[verifier::external_body]
fn parse_typescript(content: &str) -> (r: Option<SyntaxNode>)
    ensures
        r == typescript_tree(content@),
{
    parse_with_grammar(content, &typescript_grammar())
}

/// The syntax tree, as plain values (see `SyntaxNode`), that tree-sitter's
/// parser gives for a text with the JavaScript grammar; none where the parser
/// refuses the grammar or gives no tree.
pub uninterp spec fn javascript_tree(content: Seq<char>) -> Option<SyntaxNode>;

/// Parses a text with the JavaScript grammar (`tree_sitter_javascript::language`, then `parse_with_grammar`):
/// the tree named `javascript_tree`.
#[verifier::external_body]
fn parse_javascript(content: &str) -> (r: Option<SyntaxNode>)
    ensures
        r == javascript_tree(content@),
{
    parse_with_grammar(content, &javascript_grammar())
}

/// The syntax tree, as plain values (see `SyntaxNode`), that tree-sitter's
/// parser gives for a text with the Go grammar; none where the parser
/// refuses the grammar or gives no tree.
pub uninterp spec fn go_tree(content: Seq<char>) -> Option<SyntaxNode>;

/// Parses a text with the Go grammar (`tree_sitter_go::language`, then `parse_with_grammar`):
/// the tree named `go_tree`.
#[verifier::external_body]
fn parse_go(content: &str) -> (r: Option<SyntaxNode>)
    ensures
        r == go_tree(content@),
{
    parse_with_grammar(content, &go_grammar())
}

/// The syntax tree, as plain values (see `SyntaxNode`), that tree-sitter's
/// parser gives for a text with the Java grammar; none where the parser
/// refuses the grammar or gives no tree.
pub uninterp spec fn java_tree(content: Seq<char>) -> Option<SyntaxNode>;

/// Parses a text with the Java grammar (`tree_sitter_java::language`, then `parse_with_grammar`):
/// the tree named `java_tree`.
#[verifier::external_body]
fn parse_java(content: &str) -> (r: Option<SyntaxNode>)
    ensures
        r == java_tree(content@),
{
    parse_with_grammar(content, &java_grammar())
}

/// The syntax tree, as plain values (see `SyntaxNode`), that tree-sitter's
/// parser gives for a text with the C grammar; none where the parser
/// refuses the grammar or gives no tree.
pub uninterp spec fn c_tree(content: Seq<char>) -> Option<SyntaxNode>;

/// Parses a text with the C grammar (`tree_sitter_c::language`, then `parse_with_grammar`):
/// the tree named `c_tree`.
#[verifier::external_body]
fn parse_c(content: &str) -> (r: Option<SyntaxNode>)
    ensures
        r == c_tree(content@),
{
    parse_with_grammar(content, &c_grammar())
}

/// The syntax tree, as plain values (see `SyntaxNode`), that tree-sitter's
/// parser gives for a text with the C++ grammar; none where the parser
/// refuses the grammar or gives no tree.
pub uninterp spec fn cpp_tree(content: Seq<char>) -> Option<SyntaxNode>;

/// Parses a text with the C++ grammar (`tree_sitter_cpp::language`, then `parse_with_grammar`):
/// the tree named `cpp_tree`.
#[verifier::external_body]
fn parse_cpp(content: &str) -> (r: Option<SyntaxNode>)
    ensures
        r == cpp_tree(content@),
{
    parse_with_grammar(content, &cpp_grammar())
}

/// Parses a text with a grammar (`Parser::new`, `Parser::set_language`,
/// `Parser::parse`, `Tree::root_node`) and gives the tree as plain values
/// (`plain_node`); none where the grammar is refused or no tree is given.
/// Nothing is claimed of the result here: the callers name it per grammar.
#[verifier::external_body]
fn parse_with_grammar(content: &str, grammar: &TsLanguage) -> Option<SyntaxNode> {
    let mut parser = tree_sitter::Parser::new();
    if parser.set_language(grammar).is_err() {
        return None;
    }
    match parser.parse(content, None) {
        Some(tree) => Some(plain_node(tree.root_node())),
        None => None,
    }
}

/// The syntax tree that tree-sitter gives for a text in a language, by that
/// language's grammar; none for a language without a grammar.
pub open spec fn parsed_tree(content: Seq<char>, lang: Language) -> Option<SyntaxNode> {
    match lang {
        Language::Rust => rust_tree(content),
        Language::Python => python_tree(content),
        Language::TypeScript => typescript_tree(content),
        Language::JavaScript => javascript_tree(content),
        Language::Go => go_tree(content),
        Language::Java => java_tree(content),
        Language::C => c_tree(content),
        Language::Cpp => cpp_tree(content),
        _ => None,
    }
}

/// The subtree under a tree-sitter node as plain values: `Node::kind`,
/// `start_byte`, `end_byte`, the rows of `start_position` and `end_position`,
/// the byte ranges of the `name`, `type` and `declarator` fields
/// (`child_by_field_name`) and the children (`Node::children`), converted
/// one for one. Nothing is claimed of the values.
#[verifier::external_body]
fn plain_node(node: tree_sitter::Node<'_>) -> SyntaxNode {
    let field = |f: &str| node.child_by_field_name(f).map(|c| (c.start_byte(), c.end_byte()));
    let mut cursor = node.walk();
    SyntaxNode {
        kind: node.kind().to_string(),
        start_byte: node.start_byte(),
        end_byte: node.end_byte(),
        start_row: node.start_position().row,
        end_row: node.end_position().row,
        name_field: field("name"),
        type_field: field("type"),
        declarator_field: field("declarator"),
        children: node.children(&mut cursor).map(plain_node).collect(),
    }
}

/// The symbols of a text by its language's parse: those of the parsed tree
/// (see `tree_symbols`) where the language has a grammar, the parse gives a
/// tree and the tree fits the text (see `tree_fits`); none otherwise.
pub open spec fn parsed_symbols(content: Seq<char>, lang: Language) -> Seq<SymbolSpec> {
    if !lang.spec_is_ast_supported() {
        Seq::empty()
    } else {
        match parsed_tree(content, lang) {
            Some(t) => if tree_fits(t, byte_len(content) as int) { tree_symbols(t, content, lang, None) } else { Seq::empty() },
            None => Seq::empty(),
        }
    }
}

impl AstParser {
    /// The tree-sitter grammar of a language, for the languages parsed into syntax trees.
    pub fn get_tree_sitter_language(lang: Language) -> (g: Option<TsLanguage>)
        ensures
            g is Some <==> lang.is_ast_supported(),
    {
        match lang {
            Language::Rust => Some(rust_grammar()),
            Language::Python => Some(python_grammar()),
            Language::TypeScript => Some(typescript_grammar()),
            Language::JavaScript => Some(javascript_grammar()),
            Language::Go => Some(go_grammar()),
            Language::Java => Some(java_grammar()),
            Language::C => Some(c_grammar()),
            Language::Cpp => Some(cpp_grammar()),
            _ => None,
        }
    }

    /// The symbols defined in a source text, in the order of their first byte:
    /// those of the syntax tree that the language's grammar gives (see
    /// `symbols_from_tree`); none where the language has no grammar, parsing
    /// fails, or the tree does not fit the text (see `tree_fits`).
    pub fn parse_symbols(content: &str, lang: Language) -> (symbols: Vec<SymbolInfo>)
        ensures
            symbol_views(symbols@) == parsed_symbols(content@, lang),
            !lang.is_ast_supported() ==> symbols@.len() == 0,
            starts_ascending(symbol_views(symbols@)),
            forall|i: int| 0 <= i < symbols@.len() ==> well_placed(#[trigger] symbols@[i]@, byte_len(content@) as int),
    {
        if Self::get_tree_sitter_language(lang).is_none() {
            let none: Vec<SymbolInfo> = Vec::new();
            assert(symbol_views(none@) =~= Seq::<SymbolSpec>::empty());
            return none;
        }
        let tree = match lang {
            Language::Rust => parse_rust(content),
            Language::Python => parse_python(content),
            Language::TypeScript => parse_typescript(content),
            Language::JavaScript => parse_javascript(content),
            Language::Go => parse_go(content),
            Language::Java => parse_java(content),
            Language::C => parse_c(content),
            Language::Cpp => parse_cpp(content),
            _ => None,
        };
        let root = match tree {
            Some(t) => t,
            None => {
                let none: Vec<SymbolInfo> = Vec::new();
                assert(symbol_views(none@) =~= Seq::<SymbolSpec>::empty());
                return none;
            },
        };
        if !root.fits(utf8_len(content)) {
            let none: Vec<SymbolInfo> = Vec::new();
            assert(symbol_views(none@) =~= Seq::<SymbolSpec>::empty());
            return none;
        }
        Self::symbols_from_tree(&root, content, lang)
    }
}


/// The name that a node gives the symbol it defines when named through a
/// field: the trimmed text of that field, or the node's kind where the node
/// lacks the field.
pub open spec fn named_by(content: Seq<char>, node: SyntaxNode, range: Option<(usize, usize)>) -> Seq<char> {
    match range {
        Some((a, b)) => trim(text_or_empty(content, a as int, b as int)),
        None => node.kind@,
    }
}

/// The trimmed text of a whole node.
pub open spec fn whole_text(content: Seq<char>, node: SyntaxNode) -> Seq<char> {
    trim(text_or_empty(content, node.start_byte as int, node.end_byte as int))
}

/// Whether `r`, the symbol that a node yields in scope `scope`, is a `kind`
/// named `name`: there is one exactly when the name is not empty; it spans
/// the node's lines (1-based) and bytes, has the trimmed first line of the
/// node as signature, no docstring, and the enclosing scope; and the node's
/// children are in scope `name` where the node `opens` a scope and yields a
/// symbol, else in `scope`.
pub open spec fn yields_symbol(
    r: Option<SymbolSpec>,
    node: SyntaxNode,
    content: Seq<char>,
    lang: Language,
    scope: Option<Seq<char>>,
    kind: SymbolKind,
    name: Seq<char>,
    opens: bool,
) -> bool {
    &&& (r is Some <==> name.len() > 0)
    &&& (r matches Some(s) ==> {
        &&& s.kind == kind
        &&& s.name == name
        &&& s.parent_scope == scope
        &&& s.docstring is None
        &&& s.line_start == node.start_row + 1
        &&& s.line_end == node.end_row + 1
        &&& s.byte_start == node.start_byte
        &&& s.byte_end == node.end_byte
        &&& s.signature == trim(first_line(text_or_empty(content, node.start_byte as int, node.end_byte as int)))
    })
    &&& inner_scope(node, content, lang, scope) == if opens && name.len() > 0 { Some(name) } else { scope }
}

/// Rust symbol definitions: each node kind below defines a symbol of the kind given, named
/// by the field given, and every other node kind defines none.
pub proof fn law_rust_symbols(node: SyntaxNode, content: Seq<char>, lang: Language, scope: Option<Seq<char>>)
    requires
        lang == Language::Rust,
    ensures
        ({
            let r = node_symbol(node, content, lang, scope);
            let k = node.kind@;
            &&& k == "function_item"@ ==> yields_symbol(r, node, content, lang, scope, SymbolKind::Function,
                named_by(content, node, node.name_field), false)
            &&& k == "struct_item"@ ==> yields_symbol(r, node, content, lang, scope, SymbolKind::Struct,
                named_by(content, node, node.name_field), true)
            &&& k == "enum_item"@ ==> yields_symbol(r, node, content, lang, scope, SymbolKind::Enum,
                named_by(content, node, node.name_field), false)
            &&& k == "trait_item"@ ==> yields_symbol(r, node, content, lang, scope, SymbolKind::Trait,
                named_by(content, node, node.name_field), true)
            &&& k == "impl_item"@ ==> yields_symbol(r, node, content, lang, scope, SymbolKind::Class,
                named_by(content, node, node.type_field), true)
            &&& k == "type_item"@ ==> yields_symbol(r, node, content, lang, scope, SymbolKind::TypeAlias,
                named_by(content, node, node.name_field), false)
            &&& (k == "const_item"@ || k == "static_item"@) ==> yields_symbol(r, node, content, lang, scope, SymbolKind::Constant,
                named_by(content, node, node.name_field), false)
            &&& k == "mod_item"@ ==> yields_symbol(r, node, content, lang, scope, SymbolKind::Module,
                named_by(content, node, node.name_field), true)
            &&& k == "use_declaration"@ ==> yields_symbol(r, node, content, lang, scope, SymbolKind::Import,
                whole_text(content, node), false)
            &&& !(k == "function_item"@ || k == "struct_item"@ || k == "enum_item"@ || k == "trait_item"@ || k == "impl_item"@ || k == "type_item"@ || k == "const_item"@ || k == "static_item"@ || k == "mod_item"@ || k == "use_declaration"@) ==> r is None
        }),
{
    let k = node.kind@;
    reveal_strlit("function_item");
    reveal_strlit("struct_item");
    reveal_strlit("enum_item");
    reveal_strlit("trait_item");
    reveal_strlit("impl_item");
    reveal_strlit("type_item");
    reveal_strlit("const_item");
    reveal_strlit("static_item");
    reveal_strlit("mod_item");
    reveal_strlit("use_declaration");
    if k == "function_item"@ {
        assert(k.len() == 13);
    }
    if k == "struct_item"@ {
        assert(k.len() == 11);
        assert(k[2] != "static_item"@[2]);
    }
    if k == "enum_item"@ {
        assert(k.len() == 9);
        assert(k[0] != "impl_item"@[0]);
        assert(k[0] != "type_item"@[0]);
    }
    if k == "trait_item"@ {
        assert(k.len() == 10);
        assert(k[0] != "const_item"@[0]);
    }
    if k == "impl_item"@ {
        assert(k.len() == 9);
        assert(k[0] != "enum_item"@[0]);
        assert(k[0] != "type_item"@[0]);
    }
    if k == "type_item"@ {
        assert(k.len() == 9);
        assert(k[0] != "enum_item"@[0]);
        assert(k[0] != "impl_item"@[0]);
    }
    if k == "const_item"@ {
        assert(k.len() == 10);
        assert(k[0] != "trait_item"@[0]);
    }
    if k == "static_item"@ {
        assert(k.len() == 11);
        assert(k[2] != "struct_item"@[2]);
    }
    if k == "mod_item"@ {
        assert(k.len() == 8);
    }
    if k == "use_declaration"@ {
        assert(k.len() == 15);
    }
}

/// Python symbol definitions: each node kind below defines a symbol of the kind given, named
/// by the field given, and every other node kind defines none.
pub proof fn law_python_symbols(node: SyntaxNode, content: Seq<char>, lang: Language, scope: Option<Seq<char>>)
    requires
        lang == Language::Python,
    ensures
        ({
            let r = node_symbol(node, content, lang, scope);
            let k = node.kind@;
            &&& k == "function_definition"@ ==> yields_symbol(r, node, content, lang, scope, (if scope is Some { SymbolKind::Method } else { SymbolKind::Function }),
                named_by(content, node, node.name_field), false)
            &&& k == "class_definition"@ ==> yields_symbol(r, node, content, lang, scope, SymbolKind::Class,
                named_by(content, node, node.name_field), true)
            &&& (k == "import_statement"@ || k == "import_from_statement"@) ==> yields_symbol(r, node, content, lang, scope, SymbolKind::Import,
                whole_text(content, node), false)
            &&& !(k == "function_definition"@ || k == "class_definition"@ || k == "import_statement"@ || k == "import_from_statement"@) ==> r is None
        }),
{
    let k = node.kind@;
    reveal_strlit("function_definition");
    reveal_strlit("class_definition");
    reveal_strlit("import_statement");
    reveal_strlit("import_from_statement");
    if k == "function_definition"@ {
        assert(k.len() == 19);
    }
    if k == "class_definition"@ {
        assert(k.len() == 16);
        assert(k[0] != "import_statement"@[0]);
    }
    if k == "import_statement"@ {
        assert(k.len() == 16);
        assert(k[0] != "class_definition"@[0]);
    }
    if k == "import_from_statement"@ {
        assert(k.len() == 21);
    }
}

/// TypeScript and JavaScript symbol definitions: each node kind below defines a symbol of the kind given, named
/// by the field given, and every other node kind defines none.
pub proof fn law_script_symbols(node: SyntaxNode, content: Seq<char>, lang: Language, scope: Option<Seq<char>>)
    requires
        lang == Language::TypeScript || lang == Language::JavaScript,
    ensures
        ({
            let r = node_symbol(node, content, lang, scope);
            let k = node.kind@;
            &&& (k == "function_declaration"@ || k == "generator_function_declaration"@) ==> yields_symbol(r, node, content, lang, scope, SymbolKind::Function,
                named_by(content, node, node.name_field), false)
            &&& k == "method_definition"@ ==> yields_symbol(r, node, content, lang, scope, SymbolKind::Method,
                named_by(content, node, node.name_field), false)
            &&& k == "class_declaration"@ ==> yields_symbol(r, node, content, lang, scope, SymbolKind::Class,
                named_by(content, node, node.name_field), true)
            &&& k == "interface_declaration"@ ==> yields_symbol(r, node, content, lang, scope, SymbolKind::Interface,
                named_by(content, node, node.name_field), true)
            &&& k == "type_alias_declaration"@ ==> yields_symbol(r, node, content, lang, scope, SymbolKind::TypeAlias,
                named_by(content, node, node.name_field), false)
            &&& k == "enum_declaration"@ ==> yields_symbol(r, node, content, lang, scope, SymbolKind::Enum,
                named_by(content, node, node.name_field), false)
            &&& k == "import_statement"@ ==> yields_symbol(r, node, content, lang, scope, SymbolKind::Import,
                whole_text(content, node), false)
            &&& !(k == "function_declaration"@ || k == "generator_function_declaration"@ || k == "method_definition"@ || k == "class_declaration"@ || k == "interface_declaration"@ || k == "type_alias_declaration"@ || k == "enum_declaration"@ || k == "import_statement"@) ==> r is None
        }),
{
    let k = node.kind@;
    reveal_strlit("function_declaration");
    reveal_strlit("generator_function_declaration");
    reveal_strlit("method_definition");
    reveal_strlit("class_declaration");
    reveal_strlit("interface_declaration");
    reveal_strlit("type_alias_declaration");
    reveal_strlit("enum_declaration");
    reveal_strlit("import_statement");
    if k == "function_declaration"@ {
        assert(k.len() == 20);
    }
    if k == "generator_function_declaration"@ {
        assert(k.len() == 30);
    }
    if k == "method_definition"@ {
        assert(k.len() == 17);
        assert(k[0] != "class_declaration"@[0]);
    }
    if k == "class_declaration"@ {
        assert(k.len() == 17);
        assert(k[0] != "method_definition"@[0]);
    }
    if k == "interface_declaration"@ {
        assert(k.len() == 21);
    }
    if k == "type_alias_declaration"@ {
        assert(k.len() == 22);
    }
    if k == "enum_declaration"@ {
        assert(k.len() == 16);
        assert(k[0] != "import_statement"@[0]);
    }
    if k == "import_statement"@ {
        assert(k.len() == 16);
        assert(k[0] != "enum_declaration"@[0]);
    }
}

/// Go symbol definitions: each node kind below defines a symbol of the kind given, named
/// by the field given, and every other node kind defines none.
pub proof fn law_go_symbols(node: SyntaxNode, content: Seq<char>, lang: Language, scope: Option<Seq<char>>)
    requires
        lang == Language::Go,
    ensures
        ({
            let r = node_symbol(node, content, lang, scope);
            let k = node.kind@;
            &&& k == "function_declaration"@ ==> yields_symbol(r, node, content, lang, scope, SymbolKind::Function,
                named_by(content, node, node.name_field), false)
            &&& k == "method_declaration"@ ==> yields_symbol(r, node, content, lang, scope, SymbolKind::Method,
                named_by(content, node, node.name_field), false)
            &&& k == "type_declaration"@ ==> yields_symbol(r, node, content, lang, scope, SymbolKind::Struct,
                named_by(content, node, node.name_field), true)
            &&& k == "import_declaration"@ ==> yields_symbol(r, node, content, lang, scope, SymbolKind::Import,
                whole_text(content, node), false)
            &&& !(k == "function_declaration"@ || k == "method_declaration"@ || k == "type_declaration"@ || k == "import_declaration"@) ==> r is None
        }),
{
    let k = node.kind@;
    reveal_strlit("function_declaration");
    reveal_strlit("method_declaration");
    reveal_strlit("type_declaration");
    reveal_strlit("import_declaration");
    if k == "function_declaration"@ {
        assert(k.len() == 20);
    }
    if k == "method_declaration"@ {
        assert(k.len() == 18);
        assert(k[0] != "import_declaration"@[0]);
    }
    if k == "type_declaration"@ {
        assert(k.len() == 16);
    }
    if k == "import_declaration"@ {
        assert(k.len() == 18);
        assert(k[0] != "method_declaration"@[0]);
    }
}

/// Java symbol definitions: each node kind below defines a symbol of the kind given, named
/// by the field given, and every other node kind defines none.
pub proof fn law_java_symbols(node: SyntaxNode, content: Seq<char>, lang: Language, scope: Option<Seq<char>>)
    requires
        lang == Language::Java,
    ensures
        ({
            let r = node_symbol(node, content, lang, scope);
            let k = node.kind@;
            &&& k == "class_declaration"@ ==> yields_symbol(r, node, content, lang, scope, SymbolKind::Class,
                named_by(content, node, node.name_field), true)
            &&& k == "interface_declaration"@ ==> yields_symbol(r, node, content, lang, scope, SymbolKind::Interface,
                named_by(content, node, node.name_field), true)
            &&& k == "enum_declaration"@ ==> yields_symbol(r, node, content, lang, scope, SymbolKind::Enum,
                named_by(content, node, node.name_field), false)
            &&& k == "method_declaration"@ ==> yields_symbol(r, node, content, lang, scope, SymbolKind::Method,
                named_by(content, node, node.name_field), false)
            &&& k == "import_declaration"@ ==> yields_symbol(r, node, content, lang, scope, SymbolKind::Import,
                whole_text(content, node), false)
            &&& !(k == "class_declaration"@ || k == "interface_declaration"@ || k == "enum_declaration"@ || k == "method_declaration"@ || k == "import_declaration"@) ==> r is None
        }),
{
    let k = node.kind@;
    reveal_strlit("class_declaration");
    reveal_strlit("interface_declaration");
    reveal_strlit("enum_declaration");
    reveal_strlit("method_declaration");
    reveal_strlit("import_declaration");
    if k == "class_declaration"@ {
        assert(k.len() == 17);
    }
    if k == "interface_declaration"@ {
        assert(k.len() == 21);
    }
    if k == "enum_declaration"@ {
        assert(k.len() == 16);
    }
    if k == "method_declaration"@ {
        assert(k.len() == 18);
        assert(k[0] != "import_declaration"@[0]);
    }
    if k == "import_declaration"@ {
        assert(k.len() == 18);
        assert(k[0] != "method_declaration"@[0]);
    }
}

/// C and C++ symbol definitions: each node kind below defines a symbol of the kind given, named
/// by the field given, and every other node kind defines none.
pub proof fn law_c_symbols(node: SyntaxNode, content: Seq<char>, lang: Language, scope: Option<Seq<char>>)
    requires
        lang == Language::C || lang == Language::Cpp,
    ensures
        ({
            let r = node_symbol(node, content, lang, scope);
            let k = node.kind@;
            &&& k == "function_definition"@ ==> yields_symbol(r, node, content, lang, scope, SymbolKind::Function,
                named_by(content, node, node.declarator_field), false)
            &&& k == "struct_specifier"@ ==> yields_symbol(r, node, content, lang, scope, SymbolKind::Struct,
                named_by(content, node, node.name_field), true)
            &&& k == "class_specifier"@ ==> yields_symbol(r, node, content, lang, scope, SymbolKind::Class,
                named_by(content, node, node.name_field), true)
            &&& k == "enum_specifier"@ ==> yields_symbol(r, node, content, lang, scope, SymbolKind::Enum,
                named_by(content, node, node.name_field), false)
            &&& k == "type_definition"@ ==> yields_symbol(r, node, content, lang, scope, SymbolKind::TypeAlias,
                named_by(content, node, node.declarator_field), false)
            &&& k == "preproc_include"@ ==> yields_symbol(r, node, content, lang, scope, SymbolKind::Import,
                whole_text(content, node), false)
            &&& !(k == "function_definition"@ || k == "struct_specifier"@ || k == "class_specifier"@ || k == "enum_specifier"@ || k == "type_definition"@ || k == "preproc_include"@) ==> r is None
        }),
{
    let k = node.kind@;
    reveal_strlit("function_definition");
    reveal_strlit("struct_specifier");
    reveal_strlit("class_specifier");
    reveal_strlit("enum_specifier");
    reveal_strlit("type_definition");
    reveal_strlit("preproc_include");
    if k == "function_definition"@ {
        assert(k.len() == 19);
    }
    if k == "struct_specifier"@ {
        assert(k.len() == 16);
    }
    if k == "class_specifier"@ {
        assert(k.len() == 15);
        assert(k[0] != "type_definition"@[0]);
        assert(k[0] != "preproc_include"@[0]);
    }
    if k == "enum_specifier"@ {
        assert(k.len() == 14);
    }
    if k == "type_definition"@ {
        assert(k.len() == 15);
        assert(k[0] != "class_specifier"@[0]);
        assert(k[0] != "preproc_include"@[0]);
    }
    if k == "preproc_include"@ {
        assert(k.len() == 15);
        assert(k[0] != "class_specifier"@[0]);
        assert(k[0] != "type_definition"@[0]);
    }
}

/// Files of the languages without a grammar define no symbols.
pub proof fn law_other_languages_have_no_symbols(node: SyntaxNode, content: Seq<char>, lang: Language, scope: Option<Seq<char>>)
    requires
        !lang.spec_is_ast_supported(),
    ensures
        node_symbol(node, content, lang, scope) is None,
        inner_scope(node, content, lang, scope) == scope,
{
}

/// No two symbol kinds share a label, so a label names one kind.
pub proof fn law_kind_labels_distinct(a: SymbolKind, b: SymbolKind)
    ensures
        a.spec_as_str() == b.spec_as_str() ==> a == b,
{
    reveal_strlit("function");
    reveal_strlit("method");
    reveal_strlit("class");
    reveal_strlit("struct");
    reveal_strlit("enum");
    reveal_strlit("interface");
    reveal_strlit("trait");
    reveal_strlit("type");
    reveal_strlit("constant");
    reveal_strlit("module");
    reveal_strlit("import");
    match a {
        SymbolKind::Function => {
            if b == SymbolKind::Method {
                assert("function"@.len() != "method"@.len());
            }
            if b == SymbolKind::Class {
                assert("function"@.len() != "class"@.len());
            }
            if b == SymbolKind::Struct {
                assert("function"@.len() != "struct"@.len());
            }
            if b == SymbolKind::Enum {
                assert("function"@.len() != "enum"@.len());
            }
            if b == SymbolKind::Interface {
                assert("function"@.len() != "interface"@.len());
            }
            if b == SymbolKind::Trait {
                assert("function"@.len() != "trait"@.len());
            }
            if b == SymbolKind::TypeAlias {
                assert("function"@.len() != "type"@.len());
            }
            if b == SymbolKind::Constant {
                assert("function"@[0] != "constant"@[0]);
            }
            if b == SymbolKind::Module {
                assert("function"@.len() != "module"@.len());
            }
            if b == SymbolKind::Import {
                assert("function"@.len() != "import"@.len());
            }
        },
        SymbolKind::Method => {
            if b == SymbolKind::Function {
                assert("method"@.len() != "function"@.len());
            }
            if b == SymbolKind::Class {
                assert("method"@.len() != "class"@.len());
            }
            if b == SymbolKind::Struct {
                assert("method"@[0] != "struct"@[0]);
            }
            if b == SymbolKind::Enum {
                assert("method"@.len() != "enum"@.len());
            }
            if b == SymbolKind::Interface {
                assert("method"@.len() != "interface"@.len());
            }
            if b == SymbolKind::Trait {
                assert("method"@.len() != "trait"@.len());
            }
            if b == SymbolKind::TypeAlias {
                assert("method"@.len() != "type"@.len());
            }
            if b == SymbolKind::Constant {
                assert("method"@.len() != "constant"@.len());
            }
            if b == SymbolKind::Module {
                assert("method"@[1] != "module"@[1]);
            }
            if b == SymbolKind::Import {
                assert("method"@[0] != "import"@[0]);
            }
        },
        SymbolKind::Class => {
            if b == SymbolKind::Function {
                assert("class"@.len() != "function"@.len());
            }
            if b == SymbolKind::Method {
                assert("class"@.len() != "method"@.len());
            }
            if b == SymbolKind::Struct {
                assert("class"@.len() != "struct"@.len());
            }
            if b == SymbolKind::Enum {
                assert("class"@.len() != "enum"@.len());
            }
            if b == SymbolKind::Interface {
                assert("class"@.len() != "interface"@.len());
            }
            if b == SymbolKind::Trait {
                assert("class"@[0] != "trait"@[0]);
            }
            if b == SymbolKind::TypeAlias {
                assert("class"@.len() != "type"@.len());
            }
            if b == SymbolKind::Constant {
                assert("class"@.len() != "constant"@.len());
            }
            if b == SymbolKind::Module {
                assert("class"@.len() != "module"@.len());
            }
            if b == SymbolKind::Import {
                assert("class"@.len() != "import"@.len());
            }
        },
        SymbolKind::Struct => {
            if b == SymbolKind::Function {
                assert("struct"@.len() != "function"@.len());
            }
            if b == SymbolKind::Method {
                assert("struct"@[0] != "method"@[0]);
            }
            if b == SymbolKind::Class {
                assert("struct"@.len() != "class"@.len());
            }
            if b == SymbolKind::Enum {
                assert("struct"@.len() != "enum"@.len());
            }
            if b == SymbolKind::Interface {
                assert("struct"@.len() != "interface"@.len());
            }
            if b == SymbolKind::Trait {
                assert("struct"@.len() != "trait"@.len());
            }
            if b == SymbolKind::TypeAlias {
                assert("struct"@.len() != "type"@.len());
            }
            if b == SymbolKind::Constant {
                assert("struct"@.len() != "constant"@.len());
            }
            if b == SymbolKind::Module {
                assert("struct"@[0] != "module"@[0]);
            }
            if b == SymbolKind::Import {
                assert("struct"@[0] != "import"@[0]);
            }
        },
        SymbolKind::Enum => {
            if b == SymbolKind::Function {
                assert("enum"@.len() != "function"@.len());
            }
            if b == SymbolKind::Method {
                assert("enum"@.len() != "method"@.len());
            }
            if b == SymbolKind::Class {
                assert("enum"@.len() != "class"@.len());
            }
            if b == SymbolKind::Struct {
                assert("enum"@.len() != "struct"@.len());
            }
            if b == SymbolKind::Interface {
                assert("enum"@.len() != "interface"@.len());
            }
            if b == SymbolKind::Trait {
                assert("enum"@.len() != "trait"@.len());
            }
            if b == SymbolKind::TypeAlias {
                assert("enum"@[0] != "type"@[0]);
            }
            if b == SymbolKind::Constant {
                assert("enum"@.len() != "constant"@.len());
            }
            if b == SymbolKind::Module {
                assert("enum"@.len() != "module"@.len());
            }
            if b == SymbolKind::Import {
                assert("enum"@.len() != "import"@.len());
            }
        },
        SymbolKind::Interface => {
            if b == SymbolKind::Function {
                assert("interface"@.len() != "function"@.len());
            }
            if b == SymbolKind::Method {
                assert("interface"@.len() != "method"@.len());
            }
            if b == SymbolKind::Class {
                assert("interface"@.len() != "class"@.len());
            }
            if b == SymbolKind::Struct {
                assert("interface"@.len() != "struct"@.len());
            }
            if b == SymbolKind::Enum {
                assert("interface"@.len() != "enum"@.len());
            }
            if b == SymbolKind::Trait {
                assert("interface"@.len() != "trait"@.len());
            }
            if b == SymbolKind::TypeAlias {
                assert("interface"@.len() != "type"@.len());
            }
            if b == SymbolKind::Constant {
                assert("interface"@.len() != "constant"@.len());
            }
            if b == SymbolKind::Module {
                assert("interface"@.len() != "module"@.len());
            }
            if b == SymbolKind::Import {
                assert("interface"@.len() != "import"@.len());
            }
        },
        SymbolKind::Trait => {
            if b == SymbolKind::Function {
                assert("trait"@.len() != "function"@.len());
            }
            if b == SymbolKind::Method {
                assert("trait"@.len() != "method"@.len());
            }
            if b == SymbolKind::Class {
                assert("trait"@[0] != "class"@[0]);
            }
            if b == SymbolKind::Struct {
                assert("trait"@.len() != "struct"@.len());
            }
            if b == SymbolKind::Enum {
                assert("trait"@.len() != "enum"@.len());
            }
            if b == SymbolKind::Interface {
                assert("trait"@.len() != "interface"@.len());
            }
            if b == SymbolKind::TypeAlias {
                assert("trait"@.len() != "type"@.len());
            }
            if b == SymbolKind::Constant {
                assert("trait"@.len() != "constant"@.len());
            }
            if b == SymbolKind::Module {
                assert("trait"@.len() != "module"@.len());
            }
            if b == SymbolKind::Import {
                assert("trait"@.len() != "import"@.len());
            }
        },
        SymbolKind::TypeAlias => {
            if b == SymbolKind::Function {
                assert("type"@.len() != "function"@.len());
            }
            if b == SymbolKind::Method {
                assert("type"@.len() != "method"@.len());
            }
            if b == SymbolKind::Class {
                assert("type"@.len() != "class"@.len());
            }
            if b == SymbolKind::Struct {
                assert("type"@.len() != "struct"@.len());
            }
            if b == SymbolKind::Enum {
                assert("type"@[0] != "enum"@[0]);
            }
            if b == SymbolKind::Interface {
                assert("type"@.len() != "interface"@.len());
            }
            if b == SymbolKind::Trait {
                assert("type"@.len() != "trait"@.len());
            }
            if b == SymbolKind::Constant {
                assert("type"@.len() != "constant"@.len());
            }
            if b == SymbolKind::Module {
                assert("type"@.len() != "module"@.len());
            }
            if b == SymbolKind::Import {
                assert("type"@.len() != "import"@.len());
            }
        },
        SymbolKind::Constant => {
            if b == SymbolKind::Function {
                assert("constant"@[0] != "function"@[0]);
            }
            if b == SymbolKind::Method {
                assert("constant"@.len() != "method"@.len());
            }
            if b == SymbolKind::Class {
                assert("constant"@.len() != "class"@.len());
            }
            if b == SymbolKind::Struct {
                assert("constant"@.len() != "struct"@.len());
            }
            if b == SymbolKind::Enum {
                assert("constant"@.len() != "enum"@.len());
            }
            if b == SymbolKind::Interface {
                assert("constant"@.len() != "interface"@.len());
            }
            if b == SymbolKind::Trait {
                assert("constant"@.len() != "trait"@.len());
            }
            if b == SymbolKind::TypeAlias {
                assert("constant"@.len() != "type"@.len());
            }
            if b == SymbolKind::Module {
                assert("constant"@.len() != "module"@.len());
            }
            if b == SymbolKind::Import {
                assert("constant"@.len() != "import"@.len());
            }
        },
        SymbolKind::Module => {
            if b == SymbolKind::Function {
                assert("module"@.len() != "function"@.len());
            }
            if b == SymbolKind::Method {
                assert("module"@[1] != "method"@[1]);
            }
            if b == SymbolKind::Class {
                assert("module"@.len() != "class"@.len());
            }
            if b == SymbolKind::Struct {
                assert("module"@[0] != "struct"@[0]);
            }
            if b == SymbolKind::Enum {
                assert("module"@.len() != "enum"@.len());
            }
            if b == SymbolKind::Interface {
                assert("module"@.len() != "interface"@.len());
            }
            if b == SymbolKind::Trait {
                assert("module"@.len() != "trait"@.len());
            }
            if b == SymbolKind::TypeAlias {
                assert("module"@.len() != "type"@.len());
            }
            if b == SymbolKind::Constant {
                assert("module"@.len() != "constant"@.len());
            }
            if b == SymbolKind::Import {
                assert("module"@[0] != "import"@[0]);
            }
        },
        SymbolKind::Import => {
            if b == SymbolKind::Function {
                assert("import"@.len() != "function"@.len());
            }
            if b == SymbolKind::Method {
                assert("import"@[0] != "method"@[0]);
            }
            if b == SymbolKind::Class {
                assert("import"@.len() != "class"@.len());
            }
            if b == SymbolKind::Struct {
                assert("import"@[0] != "struct"@[0]);
            }
            if b == SymbolKind::Enum {
                assert("import"@.len() != "enum"@.len());
            }
            if b == SymbolKind::Interface {
                assert("import"@.len() != "interface"@.len());
            }
            if b == SymbolKind::Trait {
                assert("import"@.len() != "trait"@.len());
            }
            if b == SymbolKind::TypeAlias {
                assert("import"@.len() != "type"@.len());
            }
            if b == SymbolKind::Constant {
                assert("import"@.len() != "constant"@.len());
            }
            if b == SymbolKind::Module {
                assert("import"@[0] != "module"@[0]);
            }
        },
    }
}
} // verus!
