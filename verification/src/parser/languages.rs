use vstd::prelude::*;

use crate::text::{chars_eq_str, chars_of, lowercase, string_from_chars, to_lowercase};

verus! {

/// The languages that files are recognised as, by their extension.
#[derive(Debug, Clone, Copy, PartialEq, Eq, Hash, Structural)]
pub enum Language {
    Rust,
    Python,
    TypeScript,
    JavaScript,
    Go,
    Java,
    C,
    Cpp,
    Markdown,
    Json,
    Yaml,
    Toml,
    Unknown,
}

/// The last component of a path: trailing separators and trailing `.`
/// components are skipped, as `Path::file_name` skips them.
pub open spec fn last_component(p: Seq<char>) -> Seq<char>
    decreases p.len(),
{
    if p.len() > 1 && p.last() == '/' {
        last_component(p.drop_last())
    } else if p.len() > 2 && p.last() == '.' && p[p.len() - 2] == '/' {
        last_component(p.drop_last().drop_last())
    } else {
        p.subrange(last_slash_after(p, p.len() as int), p.len() as int)
    }
}

/// The index just after the last `'/'` among the first `end` characters, or 0.
pub open spec fn last_slash_after(p: Seq<char>, end: int) -> int
    decreases end,
{
    if end <= 0 {
        0
    } else if p[end - 1] == '/' {
        end
    } else {
        last_slash_after(p, end - 1)
    }
}

/// The index of the last `'.'` among the first `end` characters, or -1.
pub open spec fn last_dot_before(name: Seq<char>, end: int) -> int
    decreases end,
{
    if end <= 0 {
        -1
    } else if name[end - 1] == '.' {
        end - 1
    } else {
        last_dot_before(name, end - 1)
    }
}

/// The extension of a path, as `Path::extension` gives it: the text after the
/// last `'.'` of the file name, where that `'.'` is not its first character.
pub open spec fn path_extension(p: Seq<char>) -> Option<Seq<char>> {
    let name = last_component(p);
    let d = last_dot_before(name, name.len() as int);
    if d <= 0 {
        None
    } else {
        Some(name.subrange(d + 1, name.len() as int))
    }
}

/// The language that a lower-case extension stands for.
pub open spec fn language_of_extension(e: Seq<char>) -> Language {
    if e == "rs"@ {
        Language::Rust
    } else if e == "py"@ || e == "pyi"@ {
        Language::Python
    } else if e == "ts"@ || e == "tsx"@ || e == "mts"@ || e == "cts"@ {
        Language::TypeScript
    } else if e == "js"@ || e == "jsx"@ || e == "mjs"@ || e == "cjs"@ {
        Language::JavaScript
    } else if e == "go"@ {
        Language::Go
    } else if e == "java"@ {
        Language::Java
    } else if e == "c"@ || e == "h"@ {
        Language::C
    } else if e == "cpp"@ || e == "cxx"@ || e == "cc"@ || e == "hpp"@ || e == "hxx"@ {
        Language::Cpp
    } else if e == "md"@ || e == "markdown"@ {
        Language::Markdown
    } else if e == "json"@ {
        Language::Json
    } else if e == "yaml"@ || e == "yml"@ {
        Language::Yaml
    } else if e == "toml"@ {
        Language::Toml
    } else {
        Language::Unknown
    }
}

/// The language of a path: that of its lower-cased extension, `Unknown` without one.
pub open spec fn language_of_path(p: Seq<char>) -> Language {
    match path_extension(p) {
        Some(e) => language_of_extension(lowercase(e)),
        None => Language::Unknown,
    }
}

fn last_slash_index(p: &Vec<char>, end: usize) -> (r: usize)
    requires
        end <= p@.len(),
    ensures
        r <= end,
        r as int == last_slash_after(p@, end as int),
{
    let mut e = end;
    while e > 0 && p[e - 1] != '/'
        invariant
            e <= end <= p@.len(),
            last_slash_after(p@, e as int) == last_slash_after(p@, end as int),
        decreases e,
    {
        e = e - 1;
    }
    e
}

fn last_component_range(p: &Vec<char>) -> (r: (usize, usize))
    ensures
        r.0 <= r.1 <= p@.len(),
        p@.subrange(r.0 as int, r.1 as int) == last_component(p@),
{
    let mut end = p.len();
    proof {
        assert(p@.subrange(0, end as int) =~= p@);
    }
    while (end > 1 && p[end - 1] == '/') || (end > 2 && p[end - 1] == '.' && p[end - 2] == '/')
        invariant
            end <= p@.len(),
            last_component(p@.subrange(0, end as int)) == last_component(p@),
        decreases end,
    {
        let ghost q = p@.subrange(0, end as int);
        if end > 1 && p[end - 1] == '/' {
            assert(q.drop_last() =~= p@.subrange(0, end - 1));
            end = end - 1;
        } else {
            assert(q.drop_last().drop_last() =~= p@.subrange(0, end - 2));
            end = end - 2;
        }
    }
    let ghost q = p@.subrange(0, end as int);
    let start = last_slash_index(p, end);
    proof {
        assert forall|e: int| 0 <= e <= end implies last_slash_after(q, e) == last_slash_after(p@, e) by {
            lemma_last_slash_prefix(p@, end as int, e);
        }
        assert(q.subrange(start as int, end as int) =~= p@.subrange(start as int, end as int));
    }
    (start, end)
}

proof fn lemma_last_slash_prefix(p: Seq<char>, end: int, e: int)
    requires
        0 <= e <= end <= p.len(),
    ensures
        last_slash_after(p.subrange(0, end), e) == last_slash_after(p, e),
    decreases e,
{
    if e > 0 {
        lemma_last_slash_prefix(p, end, e - 1);
    }
}

impl Language {
    /// The language of a file, by the extension of its path (case-insensitive).
    pub fn from_path(path: &str) -> (lang: Language)
        ensures
            lang == language_of_path(path@),
    {
        let p = chars_of(path);
        let (start, end) = last_component_range(&p);
        let ghost name = p@.subrange(start as int, end as int);
        let mut d = end;
        while d > start && p[d - 1] != '.'
            invariant
                start <= d <= end <= p@.len(),
                name == p@.subrange(start as int, end as int),
                last_dot_before(name, (d - start) as int) == last_dot_before(name, name.len() as int),
            decreases d,
        {
            d = d - 1;
        }
        // `d - start - 1` is the index of the last dot in the name, if any.
        if d - start <= 1 {
            proof {
                if d > start {
                    assert(name[d - start - 1] == '.');
                }
            }
            return Language::Unknown;
        }
        proof {
            assert(name[d - start - 1] == p@[d - 1]);
        }
        let mut ext: Vec<char> = Vec::new();
        let mut k = d;
        while k < end
            invariant
                d <= k <= end <= p@.len(),
                ext@ == p@.subrange(d as int, k as int),
            decreases end - k,
        {
            ext.push(p[k]);
            k = k + 1;
            assert(ext@ =~= p@.subrange(d as int, k as int));
        }
        proof {
            assert(ext@ =~= name.subrange(d - start, name.len() as int));
        }
        let ext_str = string_from_chars(&ext);
        let lower = to_lowercase(ext_str.as_str());
        let lower_chars = chars_of(lower.as_str());
        Language::from_extension(&lower_chars)
    }

    /// The language that a lower-case extension stands for.
    pub fn from_extension(e: &[char]) -> (lang: Language)
        ensures
            lang == language_of_extension(e@),
    {
        if chars_eq_str(e, "rs") {
            Language::Rust
        } else if chars_eq_str(e, "py") || chars_eq_str(e, "pyi") {
            Language::Python
        } else if chars_eq_str(e, "ts") || chars_eq_str(e, "tsx") || chars_eq_str(e, "mts")
            || chars_eq_str(e, "cts") {
            Language::TypeScript
        } else if chars_eq_str(e, "js") || chars_eq_str(e, "jsx") || chars_eq_str(e, "mjs")
            || chars_eq_str(e, "cjs") {
            Language::JavaScript
        } else if chars_eq_str(e, "go") {
            Language::Go
        } else if chars_eq_str(e, "java") {
            Language::Java
        } else if chars_eq_str(e, "c") || chars_eq_str(e, "h") {
            Language::C
        } else if chars_eq_str(e, "cpp") || chars_eq_str(e, "cxx") || chars_eq_str(e, "cc")
            || chars_eq_str(e, "hpp") || chars_eq_str(e, "hxx") {
            Language::Cpp
        } else if chars_eq_str(e, "md") || chars_eq_str(e, "markdown") {
            Language::Markdown
        } else if chars_eq_str(e, "json") {
            Language::Json
        } else if chars_eq_str(e, "yaml") || chars_eq_str(e, "yml") {
            Language::Yaml
        } else if chars_eq_str(e, "toml") {
            Language::Toml
        } else {
            Language::Unknown
        }
    }

    /// Whether symbols of this language are extracted from its syntax tree.
    pub open spec fn spec_is_ast_supported(&self) -> bool {
        match self {
            Language::Rust | Language::Python | Language::TypeScript | Language::JavaScript
            | Language::Go | Language::Java | Language::C | Language::Cpp => true,
            _ => false,
        }
    }

    /// Whether symbols of this language are extracted from its syntax tree.
    #[verifier::when_used_as_spec(spec_is_ast_supported)]
    pub fn is_ast_supported(&self) -> (b: bool)
        ensures
            b == self.spec_is_ast_supported(),
    {
        match self {
            Language::Rust | Language::Python | Language::TypeScript | Language::JavaScript
            | Language::Go | Language::Java | Language::C | Language::Cpp => true,
            _ => false,
        }
    }

    /// The lower-case name of the language.
    pub open spec fn spec_name(self) -> Seq<char> {
        match self {
            Language::Rust => "rust"@,
            Language::Python => "python"@,
            Language::TypeScript => "typescript"@,
            Language::JavaScript => "javascript"@,
            Language::Go => "go"@,
            Language::Java => "java"@,
            Language::C => "c"@,
            Language::Cpp => "cpp"@,
            Language::Markdown => "markdown"@,
            Language::Json => "json"@,
            Language::Yaml => "yaml"@,
            Language::Toml => "toml"@,
            Language::Unknown => "unknown"@,
        }
    }

    /// The lower-case name of the language.
    pub fn name(&self) -> (s: &'static str)
        ensures
            s@ == self.spec_name(),
    {
        match self {
            Language::Rust => "rust",
            Language::Python => "python",
            Language::TypeScript => "typescript",
            Language::JavaScript => "javascript",
            Language::Go => "go",
            Language::Java => "java",
            Language::C => "c",
            Language::Cpp => "cpp",
            Language::Markdown => "markdown",
            Language::Json => "json",
            Language::Yaml => "yaml",
            Language::Toml => "toml",
            Language::Unknown => "unknown",
        }
    }
}


/// The language of a path is fixed by the lower-cased extension of its file
/// name, by this table; a path without an extension, or with any other
/// extension, is of no known language.
#[verifier::rlimit(60)]
pub proof fn law_language_by_extension(p: Seq<char>)
    ensures
        ({
            let l = language_of_path(p);
            match path_extension(p) {
                None => l == Language::Unknown,
                Some(e) => {
                    let x = lowercase(e);
                    &&& x == "rs"@ ==> l == Language::Rust
                    &&& (x == "py"@ || x == "pyi"@) ==> l == Language::Python
                    &&& (x == "ts"@ || x == "tsx"@ || x == "mts"@ || x == "cts"@) ==> l == Language::TypeScript
                    &&& (x == "js"@ || x == "jsx"@ || x == "mjs"@ || x == "cjs"@) ==> l == Language::JavaScript
                    &&& x == "go"@ ==> l == Language::Go
                    &&& x == "java"@ ==> l == Language::Java
                    &&& (x == "c"@ || x == "h"@) ==> l == Language::C
                    &&& (x == "cpp"@ || x == "cxx"@ || x == "cc"@ || x == "hpp"@ || x == "hxx"@) ==> l == Language::Cpp
                    &&& (x == "md"@ || x == "markdown"@) ==> l == Language::Markdown
                    &&& x == "json"@ ==> l == Language::Json
                    &&& (x == "yaml"@ || x == "yml"@) ==> l == Language::Yaml
                    &&& x == "toml"@ ==> l == Language::Toml
                    &&& l == Language::Unknown <== !(x == "rs"@ || x == "py"@ || x == "pyi"@ || x == "ts"@ || x == "tsx"@
                        || x == "mts"@ || x == "cts"@ || x == "js"@ || x == "jsx"@ || x == "mjs"@ || x == "cjs"@
                        || x == "go"@ || x == "java"@ || x == "c"@ || x == "h"@ || x == "cpp"@ || x == "cxx"@
                        || x == "cc"@ || x == "hpp"@ || x == "hxx"@ || x == "md"@ || x == "markdown"@ || x == "json"@
                        || x == "yaml"@ || x == "yml"@ || x == "toml"@)
                },
            }
        }),
{
    reveal_strlit("rs");
    reveal_strlit("py");
    reveal_strlit("pyi");
    reveal_strlit("ts");
    reveal_strlit("tsx");
    reveal_strlit("mts");
    reveal_strlit("cts");
    reveal_strlit("js");
    reveal_strlit("jsx");
    reveal_strlit("mjs");
    reveal_strlit("cjs");
    reveal_strlit("go");
    reveal_strlit("java");
    reveal_strlit("c");
    reveal_strlit("h");
    reveal_strlit("cpp");
    reveal_strlit("cxx");
    reveal_strlit("cc");
    reveal_strlit("hpp");
    reveal_strlit("hxx");
    reveal_strlit("md");
    reveal_strlit("markdown");
    reveal_strlit("json");
    reveal_strlit("yaml");
    reveal_strlit("yml");
    reveal_strlit("toml");
    match path_extension(p) {
        None => {},
        Some(e) => {
            let x = lowercase(e);
            assert(language_of_path(p) == language_of_extension(x));
            if x == "rs"@ {
                assert(x.len() == 2);
                assert(x[0] != "py"@[0]);
                assert(x[0] != "ts"@[0]);
                assert(x[0] != "js"@[0]);
                assert(x[0] != "go"@[0]);
                assert(x[0] != "cc"@[0]);
                assert(x[0] != "md"@[0]);
                assert(language_of_extension(x) == language_of_extension("rs"@));
            }
            if x == "py"@ {
                assert(x.len() == 2);
                assert(x[0] != "rs"@[0]);
                assert(x[0] != "ts"@[0]);
                assert(x[0] != "js"@[0]);
                assert(x[0] != "go"@[0]);
                assert(x[0] != "cc"@[0]);
                assert(x[0] != "md"@[0]);
                assert(language_of_extension(x) == language_of_extension("py"@));
            }
            if x == "pyi"@ {
                assert(x.len() == 3);
                assert(x[0] != "tsx"@[0]);
                assert(x[0] != "mts"@[0]);
                assert(x[0] != "cts"@[0]);
                assert(x[0] != "jsx"@[0]);
                assert(x[0] != "mjs"@[0]);
                assert(x[0] != "cjs"@[0]);
                assert(x[0] != "cpp"@[0]);
                assert(x[0] != "cxx"@[0]);
                assert(x[0] != "hpp"@[0]);
                assert(x[0] != "hxx"@[0]);
                assert(x[0] != "yml"@[0]);
                assert(language_of_extension(x) == language_of_extension("pyi"@));
            }
            if x == "ts"@ {
                assert(x.len() == 2);
                assert(x[0] != "rs"@[0]);
                assert(x[0] != "py"@[0]);
                assert(x[0] != "js"@[0]);
                assert(x[0] != "go"@[0]);
                assert(x[0] != "cc"@[0]);
                assert(x[0] != "md"@[0]);
                assert(language_of_extension(x) == language_of_extension("ts"@));
            }
            if x == "tsx"@ {
                assert(x.len() == 3);
                assert(x[0] != "pyi"@[0]);
                assert(x[0] != "mts"@[0]);
                assert(x[0] != "cts"@[0]);
                assert(x[0] != "jsx"@[0]);
                assert(x[0] != "mjs"@[0]);
                assert(x[0] != "cjs"@[0]);
                assert(x[0] != "cpp"@[0]);
                assert(x[0] != "cxx"@[0]);
                assert(x[0] != "hpp"@[0]);
                assert(x[0] != "hxx"@[0]);
                assert(x[0] != "yml"@[0]);
                assert(language_of_extension(x) == language_of_extension("tsx"@));
            }
            if x == "mts"@ {
                assert(x.len() == 3);
                assert(x[0] != "pyi"@[0]);
                assert(x[0] != "tsx"@[0]);
                assert(x[0] != "cts"@[0]);
                assert(x[0] != "jsx"@[0]);
                assert(x[1] != "mjs"@[1]);
                assert(x[0] != "cjs"@[0]);
                assert(x[0] != "cpp"@[0]);
                assert(x[0] != "cxx"@[0]);
                assert(x[0] != "hpp"@[0]);
                assert(x[0] != "hxx"@[0]);
                assert(x[0] != "yml"@[0]);
                assert(language_of_extension(x) == language_of_extension("mts"@));
            }
            if x == "cts"@ {
                assert(x.len() == 3);
                assert(x[0] != "pyi"@[0]);
                assert(x[0] != "tsx"@[0]);
                assert(x[0] != "mts"@[0]);
                assert(x[0] != "jsx"@[0]);
                assert(x[0] != "mjs"@[0]);
                assert(x[1] != "cjs"@[1]);
                assert(x[1] != "cpp"@[1]);
                assert(x[1] != "cxx"@[1]);
                assert(x[0] != "hpp"@[0]);
                assert(x[0] != "hxx"@[0]);
                assert(x[0] != "yml"@[0]);
                assert(language_of_extension(x) == language_of_extension("cts"@));
            }
            if x == "js"@ {
                assert(x.len() == 2);
                assert(x[0] != "rs"@[0]);
                assert(x[0] != "py"@[0]);
                assert(x[0] != "ts"@[0]);
                assert(x[0] != "go"@[0]);
                assert(x[0] != "cc"@[0]);
                assert(x[0] != "md"@[0]);
                assert(language_of_extension(x) == language_of_extension("js"@));
            }
            if x == "jsx"@ {
                assert(x.len() == 3);
                assert(x[0] != "pyi"@[0]);
                assert(x[0] != "tsx"@[0]);
                assert(x[0] != "mts"@[0]);
                assert(x[0] != "cts"@[0]);
                assert(x[0] != "mjs"@[0]);
                assert(x[0] != "cjs"@[0]);
                assert(x[0] != "cpp"@[0]);
                assert(x[0] != "cxx"@[0]);
                assert(x[0] != "hpp"@[0]);
                assert(x[0] != "hxx"@[0]);
                assert(x[0] != "yml"@[0]);
                assert(language_of_extension(x) == language_of_extension("jsx"@));
            }
            if x == "mjs"@ {
                assert(x.len() == 3);
                assert(x[0] != "pyi"@[0]);
                assert(x[0] != "tsx"@[0]);
                assert(x[1] != "mts"@[1]);
                assert(x[0] != "cts"@[0]);
                assert(x[0] != "jsx"@[0]);
                assert(x[0] != "cjs"@[0]);
                assert(x[0] != "cpp"@[0]);
                assert(x[0] != "cxx"@[0]);
                assert(x[0] != "hpp"@[0]);
                assert(x[0] != "hxx"@[0]);
                assert(x[0] != "yml"@[0]);
                assert(language_of_extension(x) == language_of_extension("mjs"@));
            }
            if x == "cjs"@ {
                assert(x.len() == 3);
                assert(x[0] != "pyi"@[0]);
                assert(x[0] != "tsx"@[0]);
                assert(x[0] != "mts"@[0]);
                assert(x[1] != "cts"@[1]);
                assert(x[0] != "jsx"@[0]);
                assert(x[0] != "mjs"@[0]);
                assert(x[1] != "cpp"@[1]);
                assert(x[1] != "cxx"@[1]);
                assert(x[0] != "hpp"@[0]);
                assert(x[0] != "hxx"@[0]);
                assert(x[0] != "yml"@[0]);
                assert(language_of_extension(x) == language_of_extension("cjs"@));
            }
            if x == "go"@ {
                assert(x.len() == 2);
                assert(x[0] != "rs"@[0]);
                assert(x[0] != "py"@[0]);
                assert(x[0] != "ts"@[0]);
                assert(x[0] != "js"@[0]);
                assert(x[0] != "cc"@[0]);
                assert(x[0] != "md"@[0]);
                assert(language_of_extension(x) == language_of_extension("go"@));
            }
            if x == "java"@ {
                assert(x.len() == 4);
                assert(x[1] != "json"@[1]);
                assert(x[0] != "yaml"@[0]);
                assert(x[0] != "toml"@[0]);
                assert(language_of_extension(x) == language_of_extension("java"@));
            }
            if x == "c"@ {
                assert(x.len() == 1);
                assert(x[0] != "h"@[0]);
                assert(language_of_extension(x) == language_of_extension("c"@));
            }
            if x == "h"@ {
                assert(x.len() == 1);
                assert(x[0] != "c"@[0]);
                assert(language_of_extension(x) == language_of_extension("h"@));
            }
            if x == "cpp"@ {
                assert(x.len() == 3);
                assert(x[0] != "pyi"@[0]);
                assert(x[0] != "tsx"@[0]);
                assert(x[0] != "mts"@[0]);
                assert(x[1] != "cts"@[1]);
                assert(x[0] != "jsx"@[0]);
                assert(x[0] != "mjs"@[0]);
                assert(x[1] != "cjs"@[1]);
                assert(x[1] != "cxx"@[1]);
                assert(x[0] != "hpp"@[0]);
                assert(x[0] != "hxx"@[0]);
                assert(x[0] != "yml"@[0]);
                assert(language_of_extension(x) == language_of_extension("cpp"@));
            }
            if x == "cxx"@ {
                assert(x.len() == 3);
                assert(x[0] != "pyi"@[0]);
                assert(x[0] != "tsx"@[0]);
                assert(x[0] != "mts"@[0]);
                assert(x[1] != "cts"@[1]);
                assert(x[0] != "jsx"@[0]);
                assert(x[0] != "mjs"@[0]);
                assert(x[1] != "cjs"@[1]);
                assert(x[1] != "cpp"@[1]);
                assert(x[0] != "hpp"@[0]);
                assert(x[0] != "hxx"@[0]);
                assert(x[0] != "yml"@[0]);
                assert(language_of_extension(x) == language_of_extension("cxx"@));
            }
            if x == "cc"@ {
                assert(x.len() == 2);
                assert(x[0] != "rs"@[0]);
                assert(x[0] != "py"@[0]);
                assert(x[0] != "ts"@[0]);
                assert(x[0] != "js"@[0]);
                assert(x[0] != "go"@[0]);
                assert(x[0] != "md"@[0]);
                assert(language_of_extension(x) == language_of_extension("cc"@));
            }
            if x == "hpp"@ {
                assert(x.len() == 3);
                assert(x[0] != "pyi"@[0]);
                assert(x[0] != "tsx"@[0]);
                assert(x[0] != "mts"@[0]);
                assert(x[0] != "cts"@[0]);
                assert(x[0] != "jsx"@[0]);
                assert(x[0] != "mjs"@[0]);
                assert(x[0] != "cjs"@[0]);
                assert(x[0] != "cpp"@[0]);
                assert(x[0] != "cxx"@[0]);
                assert(x[1] != "hxx"@[1]);
                assert(x[0] != "yml"@[0]);
                assert(language_of_extension(x) == language_of_extension("hpp"@));
            }
            if x == "hxx"@ {
                assert(x.len() == 3);
                assert(x[0] != "pyi"@[0]);
                assert(x[0] != "tsx"@[0]);
                assert(x[0] != "mts"@[0]);
                assert(x[0] != "cts"@[0]);
                assert(x[0] != "jsx"@[0]);
                assert(x[0] != "mjs"@[0]);
                assert(x[0] != "cjs"@[0]);
                assert(x[0] != "cpp"@[0]);
                assert(x[0] != "cxx"@[0]);
                assert(x[1] != "hpp"@[1]);
                assert(x[0] != "yml"@[0]);
                assert(language_of_extension(x) == language_of_extension("hxx"@));
            }
            if x == "md"@ {
                assert(x.len() == 2);
                assert(x[0] != "rs"@[0]);
                assert(x[0] != "py"@[0]);
                assert(x[0] != "ts"@[0]);
                assert(x[0] != "js"@[0]);
                assert(x[0] != "go"@[0]);
                assert(x[0] != "cc"@[0]);
                assert(language_of_extension(x) == language_of_extension("md"@));
            }
            if x == "markdown"@ {
                assert(x.len() == 8);
                assert(language_of_extension(x) == language_of_extension("markdown"@));
            }
            if x == "json"@ {
                assert(x.len() == 4);
                assert(x[1] != "java"@[1]);
                assert(x[0] != "yaml"@[0]);
                assert(x[0] != "toml"@[0]);
                assert(language_of_extension(x) == language_of_extension("json"@));
            }
            if x == "yaml"@ {
                assert(x.len() == 4);
                assert(x[0] != "java"@[0]);
                assert(x[0] != "json"@[0]);
                assert(x[0] != "toml"@[0]);
                assert(language_of_extension(x) == language_of_extension("yaml"@));
            }
            if x == "yml"@ {
                assert(x.len() == 3);
                assert(x[0] != "pyi"@[0]);
                assert(x[0] != "tsx"@[0]);
                assert(x[0] != "mts"@[0]);
                assert(x[0] != "cts"@[0]);
                assert(x[0] != "jsx"@[0]);
                assert(x[0] != "mjs"@[0]);
                assert(x[0] != "cjs"@[0]);
                assert(x[0] != "cpp"@[0]);
                assert(x[0] != "cxx"@[0]);
                assert(x[0] != "hpp"@[0]);
                assert(x[0] != "hxx"@[0]);
                assert(language_of_extension(x) == language_of_extension("yml"@));
            }
            if x == "toml"@ {
                assert(x.len() == 4);
                assert(x[0] != "java"@[0]);
                assert(x[0] != "json"@[0]);
                assert(x[0] != "yaml"@[0]);
                assert(language_of_extension(x) == language_of_extension("toml"@));
            }
        },
    }
}

proof fn lemma_last_slash_bounds(p: Seq<char>, end: int)
    ensures
        0 <= last_slash_after(p, end),
        end >= 0 ==> last_slash_after(p, end) <= end,
        end > 0 && p[end - 1] != '/' ==> last_slash_after(p, end) < end,
    decreases end,
{
    if end > 0 {
        lemma_last_slash_bounds(p, end - 1);
    }
}

proof fn lemma_last_slash_skips(p: Seq<char>, from: int, end: int)
    requires
        0 <= from <= end <= p.len(),
        forall|j: int| from <= j < end ==> p[j] != '/',
    ensures
        last_slash_after(p, end) == last_slash_after(p, from),
    decreases end,
{
    if end > from {
        lemma_last_slash_skips(p, from, end - 1);
    }
}

proof fn lemma_last_dot_skips(name: Seq<char>, from: int, end: int)
    requires
        0 <= from <= end <= name.len(),
        forall|j: int| from <= j < end ==> name[j] != '.',
    ensures
        last_dot_before(name, end) == last_dot_before(name, from),
    decreases end,
{
    if end > from {
        lemma_last_dot_skips(name, from, end - 1);
    }
}

/// A file name `stem.ext` has the extension `ext`: for a path `q` that does
/// not end in a separator, followed by `.` and an extension without `.` or
/// `/`, the extension is that last part.
pub proof fn law_extension_of_path(q: Seq<char>, e: Seq<char>)
    requires
        q.len() > 0,
        q.last() != '/',
        e.len() > 0,
        forall|i: int| 0 <= i < e.len() ==> (#[trigger] e[i]) != '.' && e[i] != '/',
    ensures
        path_extension(q + seq!['.'] + e) == Some(e),
{
    let p = q + seq!['.'] + e;
    let n = p.len() as int;
    let m = q.len() as int;
    assert(p[n - 1] == e[e.len() - 1]);
    assert(p.last() == e[e.len() - 1]);
    assert(forall|j: int| m <= j < n ==> p[j] != '/') by {
        assert forall|j: int| m <= j < n implies p[j] != '/' by {
            if j > m {
                assert(p[j] == e[j - m - 1]);
            }
        }
    }
    lemma_last_slash_skips(p, m, n);
    assert(p[m - 1] == q.last());
    lemma_last_slash_bounds(p, m);
    let ls = last_slash_after(p, n);
    assert(last_component(p) == p.subrange(ls, n));
    let name = p.subrange(ls, n);
    let dq = m - ls;
    assert(1 <= dq);
    assert(name[dq] == '.');
    assert forall|j: int| dq + 1 <= j < name.len() implies name[j] != '.' by {
        assert(name[j] == e[j - dq - 1]);
    }
    lemma_last_dot_skips(name, dq + 1, name.len() as int);
    assert(last_dot_before(name, dq + 1) == dq);
    assert(name.subrange(dq + 1, name.len() as int) =~= e);
}

/// No two languages share a name, so a name stands for one language.
pub proof fn law_language_names_distinct(a: Language, b: Language)
    ensures
        a.spec_name() == b.spec_name() ==> a == b,
{
    reveal_strlit("rust");
    reveal_strlit("python");
    reveal_strlit("typescript");
    reveal_strlit("javascript");
    reveal_strlit("go");
    reveal_strlit("java");
    reveal_strlit("c");
    reveal_strlit("cpp");
    reveal_strlit("markdown");
    reveal_strlit("json");
    reveal_strlit("yaml");
    reveal_strlit("toml");
    reveal_strlit("unknown");
    match a {
        Language::Rust => {
            if b == Language::Python {
                assert("rust"@.len() != "python"@.len());
            }
            if b == Language::TypeScript {
                assert("rust"@.len() != "typescript"@.len());
            }
            if b == Language::JavaScript {
                assert("rust"@.len() != "javascript"@.len());
            }
            if b == Language::Go {
                assert("rust"@.len() != "go"@.len());
            }
            if b == Language::Java {
                assert("rust"@[0] != "java"@[0]);
            }
            if b == Language::C {
                assert("rust"@.len() != "c"@.len());
            }
            if b == Language::Cpp {
                assert("rust"@.len() != "cpp"@.len());
            }
            if b == Language::Markdown {
                assert("rust"@.len() != "markdown"@.len());
            }
            if b == Language::Json {
                assert("rust"@[0] != "json"@[0]);
            }
            if b == Language::Yaml {
                assert("rust"@[0] != "yaml"@[0]);
            }
            if b == Language::Toml {
                assert("rust"@[0] != "toml"@[0]);
            }
            if b == Language::Unknown {
                assert("rust"@.len() != "unknown"@.len());
            }
        },
        Language::Python => {
            if b == Language::Rust {
                assert("python"@.len() != "rust"@.len());
            }
            if b == Language::TypeScript {
                assert("python"@.len() != "typescript"@.len());
            }
            if b == Language::JavaScript {
                assert("python"@.len() != "javascript"@.len());
            }
            if b == Language::Go {
                assert("python"@.len() != "go"@.len());
            }
            if b == Language::Java {
                assert("python"@.len() != "java"@.len());
            }
            if b == Language::C {
                assert("python"@.len() != "c"@.len());
            }
            if b == Language::Cpp {
                assert("python"@.len() != "cpp"@.len());
            }
            if b == Language::Markdown {
                assert("python"@.len() != "markdown"@.len());
            }
            if b == Language::Json {
                assert("python"@.len() != "json"@.len());
            }
            if b == Language::Yaml {
                assert("python"@.len() != "yaml"@.len());
            }
            if b == Language::Toml {
                assert("python"@.len() != "toml"@.len());
            }
            if b == Language::Unknown {
                assert("python"@.len() != "unknown"@.len());
            }
        },
        Language::TypeScript => {
            if b == Language::Rust {
                assert("typescript"@.len() != "rust"@.len());
            }
            if b == Language::Python {
                assert("typescript"@.len() != "python"@.len());
            }
            if b == Language::JavaScript {
                assert("typescript"@[0] != "javascript"@[0]);
            }
            if b == Language::Go {
                assert("typescript"@.len() != "go"@.len());
            }
            if b == Language::Java {
                assert("typescript"@.len() != "java"@.len());
            }
            if b == Language::C {
                assert("typescript"@.len() != "c"@.len());
            }
            if b == Language::Cpp {
                assert("typescript"@.len() != "cpp"@.len());
            }
            if b == Language::Markdown {
                assert("typescript"@.len() != "markdown"@.len());
            }
            if b == Language::Json {
                assert("typescript"@.len() != "json"@.len());
            }
            if b == Language::Yaml {
                assert("typescript"@.len() != "yaml"@.len());
            }
            if b == Language::Toml {
                assert("typescript"@.len() != "toml"@.len());
            }
            if b == Language::Unknown {
                assert("typescript"@.len() != "unknown"@.len());
            }
        },
        Language::JavaScript => {
            if b == Language::Rust {
                assert("javascript"@.len() != "rust"@.len());
            }
            if b == Language::Python {
                assert("javascript"@.len() != "python"@.len());
            }
            if b == Language::TypeScript {
                assert("javascript"@[0] != "typescript"@[0]);
            }
            if b == Language::Go {
                assert("javascript"@.len() != "go"@.len());
            }
            if b == Language::Java {
                assert("javascript"@.len() != "java"@.len());
            }
            if b == Language::C {
                assert("javascript"@.len() != "c"@.len());
            }
            if b == Language::Cpp {
                assert("javascript"@.len() != "cpp"@.len());
            }
            if b == Language::Markdown {
                assert("javascript"@.len() != "markdown"@.len());
            }
            if b == Language::Json {
                assert("javascript"@.len() != "json"@.len());
            }
            if b == Language::Yaml {
                assert("javascript"@.len() != "yaml"@.len());
            }
            if b == Language::Toml {
                assert("javascript"@.len() != "toml"@.len());
            }
            if b == Language::Unknown {
                assert("javascript"@.len() != "unknown"@.len());
            }
        },
        Language::Go => {
            if b == Language::Rust {
                assert("go"@.len() != "rust"@.len());
            }
            if b == Language::Python {
                assert("go"@.len() != "python"@.len());
            }
            if b == Language::TypeScript {
                assert("go"@.len() != "typescript"@.len());
            }
            if b == Language::JavaScript {
                assert("go"@.len() != "javascript"@.len());
            }
            if b == Language::Java {
                assert("go"@.len() != "java"@.len());
            }
            if b == Language::C {
                assert("go"@.len() != "c"@.len());
            }
            if b == Language::Cpp {
                assert("go"@.len() != "cpp"@.len());
            }
            if b == Language::Markdown {
                assert("go"@.len() != "markdown"@.len());
            }
            if b == Language::Json {
                assert("go"@.len() != "json"@.len());
            }
            if b == Language::Yaml {
                assert("go"@.len() != "yaml"@.len());
            }
            if b == Language::Toml {
                assert("go"@.len() != "toml"@.len());
            }
            if b == Language::Unknown {
                assert("go"@.len() != "unknown"@.len());
            }
        },
        Language::Java => {
            if b == Language::Rust {
                assert("java"@[0] != "rust"@[0]);
            }
            if b == Language::Python {
                assert("java"@.len() != "python"@.len());
            }
            if b == Language::TypeScript {
                assert("java"@.len() != "typescript"@.len());
            }
            if b == Language::JavaScript {
                assert("java"@.len() != "javascript"@.len());
            }
            if b == Language::Go {
                assert("java"@.len() != "go"@.len());
            }
            if b == Language::C {
                assert("java"@.len() != "c"@.len());
            }
            if b == Language::Cpp {
                assert("java"@.len() != "cpp"@.len());
            }
            if b == Language::Markdown {
                assert("java"@.len() != "markdown"@.len());
            }
            if b == Language::Json {
                assert("java"@[1] != "json"@[1]);
            }
            if b == Language::Yaml {
                assert("java"@[0] != "yaml"@[0]);
            }
            if b == Language::Toml {
                assert("java"@[0] != "toml"@[0]);
            }
            if b == Language::Unknown {
                assert("java"@.len() != "unknown"@.len());
            }
        },
        Language::C => {
            if b == Language::Rust {
                assert("c"@.len() != "rust"@.len());
            }
            if b == Language::Python {
                assert("c"@.len() != "python"@.len());
            }
            if b == Language::TypeScript {
                assert("c"@.len() != "typescript"@.len());
            }
            if b == Language::JavaScript {
                assert("c"@.len() != "javascript"@.len());
            }
            if b == Language::Go {
                assert("c"@.len() != "go"@.len());
            }
            if b == Language::Java {
                assert("c"@.len() != "java"@.len());
            }
            if b == Language::Cpp {
                assert("c"@.len() != "cpp"@.len());
            }
            if b == Language::Markdown {
                assert("c"@.len() != "markdown"@.len());
            }
            if b == Language::Json {
                assert("c"@.len() != "json"@.len());
            }
            if b == Language::Yaml {
                assert("c"@.len() != "yaml"@.len());
            }
            if b == Language::Toml {
                assert("c"@.len() != "toml"@.len());
            }
            if b == Language::Unknown {
                assert("c"@.len() != "unknown"@.len());
            }
        },
        Language::Cpp => {
            if b == Language::Rust {
                assert("cpp"@.len() != "rust"@.len());
            }
            if b == Language::Python {
                assert("cpp"@.len() != "python"@.len());
            }
            if b == Language::TypeScript {
                assert("cpp"@.len() != "typescript"@.len());
            }
            if b == Language::JavaScript {
                assert("cpp"@.len() != "javascript"@.len());
            }
            if b == Language::Go {
                assert("cpp"@.len() != "go"@.len());
            }
            if b == Language::Java {
                assert("cpp"@.len() != "java"@.len());
            }
            if b == Language::C {
                assert("cpp"@.len() != "c"@.len());
            }
            if b == Language::Markdown {
                assert("cpp"@.len() != "markdown"@.len());
            }
            if b == Language::Json {
                assert("cpp"@.len() != "json"@.len());
            }
            if b == Language::Yaml {
                assert("cpp"@.len() != "yaml"@.len());
            }
            if b == Language::Toml {
                assert("cpp"@.len() != "toml"@.len());
            }
            if b == Language::Unknown {
                assert("cpp"@.len() != "unknown"@.len());
            }
        },
        Language::Markdown => {
            if b == Language::Rust {
                assert("markdown"@.len() != "rust"@.len());
            }
            if b == Language::Python {
                assert("markdown"@.len() != "python"@.len());
            }
            if b == Language::TypeScript {
                assert("markdown"@.len() != "typescript"@.len());
            }
            if b == Language::JavaScript {
                assert("markdown"@.len() != "javascript"@.len());
            }
            if b == Language::Go {
                assert("markdown"@.len() != "go"@.len());
            }
            if b == Language::Java {
                assert("markdown"@.len() != "java"@.len());
            }
            if b == Language::C {
                assert("markdown"@.len() != "c"@.len());
            }
            if b == Language::Cpp {
                assert("markdown"@.len() != "cpp"@.len());
            }
            if b == Language::Json {
                assert("markdown"@.len() != "json"@.len());
            }
            if b == Language::Yaml {
                assert("markdown"@.len() != "yaml"@.len());
            }
            if b == Language::Toml {
                assert("markdown"@.len() != "toml"@.len());
            }
            if b == Language::Unknown {
                assert("markdown"@.len() != "unknown"@.len());
            }
        },
        Language::Json => {
            if b == Language::Rust {
                assert("json"@[0] != "rust"@[0]);
            }
            if b == Language::Python {
                assert("json"@.len() != "python"@.len());
            }
            if b == Language::TypeScript {
                assert("json"@.len() != "typescript"@.len());
            }
            if b == Language::JavaScript {
                assert("json"@.len() != "javascript"@.len());
            }
            if b == Language::Go {
                assert("json"@.len() != "go"@.len());
            }
            if b == Language::Java {
                assert("json"@[1] != "java"@[1]);
            }
            if b == Language::C {
                assert("json"@.len() != "c"@.len());
            }
            if b == Language::Cpp {
                assert("json"@.len() != "cpp"@.len());
            }
            if b == Language::Markdown {
                assert("json"@.len() != "markdown"@.len());
            }
            if b == Language::Yaml {
                assert("json"@[0] != "yaml"@[0]);
            }
            if b == Language::Toml {
                assert("json"@[0] != "toml"@[0]);
            }
            if b == Language::Unknown {
                assert("json"@.len() != "unknown"@.len());
            }
        },
        Language::Yaml => {
            if b == Language::Rust {
                assert("yaml"@[0] != "rust"@[0]);
            }
            if b == Language::Python {
                assert("yaml"@.len() != "python"@.len());
            }
            if b == Language::TypeScript {
                assert("yaml"@.len() != "typescript"@.len());
            }
            if b == Language::JavaScript {
                assert("yaml"@.len() != "javascript"@.len());
            }
            if b == Language::Go {
                assert("yaml"@.len() != "go"@.len());
            }
            if b == Language::Java {
                assert("yaml"@[0] != "java"@[0]);
            }
            if b == Language::C {
                assert("yaml"@.len() != "c"@.len());
            }
            if b == Language::Cpp {
                assert("yaml"@.len() != "cpp"@.len());
            }
            if b == Language::Markdown {
                assert("yaml"@.len() != "markdown"@.len());
            }
            if b == Language::Json {
                assert("yaml"@[0] != "json"@[0]);
            }
            if b == Language::Toml {
                assert("yaml"@[0] != "toml"@[0]);
            }
            if b == Language::Unknown {
                assert("yaml"@.len() != "unknown"@.len());
            }
        },
        Language::Toml => {
            if b == Language::Rust {
                assert("toml"@[0] != "rust"@[0]);
            }
            if b == Language::Python {
                assert("toml"@.len() != "python"@.len());
            }
            if b == Language::TypeScript {
                assert("toml"@.len() != "typescript"@.len());
            }
            if b == Language::JavaScript {
                assert("toml"@.len() != "javascript"@.len());
            }
            if b == Language::Go {
                assert("toml"@.len() != "go"@.len());
            }
            if b == Language::Java {
                assert("toml"@[0] != "java"@[0]);
            }
            if b == Language::C {
                assert("toml"@.len() != "c"@.len());
            }
            if b == Language::Cpp {
                assert("toml"@.len() != "cpp"@.len());
            }
            if b == Language::Markdown {
                assert("toml"@.len() != "markdown"@.len());
            }
            if b == Language::Json {
                assert("toml"@[0] != "json"@[0]);
            }
            if b == Language::Yaml {
                assert("toml"@[0] != "yaml"@[0]);
            }
            if b == Language::Unknown {
                assert("toml"@.len() != "unknown"@.len());
            }
        },
        Language::Unknown => {
            if b == Language::Rust {
                assert("unknown"@.len() != "rust"@.len());
            }
            if b == Language::Python {
                assert("unknown"@.len() != "python"@.len());
            }
            if b == Language::TypeScript {
                assert("unknown"@.len() != "typescript"@.len());
            }
            if b == Language::JavaScript {
                assert("unknown"@.len() != "javascript"@.len());
            }
            if b == Language::Go {
                assert("unknown"@.len() != "go"@.len());
            }
            if b == Language::Java {
                assert("unknown"@.len() != "java"@.len());
            }
            if b == Language::C {
                assert("unknown"@.len() != "c"@.len());
            }
            if b == Language::Cpp {
                assert("unknown"@.len() != "cpp"@.len());
            }
            if b == Language::Markdown {
                assert("unknown"@.len() != "markdown"@.len());
            }
            if b == Language::Json {
                assert("unknown"@.len() != "json"@.len());
            }
            if b == Language::Yaml {
                assert("unknown"@.len() != "yaml"@.len());
            }
            if b == Language::Toml {
                assert("unknown"@.len() != "toml"@.len());
            }
        },
    }
}
} // verus!
