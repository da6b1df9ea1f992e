//! The table of file extensions the engine's language parsers handle.

use vstd::prelude::*;
use crate::text::str_eq;
use crate::domain::{Error, FileAnalysis};
use crate::parser::engine::{QueryDrivenParser, QueryTexts, qd_parse_result};
use crate::parser::langs::bash::BashConfig;
use crate::parser::langs::go::GoConfig;
use crate::parser::langs::java::JavaConfig;
use crate::parser::langs::rust::RustConfig;
use crate::parser::langs::haskell::HaskellConfig;
use crate::parser::langs::julia::JuliaConfig;
use crate::parser::langs::kotlin::KotlinConfig;
use crate::parser::langs::python::PythonConfig;
use crate::parser::langs::scala::ScalaConfig;
use crate::parser::langs::typescript::{TypeScriptParser, ts_parse_result};
use crate::parser::parse::Grammar;

verus! {

/// Characters of `p` after its last `/`.
pub open spec fn file_name_of(p: Seq<char>) -> Seq<char>
    decreases p.len(),
{
    if p.len() == 0 {
        p
    } else if p.last() == '/' {
        Seq::empty()
    } else {
        file_name_of(p.drop_last()).push(p.last())
    }
}

/// `p` without what a path's file name ignores at its end: separators and
/// `.` components (so `x.py/` and `x.py/.` name `x.py`).
pub open spec fn trim_tail(p: Seq<char>) -> Seq<char>
    decreases p.len(),
{
    if p.len() > 0 && p.last() == '/' {
        trim_tail(p.drop_last())
    } else if p.len() >= 2 && p.last() == '.' && p[p.len() - 2] == '/' {
        trim_tail(p.drop_last())
    } else {
        p
    }
}

/// Index of the last `.` in `f`, if any.
pub open spec fn last_dot(f: Seq<char>) -> Option<int>
    decreases f.len(),
{
    if f.len() == 0 {
        None
    } else if f.last() == '.' {
        Some(f.len() - 1)
    } else {
        last_dot(f.drop_last())
    }
}

/// The extension of a path: what follows the last `.` of its file name
/// (trailing separators and `.` components skipped), when that dot is not
/// the name's first character (and the name is not `..`).
pub open spec fn path_extension(p: Seq<char>) -> Option<Seq<char>> {
    let f = file_name_of(trim_tail(p));
    if f == ".."@ {
        None
    } else {
        match last_dot(f) {
            Some(k) => if k == 0 { None } else { Some(f.subrange(k + 1, f.len() as int)) },
            None => None,
        }
    }
}

/// The extensions handled by the built-in language parsers.
pub open spec fn builtin_extensions() -> Seq<Seq<char>> {
    seq!["rs"@, "py"@, "go"@, "java"@, "scala"@, "sc"@, "hs"@, "jl"@, "sh"@, "bash"@, "kt"@, "kts"@, "ts"@, "tsx"@, "js"@, "jsx"@]
}

/// Central registry mapping file extensions to language parsers.
pub struct ParserRegistry {
    extensions: Vec<String>,
}

impl View for ParserRegistry {
    type V = Seq<Seq<char>>;

    closed spec fn view(&self) -> Seq<Seq<char>> {
        self.extensions@.map_values(|s: String| s@)
    }
}

/// The extension of `path`, computed as `path_extension` describes.
pub fn extension_of(path: &str) -> (r: Option<String>)
    ensures
        match path_extension(path@) {
            Some(e) => r matches Some(s) && s@ == e,
            None => r is None,
        },
{
    let ghost whole = path@;
    let len = path.unicode_len();
    // end of the path once trailing separators and `.` components go
    let mut n = len;
    assert(whole.subrange(0, len as int) =~= whole);
    while n > 0 && (path.get_char(n - 1) == '/' || (n >= 2 && path.get_char(n - 1) == '.' && path.get_char(n - 2) == '/'))
        invariant
            whole == path@,
            len == whole.len(),
            n <= len,
            trim_tail(whole) == trim_tail(whole.subrange(0, n as int)),
        decreases n,
    {
        assert(whole.subrange(0, n as int).drop_last() =~= whole.subrange(0, n - 1));
        n = n - 1;
    }
    let ghost p = whole.subrange(0, n as int);
    assert(trim_tail(p) == p);
    assert(trim_tail(whole) == p);
    // start of the file name
    let mut start = n;
    while start > 0 && path.get_char(start - 1) != '/'
        invariant
            whole == path@,
            p == whole.subrange(0, n as int),
            n <= len,
            len == whole.len(),
            n == p.len(),
            start <= n,
            forall|k: int| start <= k < n ==> p[k] != '/',
        decreases start,
    {
        start = start - 1;
    }
    proof {
        lemma_file_name_of(p, start as int);
    }
    let ghost f = file_name_of(p);
    assert(f == p.subrange(start as int, n as int));
    assert(f == file_name_of(trim_tail(path@)));
    assert(f =~= path@.subrange(start as int, n as int));
    let name = path.substring_char(start, n);
    if str_eq(name, "..") {
        return None;
    }
    let mut d = n;
    while d > start && path.get_char(d - 1) != '.'
        invariant
            whole == path@,
            p == whole.subrange(0, n as int),
            n <= len,
            len == whole.len(),
            n == p.len(),
            start <= d <= n,
            forall|k: int| d <= k < n ==> p[k] != '.',
        decreases d,
    {
        d = d - 1;
    }
    proof {
        lemma_last_dot(f, d - start);
    }
    if d == start || d - 1 == start {
        None
    } else {
        Some(String::from_str(path.substring_char(d, n)))
    }
}

proof fn lemma_file_name_of(p: Seq<char>, start: int)
    requires
        0 <= start <= p.len(),
        forall|k: int| start <= k < p.len() ==> p[k] != '/',
        start > 0 ==> p[start - 1] == '/',
    ensures
        file_name_of(p) == p.subrange(start, p.len() as int),
    decreases p.len(),
{
    if p.len() > start {
        lemma_file_name_of(p.drop_last(), start);
        assert(p.drop_last().subrange(start, p.len() - 1).push(p.last()) =~= p.subrange(start, p.len() as int));
    } else if p.len() > 0 {
        assert(p.subrange(start, p.len() as int) =~= Seq::<char>::empty());
    }
}

proof fn lemma_last_dot(f: Seq<char>, d: int)
    requires
        0 <= d <= f.len(),
        forall|k: int| d <= k < f.len() ==> f[k] != '.',
        d > 0 ==> f[d - 1] == '.',
    ensures
        last_dot(f) == (if d == 0 { None } else { Some(d - 1) }),
    decreases f.len(),
{
    if f.len() > d {
        lemma_last_dot(f.drop_last(), d);
    }
}

impl ParserRegistry {
    /// A registry with every built-in language parser registered.
    pub fn new() -> (r: Self)
        ensures
            r@ == builtin_extensions(),
    {
        let mut extensions: Vec<String> = Vec::new();
        extensions.push(String::from_str("rs"));
        extensions.push(String::from_str("py"));
        extensions.push(String::from_str("go"));
        extensions.push(String::from_str("java"));
        extensions.push(String::from_str("scala"));
        extensions.push(String::from_str("sc"));
        extensions.push(String::from_str("hs"));
        extensions.push(String::from_str("jl"));
        extensions.push(String::from_str("sh"));
        extensions.push(String::from_str("bash"));
        extensions.push(String::from_str("kt"));
        extensions.push(String::from_str("kts"));
        extensions.push(String::from_str("ts"));
        extensions.push(String::from_str("tsx"));
        extensions.push(String::from_str("js"));
        extensions.push(String::from_str("jsx"));
        let r = ParserRegistry { extensions };
        assert(r@ =~= builtin_extensions());
        r
    }

    /// Whether a parser is registered for the extension `ext`.
    pub fn handles_extension(&self, ext: &str) -> (r: bool)
        ensures
            r == self@.contains(ext@),
    {
        let mut i: usize = 0;
        while i < self.extensions.len()
            invariant
                i <= self@.len(),
                forall|j: int| 0 <= j < i ==> self@[j] != ext@,
            decreases self@.len() - i,
        {
            if str_eq(self.extensions[i].as_str(), ext) {
                assert(self@[i as int] == ext@);
                return true;
            }
            i = i + 1;
        }
        false
    }

    /// Whether the file's extension is handled by a registered parser.
    pub fn supports_file(&self, path: &str) -> (r: bool)
        ensures
            r == (path_extension(path@) matches Some(e) && self@.contains(e)),
    {
        match extension_of(path) {
            Some(e) => self.handles_extension(e.as_str()),
            None => false,
        }
    }
}

/// The query texts of each built-in language.
pub struct QueryLibrary {
    pub rust: QueryTexts,
    pub python: QueryTexts,
    pub go: QueryTexts,
    pub java: QueryTexts,
    pub typescript: QueryTexts,
    pub bash: QueryTexts,
    pub haskell: QueryTexts,
    pub julia: QueryTexts,
    pub scala: QueryTexts,
    pub kotlin: QueryTexts,
}

/// The grammar of the built-in language that handles extension `e`.
pub open spec fn ext_grammar(e: Seq<char>) -> Option<Grammar> {
    if e == "rs"@ {
        Some(Grammar::Rust)
    } else if e == "py"@ {
        Some(Grammar::Python)
    } else if e == "go"@ {
        Some(Grammar::Go)
    } else if e == "java"@ {
        Some(Grammar::Java)
    } else if e == "scala"@ || e == "sc"@ {
        Some(Grammar::Scala)
    } else if e == "hs"@ {
        Some(Grammar::Haskell)
    } else if e == "jl"@ {
        Some(Grammar::Julia)
    } else if e == "sh"@ || e == "bash"@ {
        Some(Grammar::Bash)
    } else if e == "kt"@ || e == "kts"@ {
        Some(Grammar::Kotlin)
    } else if e == "ts"@ || e == "tsx"@ || e == "js"@ || e == "jsx"@ {
        Some(Grammar::TypeScript)
    } else {
        None
    }
}

/// The grammar of the built-in language that handles extension `ext`.
fn grammar_for_ext(ext: &str) -> (r: Option<Grammar>)
    ensures
        r == ext_grammar(ext@),
{
    if str_eq(ext, "rs") {
        Some(Grammar::Rust)
    } else if str_eq(ext, "py") {
        Some(Grammar::Python)
    } else if str_eq(ext, "go") {
        Some(Grammar::Go)
    } else if str_eq(ext, "java") {
        Some(Grammar::Java)
    } else if str_eq(ext, "scala") || str_eq(ext, "sc") {
        Some(Grammar::Scala)
    } else if str_eq(ext, "hs") {
        Some(Grammar::Haskell)
    } else if str_eq(ext, "jl") {
        Some(Grammar::Julia)
    } else if str_eq(ext, "sh") || str_eq(ext, "bash") {
        Some(Grammar::Bash)
    } else if str_eq(ext, "kt") || str_eq(ext, "kts") {
        Some(Grammar::Kotlin)
    } else if str_eq(ext, "ts") || str_eq(ext, "tsx") || str_eq(ext, "js") || str_eq(ext, "jsx") {
        Some(Grammar::TypeScript)
    } else {
        None
    }
}

/// What the parser of grammar `g` gives for file `path` with bytes `source`.
pub open spec fn registry_parse(g: Grammar, source: Seq<u8>, path: Seq<char>, lib: &QueryLibrary, r: Result<FileAnalysis, Error>) -> bool {
    match g {
        Grammar::TypeScript => ts_parse_result(source, path, &lib.typescript, r),
        Grammar::Python => qd_parse_result(&PythonConfig, source, path, &lib.python, r),
        Grammar::Bash => qd_parse_result(&BashConfig, source, path, &lib.bash, r),
        Grammar::Haskell => qd_parse_result(&HaskellConfig, source, path, &lib.haskell, r),
        Grammar::Julia => qd_parse_result(&JuliaConfig, source, path, &lib.julia, r),
        Grammar::Scala => qd_parse_result(&ScalaConfig, source, path, &lib.scala, r),
        Grammar::Kotlin => qd_parse_result(&KotlinConfig, source, path, &lib.kotlin, r),
        Grammar::Rust => qd_parse_result(&RustConfig, source, path, &lib.rust, r),
        Grammar::Go => qd_parse_result(&GoConfig, source, path, &lib.go, r),
        Grammar::Java => qd_parse_result(&JavaConfig, source, path, &lib.java, r),
    }
}

/// What a registry with extensions `exts` gives for a file `path` with
/// bytes `source`: an `UnsupportedLanguage` error for a path without an
/// extension (`no extension`) or with one no registered parser handles (the
/// extension); otherwise that parser's result.
pub open spec fn registry_result(
    exts: Seq<Seq<char>>,
    path: Seq<char>,
    source: Seq<u8>,
    queries: &QueryLibrary,
    r: Result<FileAnalysis, Error>,
) -> bool {
    match path_extension(path) {
        None => r matches Err(Error::UnsupportedLanguage(m)) && m@ == "no extension"@,
        Some(e) => if exts.contains(e) && ext_grammar(e) is Some {
            registry_parse(ext_grammar(e)->0, source, path, queries, r)
        } else {
            r matches Err(Error::UnsupportedLanguage(m)) && m@ == e
        },
    }
}

impl ParserRegistry {
    /// Parses a source file with the parser its extension selects. A path
    /// without an extension, or with one no registered parser handles, is
    /// an `UnsupportedLanguage` error; otherwise the result is that
    /// parser's.
    pub fn parse_file(&self, path: &str, source: &[u8], queries: &QueryLibrary) -> (r: Result<FileAnalysis, Error>)
        ensures
            registry_result(self@, path@, source@, queries, r),
    {
        let ext = match extension_of(path) {
            Some(e) => e,
            None => return Err(Error::UnsupportedLanguage(String::from_str("no extension"))),
        };
        if !self.handles_extension(ext.as_str()) {
            return Err(Error::UnsupportedLanguage(ext));
        }
        match grammar_for_ext(ext.as_str()) {
            Some(Grammar::TypeScript) => TypeScriptParser::new().parse_file(source, path, &queries.typescript),
            Some(Grammar::Python) => QueryDrivenParser::new(PythonConfig).parse_file(source, path, &queries.python),
            Some(Grammar::Bash) => QueryDrivenParser::new(BashConfig).parse_file(source, path, &queries.bash),
            Some(Grammar::Haskell) => QueryDrivenParser::new(HaskellConfig).parse_file(source, path, &queries.haskell),
            Some(Grammar::Julia) => QueryDrivenParser::new(JuliaConfig).parse_file(source, path, &queries.julia),
            Some(Grammar::Scala) => QueryDrivenParser::new(ScalaConfig).parse_file(source, path, &queries.scala),
            Some(Grammar::Kotlin) => QueryDrivenParser::new(KotlinConfig).parse_file(source, path, &queries.kotlin),
            Some(Grammar::Rust) => QueryDrivenParser::new(RustConfig).parse_file(source, path, &queries.rust),
            Some(Grammar::Go) => QueryDrivenParser::new(GoConfig).parse_file(source, path, &queries.go),
            Some(Grammar::Java) => QueryDrivenParser::new(JavaConfig).parse_file(source, path, &queries.java),
            None => Err(Error::UnsupportedLanguage(ext)),
        }
    }
}

} // verus!
