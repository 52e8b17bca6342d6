//! Language classification from a file's extension or, failing that, its
//! content.

use vstd::prelude::*;
use crate::text::{chars_of, contains, contains_lit, is_literal};

verus! {

/// The closed set of language tags.
#[derive(Clone, Copy, Debug, PartialEq, Eq, Structural)]
pub enum Language {
    Rust,
    Python,
    JavaScript,
    Java,
    Cpp,
    Go,
    Unknown,
}

/// The name of each tag.
pub open spec fn tag_of(l: Language) -> Seq<char> {
    match l {
        Language::Rust => "rust"@,
        Language::Python => "python"@,
        Language::JavaScript => "javascript"@,
        Language::Java => "java"@,
        Language::Cpp => "cpp"@,
        Language::Go => "go"@,
        Language::Unknown => "unknown"@,
    }
}

impl Language {
    /// The tag's name.
    pub fn name(&self) -> (r: String)
        ensures
            r@ == tag_of(*self),
    {
        match self {
            Language::Rust => "rust".to_string(),
            Language::Python => "python".to_string(),
            Language::JavaScript => "javascript".to_string(),
            Language::Java => "java".to_string(),
            Language::Cpp => "cpp".to_string(),
            Language::Go => "go".to_string(),
            Language::Unknown => "unknown".to_string(),
        }
    }
}

/// The position of the dot that starts the extension of a path: the last dot
/// of the last path component, when it is not that component's first
/// character.
pub open spec fn extension_dot(p: Seq<char>, d: int) -> bool {
    &&& 0 < d < p.len()
    &&& p[d] == '.'
    &&& p[d - 1] != '/'
    &&& forall|k: int| d < k < p.len() ==> p[k] != '.' && p[k] != '/'
}

/// A path without the separators and `.` components at its end, which do
/// not name its last component.
pub open spec fn trim_tail(p: Seq<char>) -> Seq<char>
    decreases p.len(),
{
    if p.len() > 0 && p.last() == '/' {
        trim_tail(p.drop_last())
    } else if p.len() >= 2 && p.last() == '.' && p[p.len() - 2] == '/' {
        trim_tail(p.drop_last())
    } else {
        p
    }
}

/// The last component of a trimmed path is `..`.
pub open spec fn ends_in_parent(q: Seq<char>) -> bool {
    q == ".."@ || (q.len() >= 3 && q.last() == '.' && q[q.len() - 2] == '.' && q[q.len() - 3] == '/')
}

/// The extension of a path, without its dot: that of its last component,
/// once trailing separators and `.` components are dropped; a `..`
/// component has none.
pub open spec fn extension_of(p: Seq<char>) -> Option<Seq<char>> {
    let q = trim_tail(p);
    if ends_in_parent(q) {
        None
    } else if exists|d: int| extension_dot(q, d) {
        Some(q.skip((choose|d: int| extension_dot(q, d)) + 1))
    } else {
        None
    }
}

/// The path with its trailing separators and `.` components dropped.
fn trimmed_tail(path: &Vec<char>) -> (r: Vec<char>)
    ensures
        r@ == trim_tail(path@),
{
    let mut k: usize = path.len();
    assert(path@.take(k as int) =~= path@);
    loop
        invariant
            k <= path@.len(),
            trim_tail(path@) == trim_tail(path@.take(k as int)),
        ensures
            k <= path@.len(),
            trim_tail(path@) == path@.take(k as int),
        decreases k,
    {
        let ghost t = path@.take(k as int);
        if k > 0 && path[k - 1] == '/' {
            assert(t.drop_last() =~= path@.take(k - 1));
            k = k - 1;
        } else if k >= 2 && path[k - 1] == '.' && path[k - 2] == '/' {
            assert(t.drop_last() =~= path@.take(k - 1));
            k = k - 1;
        } else {
            assert(trim_tail(t) == t);
            break;
        }
    }
    let r = crate::text::slice_chars(path, 0, k);
    assert(r@ =~= path@.take(k as int));
    r
}

/// The extension of a path.
pub fn extension(path: &Vec<char>) -> (r: Option<Vec<char>>)
    ensures
        match r {
            Some(e) => extension_of(path@) == Some(e@),
            None => extension_of(path@) is None,
        },
{
    let q = trimmed_tail(path);
    let n = q.len();
    if (n == 2 && q[0] == '.' && q[1] == '.') || (n >= 3 && q[n - 1] == '.' && q[n - 2] == '.' && q[n - 3] == '/') {
        proof {
            reveal_strlit("..");
            if n == 2 {
                assert(q@ =~= ".."@);
            }
        }
        return None;
    }
    proof {
        reveal_strlit("..");
        if q@ == ".."@ {
            assert(q@[0] == '.' && q@[1] == '.');
        }
    }
    extension_of_name(&q)
}

/// The extension of a trimmed path whose last component is not `..`.
fn extension_of_name(path: &Vec<char>) -> (r: Option<Vec<char>>)
    ensures
        match r {
            Some(e) => (exists|d: int| extension_dot(path@, d)) && e@ == path@.skip((choose|d: int| extension_dot(path@, d)) + 1),
            None => !exists|d: int| extension_dot(path@, d),
        },
{
    let mut k: usize = path.len();
    while k > 0 && path[k - 1] != '.' && path[k - 1] != '/'
        invariant
            k <= path@.len(),
            forall|j: int| k <= j < path@.len() ==> path@[j] != '.' && path@[j] != '/',
        decreases k,
    {
        k = k - 1;
    }
    if k == 0 || path[k - 1] == '/' || k - 1 == 0 || path[k - 2] == '/' {
        assert forall|d: int| !extension_dot(path@, d) by {
            if extension_dot(path@, d) {
                if d < k - 1 {
                    assert(path@[k - 1] == '.' || path@[k - 1] == '/');
                }
            }
        }
        return None;
    }
    let d = k - 1;
    assert(extension_dot(path@, d as int));
    proof {
        let c = choose|e: int| extension_dot(path@, e);
        if c < d {
            assert(path@[d as int] == '.');
        }
        if c > d {
            assert(path@[c] == '.');
        }
    }
    let mut e: Vec<char> = Vec::new();
    let mut i: usize = k;
    while i < path.len()
        invariant
            k <= i <= path@.len(),
            e@ == path@.subrange(k as int, i as int),
        decreases path@.len() - i,
    {
        e.push(path[i]);
        proof {
            assert(path@.subrange(k as int, i + 1) =~= path@.subrange(k as int, i as int).push(
                path@[i as int],
            ));
        }
        i = i + 1;
    }
    assert(e@ =~= path@.skip(k as int));
    Some(e)
}

/// The language that an extension names, if it names one.
pub open spec fn language_of_extension(e: Seq<char>) -> Option<Language> {
    if e == "rs"@ {
        Some(Language::Rust)
    } else if e == "py"@ {
        Some(Language::Python)
    } else if e == "js"@ || e == "ts"@ {
        Some(Language::JavaScript)
    } else if e == "java"@ {
        Some(Language::Java)
    } else if e == "cpp"@ || e == "cc"@ || e == "cxx"@ {
        Some(Language::Cpp)
    } else if e == "go"@ {
        Some(Language::Go)
    } else {
        None
    }
}

/// The language that content suggests: the first keyword pair that it holds.
pub open spec fn language_of_content(c: Seq<char>) -> Language {
    if contains(c, "fn "@) && contains(c, "use "@) {
        Language::Rust
    } else if contains(c, "def "@) && contains(c, "import "@) {
        Language::Python
    } else if contains(c, "function "@) && (contains(c, "const "@) || contains(c, "let "@)) {
        Language::JavaScript
    } else if contains(c, "public class "@) || contains(c, "public static void main"@) {
        Language::Java
    } else if contains(c, "#include "@) && contains(c, "int main"@) {
        Language::Cpp
    } else if contains(c, "package "@) && contains(c, "func "@) {
        Language::Go
    } else {
        Language::Unknown
    }
}

/// The language that keyword pairs of Rust, Python or JavaScript suggest.
pub open spec fn language_of_keywords(c: Seq<char>) -> Language {
    if contains(c, "fn "@) && contains(c, "use "@) {
        Language::Rust
    } else if contains(c, "def "@) && contains(c, "import "@) {
        Language::Python
    } else if contains(c, "function "@) && (contains(c, "const "@) || contains(c, "let "@)) {
        Language::JavaScript
    } else {
        Language::Unknown
    }
}

/// Classification: the extension decides where it names a language, the
/// Rust, Python and JavaScript keyword pairs otherwise.
pub open spec fn classify(path: Seq<char>, content: Seq<char>) -> Language {
    match extension_of(path) {
        Some(e) => match language_of_extension(e) {
            Some(l) => l,
            None => language_of_keywords(content),
        },
        None => language_of_keywords(content),
    }
}

/// The language that an extension names.
pub fn extension_language(e: &Vec<char>) -> (r: Option<Language>)
    ensures
        r == language_of_extension(e@),
{
    if is_literal(e, "rs") {
        Some(Language::Rust)
    } else if is_literal(e, "py") {
        Some(Language::Python)
    } else if is_literal(e, "js") || is_literal(e, "ts") {
        Some(Language::JavaScript)
    } else if is_literal(e, "java") {
        Some(Language::Java)
    } else if is_literal(e, "cpp") || is_literal(e, "cc") || is_literal(e, "cxx") {
        Some(Language::Cpp)
    } else if is_literal(e, "go") {
        Some(Language::Go)
    } else {
        None
    }
}

/// Sniffing of the Rust, Python and JavaScript keyword pairs.
pub fn keyword_language(c: &Vec<char>) -> (r: Language)
    ensures
        r == language_of_keywords(c@),
{
    if contains_lit(c, "fn ") && contains_lit(c, "use ") {
        Language::Rust
    } else if contains_lit(c, "def ") && contains_lit(c, "import ") {
        Language::Python
    } else if contains_lit(c, "function ") && (contains_lit(c, "const ") || contains_lit(c, "let ")) {
        Language::JavaScript
    } else {
        Language::Unknown
    }
}

/// Content sniffing over every language's keywords, for stored files.
pub fn content_language(c: &Vec<char>) -> (r: Language)
    ensures
        r == language_of_content(c@),
{
    if contains_lit(c, "fn ") && contains_lit(c, "use ") {
        Language::Rust
    } else if contains_lit(c, "def ") && contains_lit(c, "import ") {
        Language::Python
    } else if contains_lit(c, "function ") && (contains_lit(c, "const ") || contains_lit(c, "let ")) {
        Language::JavaScript
    } else if contains_lit(c, "public class ") || contains_lit(c, "public static void main") {
        Language::Java
    } else if contains_lit(c, "#include ") && contains_lit(c, "int main") {
        Language::Cpp
    } else if contains_lit(c, "package ") && contains_lit(c, "func ") {
        Language::Go
    } else {
        Language::Unknown
    }
}

/// Classifies a file from its path's characters and its content's.
pub fn classify_chars(path: &Vec<char>, content: &Vec<char>) -> (r: Language)
    ensures
        r == classify(path@, content@),
{
    match extension(path) {
        Some(e) => match extension_language(&e) {
            Some(l) => l,
            None => keyword_language(content),
        },
        None => keyword_language(content),
    }
}

/// The extensions of the files that a review takes up.
pub open spec fn is_code_extension(e: Seq<char>) -> bool {
    e == "rs"@ || e == "js"@ || e == "ts"@ || e == "py"@ || e == "java"@ || e == "cpp"@
        || e == "c"@ || e == "go"@ || e == "php"@ || e == "wasm"@
}

/// Whether a path names a file that a review takes up.
pub fn is_code_file(path: &str) -> (r: bool)
    ensures
        r == match extension_of(path@) {
            Some(e) => is_code_extension(e),
            None => false,
        },
{
    let p = chars_of(path);
    match extension(&p) {
        Some(e) => is_literal(&e, "rs") || is_literal(&e, "js") || is_literal(&e, "ts")
            || is_literal(&e, "py") || is_literal(&e, "java") || is_literal(&e, "cpp")
            || is_literal(&e, "c") || is_literal(&e, "go") || is_literal(&e, "php")
            || is_literal(&e, "wasm"),
        None => false,
    }
}

} // verus!
