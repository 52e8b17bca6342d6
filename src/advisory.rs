//! The advisory analyzer: quality sub-scores from code metrics and
//! free-text suggestions, taken from an inference backend's reply when there
//! is one and from local heuristics otherwise. Scores are in hundredths.

use vstd::prelude::*;
use crate::analyzer::present_if;
use crate::compat::string_views;
use crate::language::{extension, extension_of};
use crate::score::flag;
use crate::text::{
    chars_of, concat_chars, contains, contains_lit, count_chars, count_matches, is_literal,
    lines_of, lower_of, lowercase, split_lines,
    starts_with, starts_with_lit, string_of, strip_leading, strip_leading_chars, trim,
    trim_chars, trim_start, trim_start_chars, views,
};

verus! {

/// Size and structure counts of a file.
#[derive(Clone, Copy, Debug, PartialEq, Eq, Structural)]
pub struct CodeQualityMetrics {
    pub cyclomatic_complexity: u128,
    pub lines_of_code: usize,
    pub comment_lines: usize,
    pub function_count: u128,
}

pub struct MetricsView {
    pub cyclomatic_complexity: int,
    pub lines_of_code: int,
    pub comment_lines: int,
    pub function_count: int,
}

impl View for CodeQualityMetrics {
    type V = MetricsView;

    open spec fn view(&self) -> MetricsView {
        MetricsView {
            cyclomatic_complexity: self.cyclomatic_complexity as int,
            lines_of_code: self.lines_of_code as int,
            comment_lines: self.comment_lines as int,
            function_count: self.function_count as int,
        }
    }
}

/// A line whose text, after leading white space, opens a comment.
pub open spec fn is_comment_line(l: Seq<char>) -> bool {
    let t = trim_start(l);
    starts_with(t, "//"@) || starts_with(t, "/*"@) || starts_with(t, "*"@)
}

pub open spec fn comment_lines(ls: Seq<Seq<char>>) -> int
    decreases ls.len(),
{
    if ls.len() == 0 {
        0
    } else {
        comment_lines(ls.drop_last()) + flag(is_comment_line(ls.last()), 1)
    }
}

/// Function declarations, counted by keyword.
pub open spec fn function_count(c: Seq<char>) -> int {
    (count_matches(c, "fn "@) + count_matches(c, "def "@) + count_matches(c, "function "@)) as int
}

/// Branching constructs, counted by keyword and operator.
pub open spec fn branch_count(c: Seq<char>) -> int {
    (count_matches(c, "if "@) + count_matches(c, "for "@) + count_matches(c, "while "@)
        + count_matches(c, "match "@) + count_matches(c, "&&"@) + count_matches(c, "||"@)) as int
}

pub open spec fn metrics_of(c: Seq<char>) -> MetricsView {
    MetricsView {
        cyclomatic_complexity: 1 + branch_count(c),
        lines_of_code: lines_of(c).len() as int,
        comment_lines: comment_lines(lines_of(c)),
        function_count: function_count(c),
    }
}

pub open spec fn clamp100(x: int) -> int {
    if x < 0 {
        0
    } else if x > 100 {
        100
    } else {
        x
    }
}

/// Functions average more than fifty lines.
pub open spec fn long_functions(m: MetricsView) -> bool {
    m.function_count > 0 && m.lines_of_code > 50 * m.function_count
}

/// Comments make up more than a tenth and less than three tenths of the lines.
pub open spec fn balanced_comments(m: MetricsView) -> bool {
    m.lines_of_code > 0 && 10 * m.comment_lines > m.lines_of_code && 10 * m.comment_lines < 3
        * m.lines_of_code
}

pub open spec fn complexity_of(m: MetricsView) -> int {
    clamp100(
        100 - (if m.cyclomatic_complexity > 10 {
            30int
        } else if m.cyclomatic_complexity > 5 {
            10int
        } else {
            0int
        }) - flag(long_functions(m), 20) + flag(balanced_comments(m), 10),
    )
}

pub open spec fn maintainability_of(m: MetricsView) -> int {
    clamp100(
        100 - (if m.lines_of_code > 500 {
            40int
        } else if m.lines_of_code > 200 {
            20int
        } else {
            0int
        }) - flag(m.function_count > 20, 30) + flag(
            m.lines_of_code > 0 && 20 * m.comment_lines > m.lines_of_code,
            10,
        ),
    )
}

/// The security sub-score of lowercased content `f`.
pub open spec fn security_of(f: Seq<char>) -> int {
    clamp100(
        100 - flag(contains(f, "password"@), 30) - flag(contains(f, "secret"@), 30) - flag(
            contains(f, "api_key"@),
            40,
        ) - flag(contains(f, "token"@), 20) - flag(contains(f, "eval("@), 50) - flag(
            contains(f, "exec("@),
            50,
        ) - flag(contains(f, "sql"@), 20),
    )
}

/// A structural refactoring proposal.
pub struct RefactoringSuggestion {
    pub title: String,
    pub description: String,
    pub priority: String,
    pub code_example: String,
    pub impact: String,
}

pub struct RefactoringView {
    pub title: Seq<char>,
    pub description: Seq<char>,
    pub priority: Seq<char>,
    pub code_example: Seq<char>,
    pub impact: Seq<char>,
}

impl View for RefactoringSuggestion {
    type V = RefactoringView;

    open spec fn view(&self) -> RefactoringView {
        RefactoringView {
            title: self.title@,
            description: self.description@,
            priority: self.priority@,
            code_example: self.code_example@,
            impact: self.impact@,
        }
    }
}

pub open spec fn refactoring(
    t: Seq<char>,
    d: Seq<char>,
    p: Seq<char>,
    e: Seq<char>,
    i: Seq<char>,
) -> RefactoringView {
    RefactoringView { title: t, description: d, priority: p, code_example: e, impact: i }
}

pub open spec fn refactorings_of(c: Seq<char>, m: MetricsView) -> Seq<RefactoringView> {
    present_if(
        m.cyclomatic_complexity > 10,
        refactoring(
            "Reduce Cyclomatic Complexity"@,
            "Break down complex functions into smaller, more focused functions"@,
            "High"@,
            "// Extract helper functions to reduce complexity"@,
            "High"@,
        ),
    ) + present_if(
        long_functions(m),
        refactoring(
            "Extract Long Functions"@,
            "Split long functions into smaller, more readable functions"@,
            "Medium"@,
            "// Break function into smaller, focused functions"@,
            "Medium"@,
        ),
    ) + present_if(
        contains(c, "unwrap()"@),
        refactoring(
            "Improve Error Handling"@,
            "Replace unwrap() calls with proper error handling"@,
            "High"@,
            "// Use Result types and proper error handling"@,
            "High"@,
        ),
    )
}

pub open spec fn rust_advice(c: Seq<char>) -> Seq<Seq<char>> {
    present_if(
        contains(c, "unwrap()"@),
        "Replace unwrap() with proper error handling using Result types"@,
    ) + present_if(
        contains(c, "println!"@),
        "Use structured logging with tracing instead of println!"@,
    ) + present_if(
        contains(c, "clone()"@) && count_matches(c, "clone()"@) > 3,
        "Consider using references or more efficient data structures to reduce cloning"@,
    )
}

pub open spec fn python_advice(c: Seq<char>) -> Seq<Seq<char>> {
    present_if(
        contains(c, "def "@) && !contains(c, "->"@),
        "Add type hints to function signatures for better code clarity"@,
    ) + present_if(contains(c, "import *"@), "Use specific imports instead of wildcard imports"@)
}

pub open spec fn javascript_advice(c: Seq<char>) -> Seq<Seq<char>> {
    present_if(contains(c, "var "@), "Use const or let instead of var for better scoping"@)
        + present_if(
        contains(c, "function "@) && !contains(c, "=>"@),
        "Consider using arrow functions for consistency"@,
    )
}

pub open spec fn advice_for_extension(e: Option<Seq<char>>, c: Seq<char>) -> Seq<Seq<char>> {
    match e {
        Some(x) => if x == "rs"@ {
            rust_advice(c)
        } else if x == "py"@ {
            python_advice(c)
        } else if x == "js"@ || x == "ts"@ {
            javascript_advice(c)
        } else {
            seq![]
        },
        None => seq![],
    }
}

/// The local heuristic suggestions: by the file's extension, then for a
/// large file and for TODO markers.
pub open spec fn fallback_suggestions(c: Seq<char>, path: Seq<char>) -> Seq<Seq<char>> {
    advice_for_extension(extension_of(path), c) + present_if(
        lines_of(c).len() > 100,
        "Consider breaking down large files into smaller, focused modules"@,
    ) + present_if(contains(c, "TODO"@), "Address TODO comments to improve code completeness"@)
}

/// The suggestion that one line of a backend reply holds: a line that starts
/// with `-` or `*` once trimmed, without those markers, trimmed, if anything
/// is left.
pub open spec fn reply_item(l: Seq<char>) -> Option<Seq<char>> {
    let t = trim(l);
    if starts_with(t, "-"@) || starts_with(t, "*"@) {
        let s = trim(strip_leading(strip_leading(t, '-'), '*'));
        if s.len() > 0 {
            Some(s)
        } else {
            None
        }
    } else {
        None
    }
}

pub open spec fn reply_items(ls: Seq<Seq<char>>) -> Seq<Seq<char>>
    decreases ls.len(),
{
    if ls.len() == 0 {
        seq![]
    } else {
        reply_items(ls.drop_last()) + match reply_item(ls.last()) {
            Some(s) => seq![s],
            None => seq![],
        }
    }
}

/// The suggestions of a backend reply, in line order.
pub open spec fn parse_reply(text: Seq<char>) -> Seq<Seq<char>> {
    reply_items(lines_of(text))
}

fn push_if(v: &mut Vec<String>, b: bool, m: &str)
    ensures
        string_views(final(v)@) == string_views(old(v)@) + present_if(b, m@),
{
    let ghost before = string_views(v@);
    if b {
        v.push(m.to_string());
    }
    assert(string_views(v@) =~= before + present_if(b, m@));
}

fn comment_lines_chars(lines: &Vec<Vec<char>>) -> (r: usize)
    ensures
        r == comment_lines(views(lines@)),
{
    let ghost ls = views(lines@);
    let mut n: usize = 0;
    let mut i: usize = 0;
    assert(ls.take(0) =~= Seq::<Seq<char>>::empty());
    while i < lines.len()
        invariant
            ls == views(lines@),
            i <= ls.len(),
            n <= i,
            n == comment_lines(ls.take(i as int)),
        decreases ls.len() - i,
    {
        let t = trim_start_chars(&lines[i]);
        proof {
            assert(ls.take(i + 1).drop_last() =~= ls.take(i as int));
            assert(ls.take(i + 1).last() == lines@[i as int]@);
        }
        if starts_with_lit(&t, "//") || starts_with_lit(&t, "/*") || starts_with_lit(&t, "*") {
            n = n + 1;
        }
        i = i + 1;
    }
    assert(ls.take(i as int) =~= ls);
    n
}

fn count_lit(c: &Vec<char>, p: &str) -> (r: usize)
    requires
        p@.len() > 0,
    ensures
        r == count_matches(c@, p@),
{
    let pc = chars_of(p);
    count_chars(c, &pc)
}

fn metrics_chars(c: &Vec<char>) -> (r: CodeQualityMetrics)
    ensures
        r@ == metrics_of(c@),
{
    proof {
        reveal_strlit("fn ");
        reveal_strlit("def ");
        reveal_strlit("function ");
        reveal_strlit("if ");
        reveal_strlit("for ");
        reveal_strlit("while ");
        reveal_strlit("match ");
        reveal_strlit("&&");
        reveal_strlit("||");
    }
    let lines = split_lines(c);
    let fns = count_lit(c, "fn ") as u128 + count_lit(c, "def ") as u128 + count_lit(c, "function ") as u128;
    let branches = count_lit(c, "if ") as u128 + count_lit(c, "for ") as u128 + count_lit(c, "while ") as u128
        + count_lit(c, "match ") as u128 + count_lit(c, "&&") as u128 + count_lit(c, "||") as u128;
    CodeQualityMetrics {
        cyclomatic_complexity: 1 + branches,
        lines_of_code: lines.len(),
        comment_lines: comment_lines_chars(&lines),
        function_count: fns,
    }
}

fn has_long_functions(m: &CodeQualityMetrics) -> (r: bool)
    ensures
        r == long_functions(m@),
{
    m.function_count > 0 && m.function_count < 0x1_0000_0000_0000_0000 && (m.lines_of_code as u128)
        > 50 * m.function_count
}

/// The size and structure counts of a file.
pub fn calculate_code_metrics(content: &str) -> (r: CodeQualityMetrics)
    ensures
        r@ == metrics_of(content@),
{
    let c = chars_of(content);
    metrics_chars(&c)
}

/// The complexity sub-score of a file's metrics.
pub fn calculate_complexity_score(m: &CodeQualityMetrics) -> (r: u64)
    ensures
        r == complexity_of(m@),
{
    let mut s: i64 = 100;
    if m.cyclomatic_complexity > 10 {
        s = s - 30;
    } else if m.cyclomatic_complexity > 5 {
        s = s - 10;
    }
    if has_long_functions(m) {
        s = s - 20;
    }
    let loc = m.lines_of_code as u128;
    let cl = m.comment_lines as u128;
    if loc > 0 && 10 * cl > loc && 10 * cl < 3 * loc {
        s = s + 10;
    }
    if s < 0 {
        0
    } else if s > 100 {
        100
    } else {
        s as u64
    }
}

/// The maintainability sub-score of a file's metrics.
pub fn calculate_maintainability_score(m: &CodeQualityMetrics) -> (r: u64)
    ensures
        r == maintainability_of(m@),
{
    let mut s: i64 = 100;
    if m.lines_of_code > 500 {
        s = s - 40;
    } else if m.lines_of_code > 200 {
        s = s - 20;
    }
    if m.function_count > 20 {
        s = s - 30;
    }
    let loc = m.lines_of_code as u128;
    let cl = m.comment_lines as u128;
    if loc > 0 && 20 * cl > loc {
        s = s + 10;
    }
    if s < 0 {
        0
    } else if s > 100 {
        100
    } else {
        s as u64
    }
}

/// The security sub-score of content that is already lowercased.
pub fn security_score_folded(folded: &str) -> (r: u64)
    ensures
        r == security_of(folded@),
{
    let f = chars_of(folded);
    let mut s: i64 = 100;
    if contains_lit(&f, "password") {
        s = s - 30;
    }
    if contains_lit(&f, "secret") {
        s = s - 30;
    }
    if contains_lit(&f, "api_key") {
        s = s - 40;
    }
    if contains_lit(&f, "token") {
        s = s - 20;
    }
    if contains_lit(&f, "eval(") {
        s = s - 50;
    }
    if contains_lit(&f, "exec(") {
        s = s - 50;
    }
    if contains_lit(&f, "sql") {
        s = s - 20;
    }
    if s < 0 {
        0
    } else {
        s as u64
    }
}

/// The security sub-score of a file: its lowercased text is searched for
/// secret-like and injection-prone words.
pub fn calculate_security_score(content: &str) -> (r: u64)
    ensures
        r == security_of(lower_of(content@)),
{
    let folded = lowercase(content);
    security_score_folded(folded.as_str())
}

fn refactoring_of(t: &str, d: &str, p: &str, e: &str, i: &str) -> (r: RefactoringSuggestion)
    ensures
        r@ == refactoring(t@, d@, p@, e@, i@),
{
    RefactoringSuggestion {
        title: t.to_string(),
        description: d.to_string(),
        priority: p.to_string(),
        code_example: e.to_string(),
        impact: i.to_string(),
    }
}

/// The refactoring proposals for a file and its metrics.
pub fn generate_refactoring_suggestions(content: &str, m: &CodeQualityMetrics) -> (r: Vec<RefactoringSuggestion>)
    ensures
        r@.map_values(|x: RefactoringSuggestion| x@) == refactorings_of(content@, m@),
{
    let c = chars_of(content);
    let mut v: Vec<RefactoringSuggestion> = Vec::new();
    if m.cyclomatic_complexity > 10 {
        v.push(refactoring_of(
            "Reduce Cyclomatic Complexity",
            "Break down complex functions into smaller, more focused functions",
            "High",
            "// Extract helper functions to reduce complexity",
            "High",
        ));
    }
    if has_long_functions(m) {
        v.push(refactoring_of(
            "Extract Long Functions",
            "Split long functions into smaller, more readable functions",
            "Medium",
            "// Break function into smaller, focused functions",
            "Medium",
        ));
    }
    if contains_lit(&c, "unwrap()") {
        v.push(refactoring_of(
            "Improve Error Handling",
            "Replace unwrap() calls with proper error handling",
            "High",
            "// Use Result types and proper error handling",
            "High",
        ));
    }
    assert(v@.map_values(|x: RefactoringSuggestion| x@) =~= refactorings_of(content@, m@));
    v
}

/// The local heuristic suggestions for a file.
pub fn get_static_suggestions(content: &str, file_path: &str) -> (r: Vec<String>)
    ensures
        string_views(r@) == fallback_suggestions(content@, file_path@),
{
    let c = chars_of(content);
    let p = chars_of(file_path);
    let mut v: Vec<String> = Vec::new();
    let ghost start = string_views(v@);
    match extension(&p) {
        Some(e) => {
            if is_literal(&e, "rs") {
                push_if(&mut v, contains_lit(&c, "unwrap()"), "Replace unwrap() with proper error handling using Result types");
                push_if(&mut v, contains_lit(&c, "println!"), "Use structured logging with tracing instead of println!");
                proof {
                    reveal_strlit("clone()");
                }
                let many = contains_lit(&c, "clone()") && count_lit(&c, "clone()") > 3;
                push_if(&mut v, many, "Consider using references or more efficient data structures to reduce cloning");
                assert(string_views(v@) =~= rust_advice(c@));
            } else if is_literal(&e, "py") {
                push_if(&mut v, contains_lit(&c, "def ") && !contains_lit(&c, "->"), "Add type hints to function signatures for better code clarity");
                push_if(&mut v, contains_lit(&c, "import *"), "Use specific imports instead of wildcard imports");
                assert(string_views(v@) =~= python_advice(c@));
            } else if is_literal(&e, "js") || is_literal(&e, "ts") {
                push_if(&mut v, contains_lit(&c, "var "), "Use const or let instead of var for better scoping");
                push_if(&mut v, contains_lit(&c, "function ") && !contains_lit(&c, "=>"), "Consider using arrow functions for consistency");
                assert(string_views(v@) =~= javascript_advice(c@));
            } else {
                assert(string_views(v@) =~= Seq::<Seq<char>>::empty());
            }
        },
        None => {
            assert(string_views(v@) =~= Seq::<Seq<char>>::empty());
        },
    }
    let ghost mid = string_views(v@);
    assert(mid == advice_for_extension(extension_of(p@), c@));
    let n = split_lines(&c).len();
    push_if(&mut v, n > 100, "Consider breaking down large files into smaller, focused modules");
    push_if(&mut v, contains_lit(&c, "TODO"), "Address TODO comments to improve code completeness");
    assert(string_views(v@) =~= fallback_suggestions(content@, file_path@));
    v
}

fn reply_item_chars(l: &Vec<char>) -> (r: Option<Vec<char>>)
    ensures
        match r {
            Some(s) => reply_item(l@) == Some(s@),
            None => reply_item(l@) is None,
        },
{
    let t = trim_chars(l);
    if starts_with_lit(&t, "-") || starts_with_lit(&t, "*") {
        let a = strip_leading_chars(&t, '-');
        let b = strip_leading_chars(&a, '*');
        let s = trim_chars(&b);
        if s.len() > 0 {
            Some(s)
        } else {
            None
        }
    } else {
        None
    }
}

/// The suggestions that a backend reply lists.
pub fn parse_ai_suggestions(response_text: &str) -> (r: Vec<String>)
    ensures
        string_views(r@) == parse_reply(response_text@),
{
    let c = chars_of(response_text);
    let lines = split_lines(&c);
    let ghost ls = views(lines@);
    let mut v: Vec<String> = Vec::new();
    let mut i: usize = 0;
    assert(ls.take(0) =~= Seq::<Seq<char>>::empty());
    while i < lines.len()
        invariant
            ls == views(lines@),
            i <= ls.len(),
            string_views(v@) == reply_items(ls.take(i as int)),
        decreases ls.len() - i,
    {
        let ghost before = string_views(v@);
        proof {
            assert(ls.take(i + 1).drop_last() =~= ls.take(i as int));
            assert(ls.take(i + 1).last() == lines@[i as int]@);
        }
        match reply_item_chars(&lines[i]) {
            Some(s) => {
                v.push(string_of(&s));
                assert(string_views(v@) =~= before + seq![s@]);
            },
            None => {
                assert(string_views(v@) =~= before + Seq::<Seq<char>>::empty());
            },
        }
        i = i + 1;
    }
    assert(ls.take(i as int) =~= ls);
    v
}

/// The prompt that asks the inference backend for suggestions on a file.
pub open spec fn prompt_of(content: Seq<char>, path: Seq<char>) -> Seq<char> {
    "Analyze this "@ + match extension_of(path) {
        Some(e) => e,
        None => "unknown"@,
    } + " code and provide specific improvement suggestions:\n\n"@ + content
        + "\n\nProvide 3-5 specific, actionable suggestions for improving code quality, performance, and maintainability."@
}

/// The prompt for a file.
pub fn build_prompt(content: &str, file_path: &str) -> (r: String)
    ensures
        r@ == prompt_of(content@, file_path@),
{
    let p = chars_of(file_path);
    let ext = match extension(&p) {
        Some(e) => e,
        None => chars_of("unknown"),
    };
    let a = concat_chars(&chars_of("Analyze this "), &ext);
    let b = concat_chars(&a, &chars_of(" code and provide specific improvement suggestions:\n\n"));
    let c = concat_chars(&b, &chars_of(content));
    let d = concat_chars(
        &c,
        &chars_of(
            "\n\nProvide 3-5 specific, actionable suggestions for improving code quality, performance, and maintainability.",
        ),
    );
    string_of(&d)
}

/// The result of the advisory analysis.
pub struct LlmAnalysis {
    pub complexity_score: u64,
    pub maintainability_score: u64,
    pub security_score: u64,
    pub ai_suggestions: Vec<String>,
    pub code_quality_metrics: CodeQualityMetrics,
    pub refactoring_suggestions: Vec<RefactoringSuggestion>,
    pub from_backend: bool,
}

/// What the advisory analysis of `content` at `path` holds, given whether the
/// backend is available and what it replied. Without a reply the local
/// heuristics stand in.
pub open spec fn advisory_of(
    available: bool,
    path: Seq<char>,
    content: Seq<char>,
    reply: Option<Seq<char>>,
    a: LlmAnalysis,
) -> bool {
    let m = metrics_of(content);
    let backend = available && reply is Some;
    &&& a.code_quality_metrics@ == m
    &&& a.complexity_score == complexity_of(m)
    &&& a.maintainability_score == maintainability_of(m)
    &&& a.security_score == security_of(lower_of(content))
    &&& a.refactoring_suggestions@.map_values(|x: RefactoringSuggestion| x@) == refactorings_of(
        content,
        m,
    )
    &&& a.from_backend == backend
    &&& string_views(a.ai_suggestions@) == if backend {
        parse_reply(reply->0)
    } else {
        fallback_suggestions(content, path)
    }
}

/// The advisory analyzer. `model_available` tells whether its inference
/// backend answered when it was set up.
pub struct LlmAnalyzer {
    pub model_available: bool,
}

impl LlmAnalyzer {
    pub fn new(model_available: bool) -> (r: LlmAnalyzer)
        ensures
            r.model_available == model_available,
    {
        LlmAnalyzer { model_available }
    }

    /// The advisory analysis of a file, given the backend's reply to its
    /// prompt, if there was one.
    pub fn analyze_code(&self, content: &str, file_path: &str, reply: Option<&str>) -> (r: LlmAnalysis)
        ensures
            advisory_of(
                self.model_available,
                file_path@,
                content@,
                match reply {
                    Some(t) => Some(t@),
                    None => None,
                },
                r,
            ),
    {
        let c = chars_of(content);
        let m = metrics_chars(&c);
        let (ai, from_backend) = match reply {
            Some(t) => {
                if self.model_available {
                    (parse_ai_suggestions(t), true)
                } else {
                    (get_static_suggestions(content, file_path), false)
                }
            },
            None => (get_static_suggestions(content, file_path), false),
        };
        LlmAnalysis {
            complexity_score: calculate_complexity_score(&m),
            maintainability_score: calculate_maintainability_score(&m),
            security_score: calculate_security_score(content),
            ai_suggestions: ai,
            code_quality_metrics: m,
            refactoring_suggestions: generate_refactoring_suggestions(content, &m),
            from_backend,
        }
    }
}

} // verus!
