//! The rule catalog: per-language tables of anti-pattern and best-practice
//! rules. Rules are data; matching them is the analyzer's job.

use vstd::prelude::*;
use crate::language::Language;

verus! {

/// How serious an issue is.
#[derive(Clone, Copy, Debug, PartialEq, Eq, Structural)]
pub enum Severity {
    Low,
    Medium,
    High,
    Critical,
}

/// How much a suggestion would improve the code.
#[derive(Clone, Copy, Debug, PartialEq, Eq, Structural)]
pub enum Impact {
    Low,
    Medium,
    High,
}

/// What an issue concerns.
#[derive(Clone, Copy, Debug, PartialEq, Eq, Structural)]
pub enum IssueCategory {
    Security,
    Performance,
    Maintainability,
    Style,
    Documentation,
    ErrorHandling,
}

/// What a suggestion concerns.
#[derive(Clone, Copy, Debug, PartialEq, Eq, Structural)]
pub enum SuggestionCategory {
    Optimization,
    Refactoring,
    Documentation,
    Testing,
    Security,
    Performance,
}

/// A line that contains `pattern` has an issue with this message, severity
/// and category.
pub struct AntiPattern {
    pub pattern: String,
    pub message: String,
    pub severity: Severity,
    pub category: IssueCategory,
}

/// A file that contains `pattern` earns a suggestion with this text, impact
/// and category.
pub struct BestPractice {
    pub pattern: String,
    pub suggestion: String,
    pub impact: Impact,
    pub category: SuggestionCategory,
}

/// The rules of one language.
pub struct LanguageRules {
    pub language: Language,
    pub keywords: Vec<String>,
    pub anti_patterns: Vec<AntiPattern>,
    pub best_practices: Vec<BestPractice>,
}

pub struct AntiPatternView {
    pub pattern: Seq<char>,
    pub message: Seq<char>,
    pub severity: Severity,
    pub category: IssueCategory,
}

pub struct BestPracticeView {
    pub pattern: Seq<char>,
    pub suggestion: Seq<char>,
    pub impact: Impact,
    pub category: SuggestionCategory,
}

pub struct LanguageRulesView {
    pub language: Language,
    pub keywords: Seq<Seq<char>>,
    pub anti_patterns: Seq<AntiPatternView>,
    pub best_practices: Seq<BestPracticeView>,
}

impl View for AntiPattern {
    type V = AntiPatternView;

    open spec fn view(&self) -> AntiPatternView {
        AntiPatternView {
            pattern: self.pattern@,
            message: self.message@,
            severity: self.severity,
            category: self.category,
        }
    }
}

impl View for BestPractice {
    type V = BestPracticeView;

    open spec fn view(&self) -> BestPracticeView {
        BestPracticeView {
            pattern: self.pattern@,
            suggestion: self.suggestion@,
            impact: self.impact,
            category: self.category,
        }
    }
}

impl View for LanguageRules {
    type V = LanguageRulesView;

    open spec fn view(&self) -> LanguageRulesView {
        LanguageRulesView {
            language: self.language,
            keywords: self.keywords@.map_values(|k: String| k@),
            anti_patterns: self.anti_patterns@.map_values(|a: AntiPattern| a@),
            best_practices: self.best_practices@.map_values(|b: BestPractice| b@),
        }
    }
}

pub open spec fn anti(p: Seq<char>, m: Seq<char>, s: Severity, c: IssueCategory) -> AntiPatternView {
    AntiPatternView { pattern: p, message: m, severity: s, category: c }
}

pub open spec fn best(p: Seq<char>, t: Seq<char>, i: Impact, c: SuggestionCategory) -> BestPracticeView {
    BestPracticeView { pattern: p, suggestion: t, impact: i, category: c }
}

/// The standard rules of Rust.
pub open spec fn rust_rules() -> LanguageRulesView {
    LanguageRulesView {
        language: Language::Rust,
        keywords: seq!["fn"@, "use"@, "mod"@],
        anti_patterns: seq![
            anti("unwrap()"@, "Unsafe unwrap() usage"@, Severity::High, IssueCategory::ErrorHandling),
            anti("println!"@, "Use structured logging instead of println!"@, Severity::Medium, IssueCategory::Style),
            anti("clone()"@, "Excessive cloning detected"@, Severity::Medium, IssueCategory::Performance),
        ],
        best_practices: seq![
            best("Result<"@, "Good use of Result types"@, Impact::High, SuggestionCategory::Refactoring),
            best("tracing::"@, "Using structured logging"@, Impact::Medium, SuggestionCategory::Refactoring),
        ],
    }
}

/// The standard rules of Python.
pub open spec fn python_rules() -> LanguageRulesView {
    LanguageRulesView {
        language: Language::Python,
        keywords: seq!["def"@, "import"@, "class"@],
        anti_patterns: seq![
            anti("import *"@, "Wildcard imports should be avoided"@, Severity::Medium, IssueCategory::Style),
            anti("eval("@, "Dangerous eval() usage"@, Severity::Critical, IssueCategory::Security),
            anti("except:"@, "Bare except clause"@, Severity::High, IssueCategory::ErrorHandling),
        ],
        best_practices: seq![
            best("def "@, "Consider adding type hints"@, Impact::Medium, SuggestionCategory::Documentation),
        ],
    }
}

/// The standard rules of JavaScript and TypeScript.
pub open spec fn javascript_rules() -> LanguageRulesView {
    LanguageRulesView {
        language: Language::JavaScript,
        keywords: seq!["function"@, "const"@, "let"@],
        anti_patterns: seq![
            anti("var "@, "Use const or let instead of var"@, Severity::Medium, IssueCategory::Style),
            anti("eval("@, "Dangerous eval() usage"@, Severity::Critical, IssueCategory::Security),
        ],
        best_practices: seq![
            best("const "@, "Good use of const for immutable values"@, Impact::Medium, SuggestionCategory::Refactoring),
        ],
    }
}

/// The standard catalog.
pub open spec fn standard_catalog() -> Seq<LanguageRulesView> {
    seq![rust_rules(), python_rules(), javascript_rules()]
}

/// Position `i` holds the first rules of language `l`.
pub open spec fn first_rules_at(cat: Seq<LanguageRulesView>, l: Language, i: int) -> bool {
    &&& 0 <= i < cat.len()
    &&& cat[i].language == l
    &&& forall|j: int| 0 <= j < i ==> cat[j].language != l
}

/// The rules of a language: the first entry of the catalog for it.
pub open spec fn rules_for(cat: Seq<LanguageRulesView>, l: Language) -> Option<LanguageRulesView> {
    if exists|i: int| first_rules_at(cat, l, i) {
        Some(cat[choose|i: int| first_rules_at(cat, l, i)])
    } else {
        None
    }
}

fn anti_pattern(p: &str, m: &str, s: Severity, c: IssueCategory) -> (r: AntiPattern)
    ensures
        r@ == anti(p@, m@, s, c),
{
    AntiPattern { pattern: p.to_string(), message: m.to_string(), severity: s, category: c }
}

fn best_practice(p: &str, t: &str, i: Impact, c: SuggestionCategory) -> (r: BestPractice)
    ensures
        r@ == best(p@, t@, i, c),
{
    BestPractice { pattern: p.to_string(), suggestion: t.to_string(), impact: i, category: c }
}

fn keywords3(a: &str, b: &str, c: &str) -> (r: Vec<String>)
    ensures
        r@.map_values(|k: String| k@) == seq![a@, b@, c@],
{
    let mut v: Vec<String> = Vec::new();
    v.push(a.to_string());
    v.push(b.to_string());
    v.push(c.to_string());
    assert(v@.map_values(|k: String| k@) =~= seq![a@, b@, c@]);
    v
}

pub fn new_rust_rules() -> (r: LanguageRules)
    ensures
        r@ == rust_rules(),
{
    let mut anti_patterns: Vec<AntiPattern> = Vec::new();
    anti_patterns.push(anti_pattern("unwrap()", "Unsafe unwrap() usage", Severity::High, IssueCategory::ErrorHandling));
    anti_patterns.push(anti_pattern("println!", "Use structured logging instead of println!", Severity::Medium, IssueCategory::Style));
    anti_patterns.push(anti_pattern("clone()", "Excessive cloning detected", Severity::Medium, IssueCategory::Performance));
    let mut best_practices: Vec<BestPractice> = Vec::new();
    best_practices.push(best_practice("Result<", "Good use of Result types", Impact::High, SuggestionCategory::Refactoring));
    best_practices.push(best_practice("tracing::", "Using structured logging", Impact::Medium, SuggestionCategory::Refactoring));
    let r = LanguageRules {
        language: Language::Rust,
        keywords: keywords3("fn", "use", "mod"),
        anti_patterns,
        best_practices,
    };
    assert(r@.anti_patterns =~= rust_rules().anti_patterns);
    assert(r@.best_practices =~= rust_rules().best_practices);
    r
}

pub fn new_python_rules() -> (r: LanguageRules)
    ensures
        r@ == python_rules(),
{
    let mut anti_patterns: Vec<AntiPattern> = Vec::new();
    anti_patterns.push(anti_pattern("import *", "Wildcard imports should be avoided", Severity::Medium, IssueCategory::Style));
    anti_patterns.push(anti_pattern("eval(", "Dangerous eval() usage", Severity::Critical, IssueCategory::Security));
    anti_patterns.push(anti_pattern("except:", "Bare except clause", Severity::High, IssueCategory::ErrorHandling));
    let mut best_practices: Vec<BestPractice> = Vec::new();
    best_practices.push(best_practice("def ", "Consider adding type hints", Impact::Medium, SuggestionCategory::Documentation));
    let r = LanguageRules {
        language: Language::Python,
        keywords: keywords3("def", "import", "class"),
        anti_patterns,
        best_practices,
    };
    assert(r@.anti_patterns =~= python_rules().anti_patterns);
    assert(r@.best_practices =~= python_rules().best_practices);
    r
}

pub fn new_javascript_rules() -> (r: LanguageRules)
    ensures
        r@ == javascript_rules(),
{
    let mut anti_patterns: Vec<AntiPattern> = Vec::new();
    anti_patterns.push(anti_pattern("var ", "Use const or let instead of var", Severity::Medium, IssueCategory::Style));
    anti_patterns.push(anti_pattern("eval(", "Dangerous eval() usage", Severity::Critical, IssueCategory::Security));
    let mut best_practices: Vec<BestPractice> = Vec::new();
    best_practices.push(best_practice("const ", "Good use of const for immutable values", Impact::Medium, SuggestionCategory::Refactoring));
    let r = LanguageRules {
        language: Language::JavaScript,
        keywords: keywords3("function", "const", "let"),
        anti_patterns,
        best_practices,
    };
    assert(r@.anti_patterns =~= javascript_rules().anti_patterns);
    assert(r@.best_practices =~= javascript_rules().best_practices);
    r
}

} // verus!
