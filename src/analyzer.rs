//! The static analyzer: generic per-line checks plus the rule catalog of the
//! file's language, yielding issues in line order and file-level suggestions.

use vstd::prelude::*;
use crate::language::{classify, classify_chars, Language};
use crate::rules::{
    new_javascript_rules, new_python_rules, new_rust_rules, rules_for, standard_catalog,
    AntiPatternView, BestPracticeView, Impact, IssueCategory, LanguageRules, LanguageRulesView, Severity,
    SuggestionCategory, first_rules_at,
};
use crate::text::{chars_of, contains, contains_chars, contains_lit, lines_of, split_lines, string_of, views};

verus! {

/// A defect found in a file.
#[derive(Debug)]
pub struct Issue {
    pub severity: Severity,
    pub message: String,
    pub line: Option<usize>,
    pub code: Option<String>,
    pub category: IssueCategory,
}

/// A proposed improvement of a file.
#[derive(Debug)]
pub struct Suggestion {
    pub title: String,
    pub description: String,
    pub code: Option<String>,
    pub impact: Impact,
    pub category: SuggestionCategory,
}

pub struct IssueView {
    pub severity: Severity,
    pub message: Seq<char>,
    pub line: Option<int>,
    pub code: Option<Seq<char>>,
    pub category: IssueCategory,
}

pub struct SuggestionView {
    pub title: Seq<char>,
    pub description: Seq<char>,
    pub code: Option<Seq<char>>,
    pub impact: Impact,
    pub category: SuggestionCategory,
}

pub open spec fn opt_view(s: Option<String>) -> Option<Seq<char>> {
    match s {
        Some(t) => Some(t@),
        None => None,
    }
}

impl View for Issue {
    type V = IssueView;

    open spec fn view(&self) -> IssueView {
        IssueView {
            severity: self.severity,
            message: self.message@,
            line: match self.line {
                Some(n) => Some(n as int),
                None => None,
            },
            code: opt_view(self.code),
            category: self.category,
        }
    }
}

impl View for Suggestion {
    type V = SuggestionView;

    open spec fn view(&self) -> SuggestionView {
        SuggestionView {
            title: self.title@,
            description: self.description@,
            code: opt_view(self.code),
            impact: self.impact,
            category: self.category,
        }
    }
}

pub open spec fn issue_views(v: Seq<Issue>) -> Seq<IssueView> {
    v.map_values(|i: Issue| i@)
}

pub open spec fn suggestion_views(v: Seq<Suggestion>) -> Seq<SuggestionView> {
    v.map_values(|s: Suggestion| s@)
}

/// The analyzer, holding the rule catalog.
pub struct CodeAnalyzer {
    pub language_rules: Vec<LanguageRules>,
}

impl View for CodeAnalyzer {
    type V = Seq<LanguageRulesView>;

    open spec fn view(&self) -> Seq<LanguageRulesView> {
        self.language_rules@.map_values(|r: LanguageRules| r@)
    }
}

pub open spec fn issue_at(
    s: Severity,
    m: Seq<char>,
    n: int,
    l: Seq<char>,
    c: IssueCategory,
) -> IssueView {
    IssueView { severity: s, message: m, line: Some(n), code: Some(l), category: c }
}

pub open spec fn present_if<T>(b: bool, x: T) -> Seq<T> {
    if b {
        seq![x]
    } else {
        seq![]
    }
}

pub open spec fn has_todo(l: Seq<char>) -> bool {
    contains(l, "TODO"@) || contains(l, "FIXME"@)
}

pub open spec fn has_secret(l: Seq<char>) -> bool {
    contains(l, "password"@) || contains(l, "secret"@) || contains(l, "api_key"@)
}

pub open spec fn has_exec(l: Seq<char>) -> bool {
    contains(l, "eval("@) || contains(l, "exec("@)
}

/// The language-independent issues of line `l`, numbered `n`.
pub open spec fn generic_issues(l: Seq<char>, n: int) -> Seq<IssueView> {
    present_if(
        has_todo(l),
        issue_at(Severity::Medium, "TODO or FIXME comment found"@, n, l, IssueCategory::Documentation),
    ) + present_if(
        l.len() > 120,
        issue_at(Severity::Low, "Line too long (over 120 characters)"@, n, l, IssueCategory::Style),
    ) + present_if(
        has_secret(l),
        issue_at(Severity::High, "Potential hardcoded secret found"@, n, l, IssueCategory::Security),
    ) + present_if(
        has_exec(l),
        issue_at(
            Severity::Critical,
            "Dangerous code execution pattern detected"@,
            n,
            l,
            IssueCategory::Security,
        ),
    )
}

/// The issues that anti-pattern rules `rs`, in order, find on line `l`.
pub open spec fn rule_issues(rs: Seq<AntiPatternView>, l: Seq<char>, n: int) -> Seq<IssueView>
    decreases rs.len(),
{
    if rs.len() == 0 {
        seq![]
    } else {
        rule_issues(rs.drop_last(), l, n) + present_if(
            contains(l, rs.last().pattern),
            issue_at(rs.last().severity, rs.last().message, n, l, rs.last().category),
        )
    }
}

/// All issues of one line: the generic ones first.
pub open spec fn line_issues(rules: Option<LanguageRulesView>, l: Seq<char>, n: int) -> Seq<IssueView> {
    generic_issues(l, n) + match rules {
        Some(r) => rule_issues(r.anti_patterns, l, n),
        None => seq![],
    }
}

/// The issues of a sequence of lines, in line order, numbered from one.
pub open spec fn issues_of(rules: Option<LanguageRulesView>, lines: Seq<Seq<char>>) -> Seq<IssueView>
    decreases lines.len(),
{
    if lines.len() == 0 {
        seq![]
    } else {
        issues_of(rules, lines.drop_last()) + line_issues(rules, lines.last(), lines.len() as int)
    }
}

/// The issues of a file, given the catalog.
pub open spec fn file_issues(cat: Seq<LanguageRulesView>, path: Seq<char>, content: Seq<char>) -> Seq<IssueView> {
    issues_of(rules_for(cat, classify(path, content)), lines_of(content))
}

fn make_issue(s: Severity, m: &str, n: usize, l: &Vec<char>, c: IssueCategory) -> (r: Issue)
    ensures
        r@ == issue_at(s, m@, n as int, l@, c),
{
    Issue { severity: s, message: m.to_string(), line: Some(n), code: Some(string_of(l)), category: c }
}

fn general_issues_chars(l: &Vec<char>, n: usize) -> (r: Vec<Issue>)
    ensures
        issue_views(r@) == generic_issues(l@, n as int),
{
    let mut v: Vec<Issue> = Vec::new();
    if contains_lit(l, "TODO") || contains_lit(l, "FIXME") {
        v.push(make_issue(Severity::Medium, "TODO or FIXME comment found", n, l, IssueCategory::Documentation));
    }
    let ghost a = issue_views(v@);
    if l.len() > 120 {
        v.push(make_issue(Severity::Low, "Line too long (over 120 characters)", n, l, IssueCategory::Style));
    }
    let ghost b = issue_views(v@);
    if contains_lit(l, "password") || contains_lit(l, "secret") || contains_lit(l, "api_key") {
        v.push(make_issue(Severity::High, "Potential hardcoded secret found", n, l, IssueCategory::Security));
    }
    let ghost c = issue_views(v@);
    if contains_lit(l, "eval(") || contains_lit(l, "exec(") {
        v.push(make_issue(Severity::Critical, "Dangerous code execution pattern detected", n, l, IssueCategory::Security));
    }
    assert(issue_views(v@) =~= generic_issues(l@, n as int));
    v
}

fn rule_issues_chars(rules: &LanguageRules, l: &Vec<char>, n: usize) -> (r: Vec<Issue>)
    ensures
        issue_views(r@) == rule_issues(rules@.anti_patterns, l@, n as int),
{
    let ghost rs = rules@.anti_patterns;
    let mut v: Vec<Issue> = Vec::new();
    let mut i: usize = 0;
    assert(rs.take(0) =~= Seq::<AntiPatternView>::empty());
    while i < rules.anti_patterns.len()
        invariant
            rs == rules@.anti_patterns,
            i <= rs.len(),
            issue_views(v@) == rule_issues(rs.take(i as int), l@, n as int),
        decreases rs.len() - i,
    {
        let ap = &rules.anti_patterns[i];
        let pc = chars_of(ap.pattern.as_str());
        let ghost before = issue_views(v@);
        proof {
            assert(rs.take(i + 1).drop_last() =~= rs.take(i as int));
            assert(rs.take(i + 1).last() == ap@);
        }
        if contains_chars(l, &pc) {
            let m = ap.message.clone();
            let iss = Issue {
                severity: ap.severity,
                message: m,
                line: Some(n),
                code: Some(string_of(l)),
                category: ap.category,
            };
            v.push(iss);
            assert(issue_views(v@) =~= before.push(iss@));
        }
        i = i + 1;
        assert(issue_views(v@) =~= rule_issues(rs.take(i as int), l@, n as int));
    }
    assert(rs.take(i as int) =~= rs);
    v
}

pub open spec fn has_comment_marker(c: Seq<char>) -> bool {
    contains(c, "//"@) || contains(c, "/*"@)
}

pub open spec fn suggestion(
    t: Seq<char>,
    d: Seq<char>,
    code: Option<Seq<char>>,
    i: Impact,
    c: SuggestionCategory,
) -> SuggestionView {
    SuggestionView { title: t, description: d, code: code, impact: i, category: c }
}

/// The file-level suggestions that need no rule: a large file, TODO markers,
/// no comment markers in a non-empty file.
pub open spec fn general_suggestions(c: Seq<char>) -> Seq<SuggestionView> {
    let n = lines_of(c).len();
    present_if(
        n > 100,
        suggestion(
            "Break down large file"@,
            "Consider splitting this large file into smaller, focused modules"@,
            None,
            Impact::Medium,
            SuggestionCategory::Refactoring,
        ),
    ) + present_if(
        contains(c, "TODO"@),
        suggestion(
            "Address TODO comments"@,
            "Review and address TODO comments to improve code completeness"@,
            None,
            Impact::Medium,
            SuggestionCategory::Documentation,
        ),
    ) + present_if(
        n > 0 && !has_comment_marker(c),
        suggestion(
            "Add documentation"@,
            "Consider adding comments to explain complex logic"@,
            Some("// Add meaningful comments here"@),
            Impact::Low,
            SuggestionCategory::Documentation,
        ),
    )
}

/// The suggestions that best-practice rules `bs`, in order, make for content
/// `c`.
pub open spec fn practice_suggestions(bs: Seq<BestPracticeView>, c: Seq<char>) -> Seq<SuggestionView>
    decreases bs.len(),
{
    if bs.len() == 0 {
        seq![]
    } else {
        practice_suggestions(bs.drop_last(), c) + present_if(
            contains(c, bs.last().pattern),
            suggestion(
                "Good practice detected"@,
                bs.last().suggestion,
                None,
                bs.last().impact,
                bs.last().category,
            ),
        )
    }
}

/// The suggestions of a file: the general ones, then the rules' ones.
pub open spec fn file_suggestions(
    cat: Seq<LanguageRulesView>,
    path: Seq<char>,
    content: Seq<char>,
) -> Seq<SuggestionView> {
    general_suggestions(content) + match rules_for(cat, classify(path, content)) {
        Some(r) => practice_suggestions(r.best_practices, content),
        None => seq![],
    }
}

fn make_suggestion(t: &str, d: &str, code: Option<&str>, i: Impact, c: SuggestionCategory) -> (r: Suggestion)
    ensures
        r@ == suggestion(t@, d@, match code { Some(x) => Some(x@), None => None }, i, c),
{
    let code = match code {
        Some(x) => Some(x.to_string()),
        None => None,
    };
    Suggestion { title: t.to_string(), description: d.to_string(), code, impact: i, category: c }
}

fn general_suggestions_chars(c: &Vec<char>) -> (r: Vec<Suggestion>)
    ensures
        suggestion_views(r@) == general_suggestions(c@),
{
    let n = split_lines(c).len();
    let mut v: Vec<Suggestion> = Vec::new();
    if n > 100 {
        v.push(make_suggestion(
            "Break down large file",
            "Consider splitting this large file into smaller, focused modules",
            None,
            Impact::Medium,
            SuggestionCategory::Refactoring,
        ));
    }
    if contains_lit(c, "TODO") {
        v.push(make_suggestion(
            "Address TODO comments",
            "Review and address TODO comments to improve code completeness",
            None,
            Impact::Medium,
            SuggestionCategory::Documentation,
        ));
    }
    if n > 0 && !(contains_lit(c, "//") || contains_lit(c, "/*")) {
        v.push(make_suggestion(
            "Add documentation",
            "Consider adding comments to explain complex logic",
            Some("// Add meaningful comments here"),
            Impact::Low,
            SuggestionCategory::Documentation,
        ));
    }
    assert(suggestion_views(v@) =~= general_suggestions(c@));
    v
}

fn practice_suggestions_chars(rules: &LanguageRules, c: &Vec<char>) -> (r: Vec<Suggestion>)
    ensures
        suggestion_views(r@) == practice_suggestions(rules@.best_practices, c@),
{
    let ghost bs = rules@.best_practices;
    let mut v: Vec<Suggestion> = Vec::new();
    let mut i: usize = 0;
    assert(bs.take(0) =~= Seq::<BestPracticeView>::empty());
    while i < rules.best_practices.len()
        invariant
            bs == rules@.best_practices,
            i <= bs.len(),
            suggestion_views(v@) == practice_suggestions(bs.take(i as int), c@),
        decreases bs.len() - i,
    {
        let bp = &rules.best_practices[i];
        let pc = chars_of(bp.pattern.as_str());
        let ghost before = suggestion_views(v@);
        proof {
            assert(bs.take(i + 1).drop_last() =~= bs.take(i as int));
            assert(bs.take(i + 1).last() == bp@);
        }
        if contains_chars(c, &pc) {
            let s = Suggestion {
                title: "Good practice detected".to_string(),
                description: bp.suggestion.clone(),
                code: None,
                impact: bp.impact,
                category: bp.category,
            };
            v.push(s);
            assert(suggestion_views(v@) =~= before.push(s@));
        }
        i = i + 1;
        assert(suggestion_views(v@) =~= practice_suggestions(bs.take(i as int), c@));
    }
    assert(bs.take(i as int) =~= bs);
    v
}

/// Every issue that line `l`, numbered `n`, yields points at that line.
pub open spec fn all_point_at(v: Seq<IssueView>, n: int, l: Seq<char>) -> bool {
    forall|i: int| 0 <= i < v.len() ==> v[i].line == Some(n) && v[i].code == Some(l)
}

proof fn lemma_rule_issues_point(rs: Seq<AntiPatternView>, l: Seq<char>, n: int)
    ensures
        all_point_at(rule_issues(rs, l, n), n, l),
    decreases rs.len(),
{
    if rs.len() > 0 {
        lemma_rule_issues_point(rs.drop_last(), l, n);
    }
}

proof fn lemma_line_issues_point(rules: Option<LanguageRulesView>, l: Seq<char>, n: int)
    ensures
        all_point_at(line_issues(rules, l, n), n, l),
{
    match rules {
        Some(r) => lemma_rule_issues_point(r.anti_patterns, l, n),
        None => {},
    }
}

/// Every issue of a sequence of lines carries a line number within
/// `[1, lines.len()]` and, as its code, exactly the text of that line.
pub proof fn lemma_issue_lines(rules: Option<LanguageRulesView>, lines: Seq<Seq<char>>)
    ensures
        forall|i: int|
            0 <= i < issues_of(rules, lines).len() ==> {
                let v = #[trigger] issues_of(rules, lines)[i];
                &&& v.line is Some
                &&& 1 <= v.line->0 <= lines.len()
                &&& v.code == Some(lines[v.line->0 - 1])
            },
    decreases lines.len(),
{
    if lines.len() > 0 {
        let front = lines.drop_last();
        lemma_issue_lines(rules, front);
        lemma_line_issues_point(rules, lines.last(), lines.len() as int);
        let a = issues_of(rules, front);
        let b = line_issues(rules, lines.last(), lines.len() as int);
        assert(issues_of(rules, lines) == a + b);
        assert forall|i: int| 0 <= i < issues_of(rules, lines).len() implies {
            let v = #[trigger] issues_of(rules, lines)[i];
            &&& v.line is Some
            &&& 1 <= v.line->0 <= lines.len()
            &&& v.code == Some(lines[v.line->0 - 1])
        } by {
            if i < a.len() {
                let v = a[i];
                assert(v == issues_of(rules, front)[i]);
                assert(front[v.line->0 - 1] == lines[v.line->0 - 1]);
            } else {
                assert(issues_of(rules, lines)[i] == b[i - a.len()]);
            }
        }
    }
}

/// The issues of a file point at its lines: each line number lies within
/// `[1, line count]` and each code is that physical line's text.
pub proof fn lemma_file_issue_lines(cat: Seq<LanguageRulesView>, path: Seq<char>, content: Seq<char>)
    ensures
        forall|i: int|
            0 <= i < file_issues(cat, path, content).len() ==> {
                let v = #[trigger] file_issues(cat, path, content)[i];
                &&& v.line is Some
                &&& 1 <= v.line->0 <= lines_of(content).len()
                &&& v.code == Some(lines_of(content)[v.line->0 - 1])
            },
{
    lemma_issue_lines(rules_for(cat, classify(path, content)), lines_of(content));
}

/// Analysis is a function of its inputs: two runs of `analyze_code` and
/// `generate_suggestions` on the same catalog, path and content give equal
/// issue and suggestion lists.
pub proof fn lemma_analysis_deterministic(
    a1: CodeAnalyzer,
    a2: CodeAnalyzer,
    path: Seq<char>,
    content: Seq<char>,
    i1: Seq<Issue>,
    i2: Seq<Issue>,
    s1: Seq<Suggestion>,
    s2: Seq<Suggestion>,
)
    requires
        a1@ == a2@,
        issue_views(i1) == file_issues(a1@, path, content),
        issue_views(i2) == file_issues(a2@, path, content),
        suggestion_views(s1) == file_suggestions(a1@, path, content),
        suggestion_views(s2) == file_suggestions(a2@, path, content),
    ensures
        issue_views(i1) == issue_views(i2),
        suggestion_views(s1) == suggestion_views(s2),
{
}

impl CodeAnalyzer {
    /// The analyzer with the standard catalog.
    pub fn new() -> (r: CodeAnalyzer)
        ensures
            r@ == standard_catalog(),
    {
        let mut language_rules: Vec<LanguageRules> = Vec::new();
        language_rules.push(new_rust_rules());
        language_rules.push(new_python_rules());
        language_rules.push(new_javascript_rules());
        let r = CodeAnalyzer { language_rules };
        assert(r@ =~= standard_catalog());
        r
    }

    /// The language of a file, from its path's extension or else its content.
    pub fn detect_language(&self, file_path: &str, content: &str) -> (r: Language)
        ensures
            r == classify(file_path@, content@),
    {
        let p = chars_of(file_path);
        let c = chars_of(content);
        classify_chars(&p, &c)
    }

    /// The position of the rules of a language in the catalog.
    pub fn rules_index(&self, l: Language) -> (r: Option<usize>)
        ensures
            match r {
                Some(i) => i < self@.len() && rules_for(self@, l) == Some(self@[i as int]),
                None => rules_for(self@, l) is None,
            },
    {
        let mut i: usize = 0;
        while i < self.language_rules.len()
            invariant
                i <= self@.len(),
                forall|j: int| 0 <= j < i ==> self@[j].language != l,
            decreases self@.len() - i,
        {
            if self.language_rules[i].language == l {
                assert(first_rules_at(self@, l, i as int));
                proof {
                    let c = choose|j: int| first_rules_at(self@, l, j);
                    if c < i {
                    }
                    if c > i {
                        assert(self@[i as int].language == l);
                    }
                }
                return Some(i);
            }
            i = i + 1;
        }
        None
    }

    /// The generic issues of one line, numbered `line_num`.
    pub fn check_general_issues(&self, line: &str, line_num: usize) -> (r: Vec<Issue>)
        ensures
            issue_views(r@) == generic_issues(line@, line_num as int),
    {
        let l = chars_of(line);
        general_issues_chars(&l, line_num)
    }

    /// The issues that one language's anti-pattern rules find on a line.
    pub fn check_language_specific_issues(&self, line: &str, line_num: usize, rules: &LanguageRules) -> (r: Vec<Issue>)
        ensures
            issue_views(r@) == rule_issues(rules@.anti_patterns, line@, line_num as int),
    {
        let l = chars_of(line);
        rule_issues_chars(rules, &l, line_num)
    }

    /// The issues of a file, in line order; within a line the generic ones
    /// come first.
    pub fn analyze_code(&self, content: &str, file_path: &str) -> (r: Vec<Issue>)
        ensures
            issue_views(r@) == file_issues(self@, file_path@, content@),
            forall|i: int|
                0 <= i < r@.len() ==> {
                    let v = #[trigger] issue_views(r@)[i];
                    &&& v.line is Some
                    &&& 1 <= v.line->0 <= lines_of(content@).len()
                    &&& v.code == Some(lines_of(content@)[v.line->0 - 1])
                },
    {
        proof {
            lemma_file_issue_lines(self@, file_path@, content@);
        }
        let c = chars_of(content);
        let p = chars_of(file_path);
        let lang = classify_chars(&p, &c);
        let idx = self.rules_index(lang);
        let ghost rules = rules_for(self@, lang);
        let lines = split_lines(&c);
        let ghost ls = views(lines@);
        let mut issues: Vec<Issue> = Vec::new();
        let mut i: usize = 0;
        assert(ls.take(0) =~= Seq::<Seq<char>>::empty());
        while i < lines.len()
            invariant
                ls == views(lines@),
                i <= ls.len(),
                rules == rules_for(self@, lang),
                match idx {
                    Some(k) => k < self@.len() && rules == Some(self@[k as int]),
                    None => rules is None,
                },
                issue_views(issues@) == issues_of(rules, ls.take(i as int)),
            decreases ls.len() - i,
        {
            let ghost before = issue_views(issues@);
            let mut g = general_issues_chars(&lines[i], i + 1);
            let ghost gv = issue_views(g@);
            issues.append(&mut g);
            let ghost mid = issue_views(issues@);
            assert(mid =~= before + gv);
            match idx {
                Some(k) => {
                    let mut s = rule_issues_chars(&self.language_rules[k], &lines[i], i + 1);
                    let ghost sv = issue_views(s@);
                    issues.append(&mut s);
                    assert(issue_views(issues@) =~= mid + sv);
                },
                None => {
                },
            }
            proof {
                assert(ls.take(i + 1).drop_last() =~= ls.take(i as int));
                assert(ls.take(i + 1).last() == lines@[i as int]@);
                assert(issue_views(issues@) =~= issues_of(rules, ls.take(i + 1)));
            }
            i = i + 1;
        }
        assert(ls.take(i as int) =~= ls);
        issues
    }

    /// The file-level suggestions that need no rule.
    pub fn generate_general_suggestions(&self, content: &str) -> (r: Vec<Suggestion>)
        ensures
            suggestion_views(r@) == general_suggestions(content@),
    {
        let c = chars_of(content);
        general_suggestions_chars(&c)
    }

    /// The suggestions that one language's best-practice rules make.
    pub fn generate_language_specific_suggestions(&self, content: &str, rules: &LanguageRules) -> (r: Vec<Suggestion>)
        ensures
            suggestion_views(r@) == practice_suggestions(rules@.best_practices, content@),
    {
        let c = chars_of(content);
        practice_suggestions_chars(rules, &c)
    }

    /// The suggestions of a file: the general ones, then those of its
    /// language's rules.
    pub fn generate_suggestions(&self, content: &str, file_path: &str) -> (r: Vec<Suggestion>)
        ensures
            suggestion_views(r@) == file_suggestions(self@, file_path@, content@),
    {
        let c = chars_of(content);
        let p = chars_of(file_path);
        let lang = classify_chars(&p, &c);
        let mut v = general_suggestions_chars(&c);
        let ghost gv = suggestion_views(v@);
        match self.rules_index(lang) {
            Some(k) => {
                let mut s = practice_suggestions_chars(&self.language_rules[k], &c);
                let ghost sv = suggestion_views(s@);
                v.append(&mut s);
                assert(suggestion_views(v@) =~= gv + sv);
            },
            None => {
                assert(suggestion_views(v@) =~= gv + Seq::<SuggestionView>::empty());
            },
        }
        v
    }
}

} // verus!
