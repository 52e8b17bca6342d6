//! The orchestrator: runs the static analyzer, the scoring engine and the
//! auxiliary analyzers on each file, merges their results into one review
//! record and hands it to the memory store; plus batch summaries.

use vstd::prelude::*;
use crate::advisory::{advisory_of, LlmAnalysis, LlmAnalyzer};
use crate::analyzer::{
    file_issues, file_suggestions, issue_views, suggestion_views, CodeAnalyzer, Issue, Suggestion,
};
use crate::compat::{compat_analysis, string_views, WasmAnalysis, WasmAnalyzer};
use crate::language::{classify, classify_chars, extension, extension_of, Language};
use crate::memory::{entry_ids, ids_after_store, ids_after_stores, AnalysisResults, MemoryEntry, MemorySystem};
use crate::rules::standard_catalog;
use crate::score::{score_of, QualityScore};
use crate::text::{chars_of, concat_chars, is_literal, string_of};

verus! {

/// The merged result of reviewing one file.
pub struct ReviewRecord {
    pub identity: String,
    pub language: Language,
    pub issues: Vec<Issue>,
    pub suggestions: Vec<Suggestion>,
    pub score: QualityScore,
    pub timestamp: i64,
    pub wasm_analysis: Option<WasmAnalysis>,
    pub llm_analysis: LlmAnalysis,
}

/// A file as the caller found it: its path, its text if it could be read,
/// and the advisory backend's reply if there was one.
pub struct FileInput {
    pub path: String,
    pub content: Option<String>,
    pub advisory_reply: Option<String>,
}

pub open spec fn opt_str(s: Option<String>) -> Option<Seq<char>> {
    match s {
        Some(t) => Some(t@),
        None => None,
    }
}

/// A Rust source file, by its extension.
pub open spec fn is_rust_path(p: Seq<char>) -> bool {
    extension_of(p) == Some("rs"@)
}

/// `r` is the review of `content` at `path` at time `ts` by analyzers with
/// catalog `cat` and an advisory backend that is or is not `available`.
pub open spec fn reviewed(
    cat: Seq<crate::rules::LanguageRulesView>,
    available: bool,
    path: Seq<char>,
    content: Seq<char>,
    reply: Option<Seq<char>>,
    ts: i64,
    r: ReviewRecord,
) -> bool {
    &&& r.identity@ == path
    &&& r.language == classify(path, content)
    &&& issue_views(r.issues@) == file_issues(cat, path, content)
    &&& suggestion_views(r.suggestions@) == file_suggestions(cat, path, content)
    &&& r.score@ == score_of(content)
    &&& r.timestamp == ts
    &&& match r.wasm_analysis {
        Some(w) => is_rust_path(path) && w@ == compat_analysis(content),
        None => !is_rust_path(path),
    }
    &&& advisory_of(available, path, content, reply, r.llm_analysis)
}

/// The positions of the inputs whose text could be read, in order.
pub open spec fn readable_positions(inputs: Seq<FileInput>) -> Seq<int>
    decreases inputs.len(),
{
    if inputs.len() == 0 {
        seq![]
    } else {
        readable_positions(inputs.drop_last()) + if inputs.last().content is Some {
            seq![inputs.len() - 1]
        } else {
            seq![]
        }
    }
}

/// The store holds an entry for `id` with content `c` and an analysis.
pub open spec fn holds_review(es: Seq<MemoryEntry>, id: Seq<char>, c: Seq<char>) -> bool {
    exists|k: int|
        0 <= k < es.len() && #[trigger] es[k].id@ == id && es[k].content@ == c
            && es[k].analysis_results is Some
}

/// The score lies in `[0, 1]` with a denominator small enough to scale.
pub open spec fn valid_score(s: QualityScore) -> bool {
    0 <= s@.0 <= s@.1 && s@.1 > 0 && s@.1 * 1_000_000 <= u128::MAX
}

/// The agent: the analyzers and the memory store they report to.
pub struct DevAgent {
    pub code_analyzer: CodeAnalyzer,
    pub wasm_analyzer: WasmAnalyzer,
    pub llm_analyzer: LlmAnalyzer,
    pub memory_system: MemorySystem,
}

fn messages(issues: &Vec<Issue>) -> (r: Vec<String>)
    ensures
        string_views(r@) == issue_views(issues@).map_values(|i: crate::analyzer::IssueView| i.message),
{
    let mut v: Vec<String> = Vec::new();
    let mut i: usize = 0;
    while i < issues.len()
        invariant
            i <= issues@.len(),
            string_views(v@) == issue_views(issues@.take(i as int)).map_values(
                |x: crate::analyzer::IssueView| x.message,
            ),
        decreases issues@.len() - i,
    {
        v.push(issues[i].message.clone());
        assert(issue_views(issues@.take(i + 1)).map_values(|x: crate::analyzer::IssueView| x.message)
            =~= issue_views(issues@.take(i as int)).map_values(|x: crate::analyzer::IssueView| x.message).push(
            issues@[i as int].message@));
        i = i + 1;
    }
    assert(issues@.take(i as int) =~= issues@);
    v
}

fn titles(suggestions: &Vec<Suggestion>) -> (r: Vec<String>)
    ensures
        string_views(r@) == suggestion_views(suggestions@).map_values(
            |s: crate::analyzer::SuggestionView| s.title,
        ),
{
    let mut v: Vec<String> = Vec::new();
    let mut i: usize = 0;
    while i < suggestions.len()
        invariant
            i <= suggestions@.len(),
            string_views(v@) == suggestion_views(suggestions@.take(i as int)).map_values(
                |x: crate::analyzer::SuggestionView| x.title,
            ),
        decreases suggestions@.len() - i,
    {
        v.push(suggestions[i].title.clone());
        assert(suggestion_views(suggestions@.take(i + 1)).map_values(
            |x: crate::analyzer::SuggestionView| x.title,
        ) =~= suggestion_views(suggestions@.take(i as int)).map_values(
            |x: crate::analyzer::SuggestionView| x.title,
        ).push(suggestions@[i as int].title@));
        i = i + 1;
    }
    assert(suggestions@.take(i as int) =~= suggestions@);
    v
}

impl DevAgent {
    /// An agent with the standard rules, an empty store persisting to
    /// `memory_file`, and an advisory backend that is or is not available.
    pub fn new(memory_file: &str, model_available: bool) -> (r: DevAgent)
        ensures
            r.code_analyzer@ == standard_catalog(),
            r.wasm_analyzer.wf(),
            r.llm_analyzer.model_available == model_available,
            r.memory_system.wf(),
            r.memory_system.entries@.len() == 0,
    {
        DevAgent {
            code_analyzer: CodeAnalyzer::new(),
            wasm_analyzer: WasmAnalyzer::new(),
            llm_analyzer: LlmAnalyzer::new(model_available),
            memory_system: MemorySystem::new(memory_file),
        }
    }

    /// Reviews one file without touching the store.
    pub fn analyze_file(&self, file_path: &str, content: &str, reply: Option<&str>, timestamp: i64) -> (r: ReviewRecord)
        ensures
            reviewed(
                self.code_analyzer@,
                self.llm_analyzer.model_available,
                file_path@,
                content@,
                match reply {
                    Some(t) => Some(t@),
                    None => None,
                },
                timestamp,
                r,
            ),
            valid_score(r.score),
    {
        let p = chars_of(file_path);
        let c = chars_of(content);
        let language = classify_chars(&p, &c);
        let issues = self.code_analyzer.analyze_code(content, file_path);
        let suggestions = self.code_analyzer.generate_suggestions(content, file_path);
        let score = self.code_analyzer.calculate_score(content);
        assert(200 * usize::MAX * 1_000_000 <= u128::MAX);
        let is_rust = match extension(&p) {
            Some(e) => is_literal(&e, "rs"),
            None => false,
        };
        let wasm_analysis = if is_rust {
            Some(self.wasm_analyzer.analyze_rust_file(content))
        } else {
            None
        };
        let llm_analysis = self.llm_analyzer.analyze_code(content, file_path, reply);
        ReviewRecord {
            identity: file_path.to_string(),
            language,
            issues,
            suggestions,
            score,
            timestamp,
            wasm_analysis,
            llm_analysis,
        }
    }

    /// Reviews one file at time `now` and records it in the store: the
    /// content is stored under the file's path, then the analysis attached.
    pub fn review_file(&mut self, file_path: &str, content: &str, reply: Option<&str>, now: i64) -> (r: ReviewRecord)
        requires
            old(self).memory_system.wf(),
        ensures
            reviewed(
                old(self).code_analyzer@,
                old(self).llm_analyzer.model_available,
                file_path@,
                content@,
                match reply {
                    Some(t) => Some(t@),
                    None => None,
                },
                now,
                r,
            ),
            valid_score(r.score),
            final(self).code_analyzer == old(self).code_analyzer,
            final(self).llm_analyzer == old(self).llm_analyzer,
            final(self).memory_system.wf(),
            entry_ids(final(self).memory_system.entries@) == ids_after_store(
                entry_ids(old(self).memory_system.entries@),
                file_path@,
            ),
            exists|k: int|
                0 <= k < final(self).memory_system.entries@.len()
                    && #[trigger] final(self).memory_system.entries@[k].id@ == file_path@
                    && final(self).memory_system.entries@[k].content@ == content@
                    && final(self).memory_system.entries@[k].updated_at == now
                    && final(self).memory_system.entries@[k].analysis_results is Some,
            holds_review(final(self).memory_system.entries@, file_path@, content@),
            forall|id: Seq<char>, c: Seq<char>|
                id != file_path@ && #[trigger] holds_review(old(self).memory_system.entries@, id, c)
                    ==> holds_review(final(self).memory_system.entries@, id, c),
    {
        let r = self.analyze_file(file_path, content, reply, now);
        let ghost before = self.memory_system;
        proof {
            before.lemma_position_spec(file_path@);
        }
        self.memory_system.store_file_at(file_path, content, now);
        let analysis = AnalysisResults {
            issues: messages(&r.issues),
            suggestions: titles(&r.suggestions),
            score_millionths: r.score.millionths(),
        };
        let ghost mid = self.memory_system;
        proof {
            mid.lemma_position_spec(file_path@);
        }
        self.memory_system.update_analysis_at(file_path, analysis, now);
        proof {
            let k = mid.position_spec(file_path@)->0;
            assert(self.memory_system.entries@[k].id@ == file_path@);
            assert forall|id: Seq<char>, c: Seq<char>|
                id != file_path@ && #[trigger] holds_review(before.entries@, id, c)
                    implies holds_review(self.memory_system.entries@, id, c) by {
                let m = choose|m: int| 0 <= m < before.entries@.len() && #[trigger] before.entries@[m].id@ == id
                    && before.entries@[m].content@ == c && before.entries@[m].analysis_results is Some;
                assert(mid.entries@[m] == before.entries@[m]);
                assert(m != k);
                assert(self.memory_system.entries@[m] == mid.entries@[m]);
            }
        }
        r
    }
}

/// The paths of the inputs whose text could be read, in order.
pub open spec fn readable_paths(inputs: Seq<FileInput>) -> Seq<Seq<char>>
    decreases inputs.len(),
{
    if inputs.len() == 0 {
        seq![]
    } else {
        readable_paths(inputs.drop_last()) + if inputs.last().content is Some {
            seq![inputs.last().path@]
        } else {
            seq![]
        }
    }
}

/// No readable input after the `j`-th one (of positions `ps`) has its path.
pub open spec fn not_reread(inputs: Seq<FileInput>, ps: Seq<int>, j: int) -> bool {
    forall|j2: int| j < j2 < ps.len() ==> inputs[ps[j2]].path@ != inputs[ps[j]].path@
}

impl DevAgent {
    /// Reviews a batch of files at time `now`, each independently; a file
    /// whose text could not be read yields no record, and every other file
    /// yields one, in input order. Each reviewed file is stored under its
    /// path with its content and analysis; where a path comes twice, the
    /// later file stands.
    pub fn review_batch(&mut self, inputs: &Vec<FileInput>, now: i64) -> (r: Vec<ReviewRecord>)
        requires
            old(self).memory_system.wf(),
        ensures
            final(self).memory_system.wf(),
            final(self).code_analyzer == old(self).code_analyzer,
            final(self).llm_analyzer == old(self).llm_analyzer,
            r@.len() == readable_positions(inputs@).len(),
            forall|j: int|
                0 <= j < r@.len() ==> {
                    let f = inputs@[readable_positions(inputs@)[j]];
                    &&& reviewed(
                        old(self).code_analyzer@,
                        old(self).llm_analyzer.model_available,
                        f.path@,
                        f.content->0@,
                        opt_str(f.advisory_reply),
                        now,
                        #[trigger] r@[j],
                    )
                    &&& valid_score(r@[j].score)
                },
            entry_ids(final(self).memory_system.entries@) == ids_after_stores(
                entry_ids(old(self).memory_system.entries@),
                readable_paths(inputs@),
            ),
            forall|j: int|
                0 <= j < readable_positions(inputs@).len() && #[trigger] not_reread(
                    inputs@,
                    readable_positions(inputs@),
                    j,
                ) ==> holds_review(
                    final(self).memory_system.entries@,
                    inputs@[readable_positions(inputs@)[j]].path@,
                    inputs@[readable_positions(inputs@)[j]].content->0@,
                ),
    {
        let ghost ins = inputs@;
        let ghost start = entry_ids(self.memory_system.entries@);
        let mut records: Vec<ReviewRecord> = Vec::new();
        let mut i: usize = 0;
        assert(ins.take(0) =~= Seq::<FileInput>::empty());
        while i < inputs.len()
            invariant
                ins == inputs@,
                i <= ins.len(),
                self.memory_system.wf(),
                self.code_analyzer == old(self).code_analyzer,
                self.llm_analyzer == old(self).llm_analyzer,
                start == entry_ids(old(self).memory_system.entries@),
                records@.len() == readable_positions(ins.take(i as int)).len(),
                forall|j: int|
                    0 <= j < records@.len() ==> {
                        let f = ins[readable_positions(ins.take(i as int))[j]];
                        &&& reviewed(
                            old(self).code_analyzer@,
                            old(self).llm_analyzer.model_available,
                            f.path@,
                            f.content->0@,
                            opt_str(f.advisory_reply),
                            now,
                            #[trigger] records@[j],
                        )
                        &&& valid_score(records@[j].score)
                    },
                forall|j: int|
                    0 <= j < readable_positions(ins.take(i as int)).len() ==> 0 <= #[trigger] readable_positions(ins.take(i as int))[j] < i,
                forall|j: int|
                    0 <= j < readable_positions(ins.take(i as int)).len() ==> ins[#[trigger] readable_positions(ins.take(i as int))[j]].content is Some,
                entry_ids(self.memory_system.entries@) == ids_after_stores(start, readable_paths(ins.take(i as int))),
                forall|j: int|
                    0 <= j < readable_positions(ins.take(i as int)).len() && #[trigger] not_reread(
                        ins,
                        readable_positions(ins.take(i as int)),
                        j,
                    ) ==> holds_review(
                        self.memory_system.entries@,
                        ins[readable_positions(ins.take(i as int))[j]].path@,
                        ins[readable_positions(ins.take(i as int))[j]].content->0@,
                    ),
            decreases ins.len() - i,
        {
            let f = &inputs[i];
            let ghost prev = readable_positions(ins.take(i as int));
            let ghost prev_paths = readable_paths(ins.take(i as int));
            let ghost mem_before = self.memory_system.entries@;
            proof {
                assert(ins.take(i + 1).drop_last() =~= ins.take(i as int));
                assert(ins.take(i + 1).last() == *f);
            }
            match &f.content {
                Some(content) => {
                    let reply = match &f.advisory_reply {
                        Some(t) => Some(t.as_str()),
                        None => None,
                    };
                    let rec = self.review_file(f.path.as_str(), content.as_str(), reply, now);
                    records.push(rec);
                    proof {
                        let now_pos = readable_positions(ins.take(i + 1));
                        assert(now_pos == prev + seq![i as int]);
                        assert(readable_paths(ins.take(i + 1)) == prev_paths + seq![f.path@]);
                        assert((prev_paths + seq![f.path@]).drop_last() =~= prev_paths);
                        assert forall|j: int| 0 <= j < records@.len() implies {
                            let g = ins[readable_positions(ins.take(i + 1))[j]];
                            &&& reviewed(
                                old(self).code_analyzer@,
                                old(self).llm_analyzer.model_available,
                                g.path@,
                                g.content->0@,
                                opt_str(g.advisory_reply),
                                now,
                                #[trigger] records@[j],
                            )
                            &&& valid_score(records@[j].score)
                        } by {
                            if j < prev.len() {
                                assert(now_pos[j] == prev[j]);
                            } else {
                                assert(now_pos[j] == i);
                            }
                        }
                        assert forall|j: int|
                            0 <= j < now_pos.len() && #[trigger] not_reread(ins, now_pos, j) implies holds_review(
                                self.memory_system.entries@,
                                ins[now_pos[j]].path@,
                                ins[now_pos[j]].content->0@,
                            ) by {
                            if j < prev.len() {
                                assert(now_pos[j] == prev[j]);
                                assert(now_pos[prev.len() as int] == i);
                                assert(ins[i as int].path@ != ins[prev[j]].path@);
                                assert(not_reread(ins, prev, j)) by {
                                    assert forall|j2: int| j < j2 < prev.len() implies ins[prev[j2]].path@ != ins[prev[j]].path@ by {
                                        assert(now_pos[j2] == prev[j2]);
                                    }
                                }
                                assert(holds_review(mem_before, ins[prev[j]].path@, ins[prev[j]].content->0@));
                            } else {
                                assert(now_pos[j] == i);
                            }
                        }
                    }
                },
                None => {
                    proof {
                        assert(readable_positions(ins.take(i + 1)) =~= prev);
                        assert(readable_paths(ins.take(i + 1)) =~= prev_paths);
                    }
                },
            }
            i = i + 1;
        }
        assert(ins.take(i as int) =~= ins);
        records
    }
}

/// With the advisory backend unavailable, a batch still yields one record
/// for every readable file, and each record's advisory section holds the
/// local heuristic suggestions.
pub proof fn lemma_offline_batch(
    cat: Seq<crate::rules::LanguageRulesView>,
    inputs: Seq<FileInput>,
    now: i64,
    records: Seq<ReviewRecord>,
)
    requires
        records.len() == readable_positions(inputs).len(),
        forall|j: int|
            0 <= j < records.len() ==> {
                let f = inputs[readable_positions(inputs)[j]];
                reviewed(cat, false, f.path@, f.content->0@, opt_str(f.advisory_reply), now, #[trigger] records[j])
            },
    ensures
        records.len() == readable_positions(inputs).len(),
        forall|j: int|
            0 <= j < records.len() ==> {
                let f = inputs[readable_positions(inputs)[j]];
                &&& !(#[trigger] records[j]).llm_analysis.from_backend
                &&& string_views(records[j].llm_analysis.ai_suggestions@)
                    == crate::advisory::fallback_suggestions(f.content->0@, f.path@)
            },
{
    assert forall|j: int| 0 <= j < records.len() implies {
        let f = inputs[readable_positions(inputs)[j]];
        &&& !(#[trigger] records[j]).llm_analysis.from_backend
        &&& string_views(records[j].llm_analysis.ai_suggestions@)
            == crate::advisory::fallback_suggestions(f.content->0@, f.path@)
    } by {
        let f = inputs[readable_positions(inputs)[j]];
        assert(reviewed(cat, false, f.path@, f.content->0@, opt_str(f.advisory_reply), now, records[j]));
    }
}

/// Where one file stands in its review.
#[derive(Clone, Copy, Debug, PartialEq, Eq, Structural)]
pub enum FileStage {
    Discovered,
    Reading,
    Analyzing,
    Scored,
    Persisted,
    Failed,
}

/// What happened to a file at its current stage.
#[derive(Clone, Copy, Debug, PartialEq, Eq, Structural)]
pub enum StageEvent {
    Start,
    ReadOk,
    ReadFailed,
    Analyzed,
    AnalysisFailed,
    Stored,
}

/// The stage after an event; an event that does not apply to a stage
/// leaves it where it is.
pub open spec fn next_stage(s: FileStage, e: StageEvent) -> FileStage {
    match (s, e) {
        (FileStage::Discovered, StageEvent::Start) => FileStage::Reading,
        (FileStage::Reading, StageEvent::ReadOk) => FileStage::Analyzing,
        (FileStage::Reading, StageEvent::ReadFailed) => FileStage::Failed,
        (FileStage::Analyzing, StageEvent::Analyzed) => FileStage::Scored,
        (FileStage::Analyzing, StageEvent::AnalysisFailed) => FileStage::Failed,
        (FileStage::Scored, StageEvent::Stored) => FileStage::Persisted,
        _ => s,
    }
}

/// The stage after an event.
pub fn advance(s: FileStage, e: StageEvent) -> (r: FileStage)
    ensures
        r == next_stage(s, e),
{
    match (s, e) {
        (FileStage::Discovered, StageEvent::Start) => FileStage::Reading,
        (FileStage::Reading, StageEvent::ReadOk) => FileStage::Analyzing,
        (FileStage::Reading, StageEvent::ReadFailed) => FileStage::Failed,
        (FileStage::Analyzing, StageEvent::Analyzed) => FileStage::Scored,
        (FileStage::Analyzing, StageEvent::AnalysisFailed) => FileStage::Failed,
        (FileStage::Scored, StageEvent::Stored) => FileStage::Persisted,
        _ => s,
    }
}

/// A file's review fails only while it is read or analyzed, and a finished
/// review, persisted or failed, stays finished.
pub proof fn lemma_stage_transitions(s: FileStage, e: StageEvent)
    ensures
        next_stage(s, e) == FileStage::Failed && s != FileStage::Failed ==> s == FileStage::Reading
            || s == FileStage::Analyzing,
        s == FileStage::Persisted || s == FileStage::Failed ==> next_stage(s, e) == s,
{
}

/// The number of issues over all records.
pub open spec fn issue_total(rs: Seq<ReviewRecord>) -> int
    decreases rs.len(),
{
    if rs.len() == 0 {
        0
    } else {
        issue_total(rs.drop_last()) + rs.last().issues@.len()
    }
}

/// The number of suggestions over all records.
pub open spec fn suggestion_total(rs: Seq<ReviewRecord>) -> int
    decreases rs.len(),
{
    if rs.len() == 0 {
        0
    } else {
        suggestion_total(rs.drop_last()) + rs.last().suggestions@.len()
    }
}

/// The sum of the records' scores, each in millionths rounded down.
pub open spec fn score_total(rs: Seq<ReviewRecord>) -> int
    decreases rs.len(),
{
    if rs.len() == 0 {
        0
    } else {
        score_total(rs.drop_last()) + rs.last().score@.0 * 1_000_000 / rs.last().score@.1
    }
}

/// Counts over a batch: how many files were attempted and reviewed, the
/// issues and suggestions found, and the mean score in millionths (none for
/// an empty batch).
pub struct ReviewSummary {
    pub files_attempted: usize,
    pub files_reviewed: usize,
    pub total_issues: u128,
    pub total_suggestions: u128,
    pub mean_score_millionths: Option<u128>,
}

/// The summary of a batch of `attempted` files that produced `records`.
pub fn summarize(attempted: usize, records: &Vec<ReviewRecord>) -> (r: ReviewSummary)
    requires
        forall|j: int| 0 <= j < records@.len() ==> valid_score(#[trigger] records@[j].score),
    ensures
        r.files_attempted == attempted,
        r.files_reviewed == records@.len(),
        r.total_issues == issue_total(records@),
        r.total_suggestions == suggestion_total(records@),
        r.mean_score_millionths == if records@.len() == 0 {
            None
        } else {
            Some((score_total(records@) / records@.len() as int) as u128)
        },
{
    let ghost rs = records@;
    let mut issues: u128 = 0;
    let mut suggestions: u128 = 0;
    let mut scores: u128 = 0;
    let mut i: usize = 0;
    assert(rs.take(0) =~= Seq::<ReviewRecord>::empty());
    while i < records.len()
        invariant
            rs == records@,
            i <= rs.len(),
            forall|j: int| 0 <= j < rs.len() ==> valid_score(#[trigger] rs[j].score),
            issues == issue_total(rs.take(i as int)),
            suggestions == suggestion_total(rs.take(i as int)),
            scores == score_total(rs.take(i as int)),
            issues <= i * 0x1_0000_0000_0000_0000,
            suggestions <= i * 0x1_0000_0000_0000_0000,
            scores <= i * 1_000_000,
        decreases rs.len() - i,
    {
        let rec = &records[i];
        proof {
            assert(rs.take(i + 1).drop_last() =~= rs.take(i as int));
            assert(rs.take(i + 1).last() == *rec);
            assert(valid_score(rs[i as int].score));
        }
        let ni = rec.issues.len();
        let ns = rec.suggestions.len();
        assert(ni <= 0xFFFF_FFFF_FFFF_FFFF);
        assert(ns <= 0xFFFF_FFFF_FFFF_FFFF);
        issues = issues + ni as u128;
        suggestions = suggestions + ns as u128;
        scores = scores + rec.score.millionths();
        i = i + 1;
    }
    assert(rs.take(i as int) =~= rs);
    let mean = if records.len() == 0 {
        None
    } else {
        Some(scores / (records.len() as u128))
    };
    ReviewSummary {
        files_attempted: attempted,
        files_reviewed: records.len(),
        total_issues: issues,
        total_suggestions: suggestions,
        mean_score_millionths: mean,
    }
}

/// An illustrative patch for one suggestion of one file.
pub struct PatchArtifact {
    pub name: String,
    pub content: String,
}

pub open spec fn replace_char(s: Seq<char>, from: char, to: char) -> Seq<char> {
    s.map_values(|c: char| if c == from { to } else { c })
}

/// The artifact's name: the path with separators made underscores, then the
/// title with spaces made underscores.
pub open spec fn patch_name(path: Seq<char>, title: Seq<char>) -> Seq<char> {
    replace_char(replace_char(path, '/', '_'), '\\', '_') + "_"@ + replace_char(title, ' ', '_')
        + ".patch"@
}

/// The artifact's text: a unified-diff header naming the file, then the
/// snippet.
pub open spec fn patch_body(path: Seq<char>, code: Seq<char>) -> Seq<char> {
    "--- "@ + path + "\n+++ "@ + path + "\n@@ -1,1 +1,1 @@\n"@ + code + "\n"@
}

pub open spec fn patch_view(p: PatchArtifact) -> (Seq<char>, Seq<char>) {
    (p.name@, p.content@)
}

/// The patches of the suggestions `ss` of the file at `path`: one for each
/// that carries code, in order.
pub open spec fn suggestion_patches(path: Seq<char>, ss: Seq<Suggestion>) -> Seq<(Seq<char>, Seq<char>)>
    decreases ss.len(),
{
    if ss.len() == 0 {
        seq![]
    } else {
        suggestion_patches(path, ss.drop_last()) + match ss.last().code {
            Some(c) => seq![(patch_name(path, ss.last().title@), patch_body(path, c@))],
            None => seq![],
        }
    }
}

/// The patches of a batch of records, record by record.
pub open spec fn batch_patches(rs: Seq<ReviewRecord>) -> Seq<(Seq<char>, Seq<char>)>
    decreases rs.len(),
{
    if rs.len() == 0 {
        seq![]
    } else {
        batch_patches(rs.drop_last()) + suggestion_patches(rs.last().identity@, rs.last().suggestions@)
    }
}

fn replace_chars(s: &Vec<char>, from: char, to: char) -> (r: Vec<char>)
    ensures
        r@ == replace_char(s@, from, to),
{
    let mut v: Vec<char> = Vec::new();
    let mut i: usize = 0;
    while i < s.len()
        invariant
            i <= s@.len(),
            v@ == replace_char(s@.take(i as int), from, to),
        decreases s@.len() - i,
    {
        let c = s[i];
        v.push(if c == from { to } else { c });
        assert(replace_char(s@.take(i + 1), from, to) =~= replace_char(s@.take(i as int), from, to).push(
            if c == from { to } else { c },
        ));
        i = i + 1;
    }
    assert(s@.take(i as int) =~= s@);
    v
}

fn patch_of(path: &Vec<char>, title: &str, code: &str) -> (r: PatchArtifact)
    ensures
        patch_view(r) == (patch_name(path@, title@), patch_body(path@, code@)),
{
    let p1 = replace_chars(path, '/', '_');
    let p2 = replace_chars(&p1, '\\', '_');
    let t = replace_chars(&chars_of(title), ' ', '_');
    let n1 = concat_chars(&p2, &chars_of("_"));
    let n2 = concat_chars(&n1, &t);
    let name = concat_chars(&n2, &chars_of(".patch"));
    let b1 = concat_chars(&chars_of("--- "), path);
    let b2 = concat_chars(&b1, &chars_of("\n+++ "));
    let b3 = concat_chars(&b2, path);
    let b4 = concat_chars(&b3, &chars_of("\n@@ -1,1 +1,1 @@\n"));
    let b5 = concat_chars(&b4, &chars_of(code));
    let body = concat_chars(&b5, &chars_of("\n"));
    PatchArtifact { name: string_of(&name), content: string_of(&body) }
}

/// One illustrative patch per suggestion that carries code, over a batch of
/// records, in order.
pub fn generate_patches(records: &Vec<ReviewRecord>) -> (r: Vec<PatchArtifact>)
    ensures
        r@.map_values(|p: PatchArtifact| patch_view(p)) == batch_patches(records@),
{
    let ghost rs = records@;
    let mut out: Vec<PatchArtifact> = Vec::new();
    let mut i: usize = 0;
    assert(rs.take(0) =~= Seq::<ReviewRecord>::empty());
    while i < records.len()
        invariant
            rs == records@,
            i <= rs.len(),
            out@.map_values(|p: PatchArtifact| patch_view(p)) == batch_patches(rs.take(i as int)),
        decreases rs.len() - i,
    {
        let rec = &records[i];
        let path = chars_of(rec.identity.as_str());
        let ghost ss = rec.suggestions@;
        let ghost base = out@.map_values(|p: PatchArtifact| patch_view(p));
        let mut k: usize = 0;
        assert(ss.take(0) =~= Seq::<Suggestion>::empty());
        assert(base + suggestion_patches(rec.identity@, ss.take(0)) =~= base);
        while k < rec.suggestions.len()
            invariant
                ss == rec.suggestions@,
                path@ == rec.identity@,
                k <= ss.len(),
                out@.map_values(|p: PatchArtifact| patch_view(p)) == base + suggestion_patches(
                    rec.identity@,
                    ss.take(k as int),
                ),
            decreases ss.len() - k,
        {
            let sug = &rec.suggestions[k];
            let ghost before = out@.map_values(|p: PatchArtifact| patch_view(p));
            proof {
                assert(ss.take(k + 1).drop_last() =~= ss.take(k as int));
                assert(ss.take(k + 1).last() == *sug);
            }
            match &sug.code {
                Some(code) => {
                    let p = patch_of(&path, sug.title.as_str(), code.as_str());
                    out.push(p);
                    assert(out@.map_values(|p: PatchArtifact| patch_view(p)) =~= before.push(patch_view(p)));
                },
                None => {
                },
            }
            k = k + 1;
        }
        proof {
            assert(ss.take(k as int) =~= ss);
            assert(rs.take(i + 1).drop_last() =~= rs.take(i as int));
            assert(rs.take(i + 1).last() == *rec);
        }
        i = i + 1;
    }
    assert(rs.take(i as int) =~= rs);
    out
}

} // verus!
