//! The memory store: review records and file contents keyed by identity,
//! with derived metadata, search, recency and aggregate statistics. The
//! store is plain state; reading and writing its persisted form is left to
//! the caller.

use vstd::prelude::*;
use vstd::set_lib::{lemma_int_range, lemma_len_subset, set_int_range};
use crate::analyzer::present_if;
use crate::compat::string_views;
use crate::language::{content_language, language_of_content, Language};
use crate::text::{
    chars_of, concat_chars, contains, contains_chars, contains_lit, function_name,
    function_name_chars, lines_of, lower_of, lowercase, split_lines, string_of, views,
};

verus! {

/// The analysis that a review attached to a stored file.
pub struct AnalysisResults {
    pub issues: Vec<String>,
    pub suggestions: Vec<String>,
    pub score_millionths: u128,
}

/// What the store derives from a file's content.
pub struct MemoryMetadata {
    pub file_size: usize,
    pub language: Language,
    pub last_modified: i64,
    pub tags: Vec<String>,
}

/// One stored file.
pub struct MemoryEntry {
    pub id: String,
    pub file_path: String,
    pub content: String,
    pub analysis_results: Option<AnalysisResults>,
    pub metadata: MemoryMetadata,
    pub created_at: i64,
    pub updated_at: i64,
}

/// Marker tags of the lines: `todo`, `fixme` and `bug`, per line, in line
/// order.
pub open spec fn marker_tags(ls: Seq<Seq<char>>) -> Seq<Seq<char>>
    decreases ls.len(),
{
    if ls.len() == 0 {
        seq![]
    } else {
        let l = ls.last();
        marker_tags(ls.drop_last()) + present_if(contains(l, "TODO"@), "todo"@) + present_if(
            contains(l, "FIXME"@),
            "fixme"@,
        ) + present_if(contains(l, "BUG"@), "bug"@)
    }
}

/// Function tags of the lines: `fn:` and the declared name, in line order.
pub open spec fn function_tags(ls: Seq<Seq<char>>) -> Seq<Seq<char>>
    decreases ls.len(),
{
    if ls.len() == 0 {
        seq![]
    } else {
        function_tags(ls.drop_last()) + match function_name(ls.last()) {
            Some(n) => seq!["fn:"@ + n],
            None => seq![],
        }
    }
}

/// The tags of a content: its marker tags, then its function tags.
pub open spec fn tags_of(c: Seq<char>) -> Seq<Seq<char>> {
    marker_tags(lines_of(c)) + function_tags(lines_of(c))
}

/// The metadata that content `c`, of `bytes` bytes, has at time `now`.
pub open spec fn metadata_of(m: MemoryMetadata, c: Seq<char>, bytes: int, now: i64) -> bool {
    &&& m.file_size == bytes
    &&& m.language == language_of_content(c)
    &&& m.last_modified == now
    &&& string_views(m.tags@) == tags_of(c)
}

/// The identities of a sequence of entries.
pub open spec fn entry_ids(es: Seq<MemoryEntry>) -> Seq<Seq<char>> {
    es.map_values(|e: MemoryEntry| e.id@)
}

/// The identities after storing `id`: unchanged if it is there, else `id`
/// added at the end.
pub open spec fn ids_after_store(ids: Seq<Seq<char>>, id: Seq<char>) -> Seq<Seq<char>> {
    if ids.contains(id) {
        ids
    } else {
        ids.push(id)
    }
}

/// The identities after storing each of `stored`, in order.
pub open spec fn ids_after_stores(ids: Seq<Seq<char>>, stored: Seq<Seq<char>>) -> Seq<Seq<char>>
    decreases stored.len(),
{
    if stored.len() == 0 {
        ids
    } else {
        ids_after_store(ids_after_stores(ids, stored.drop_last()), stored.last())
    }
}

/// An entry freshly written for `id` and content `c` at time `now`.
pub open spec fn written_entry(e: MemoryEntry, id: Seq<char>, c: Seq<char>, bytes: int, now: i64, created: i64) -> bool {
    &&& e.id@ == id
    &&& e.file_path@ == id
    &&& e.content@ == c
    &&& e.analysis_results is None
    &&& metadata_of(e.metadata, c, bytes, now)
    &&& e.created_at == created
    &&& e.updated_at == now
}

/// The store.
pub struct MemorySystem {
    pub memory_file: String,
    pub entries: Vec<MemoryEntry>,
}

/// Relies on `DateTime<Utc>::from(SystemTime)` and `DateTime::timestamp_millis`:
/// the system clock in milliseconds since the Unix epoch, negative for a clock
/// set before 1970. Nothing is assumed of its value.
#[verifier::external_body]
fn now_millis() -> i64 {
    chrono::DateTime::<chrono::Utc>::from(std::time::SystemTime::now()).timestamp_millis()
}

fn marker_tags_chars(lines: &Vec<Vec<char>>, tags: &mut Vec<String>)
    ensures
        string_views(final(tags)@) == string_views(old(tags)@) + marker_tags(views(lines@)),
{
    let ghost ls = views(lines@);
    let ghost start = string_views(tags@);
    let mut i: usize = 0;
    assert(ls.take(0) =~= Seq::<Seq<char>>::empty());
    assert(start + marker_tags(ls.take(0)) =~= start);
    while i < lines.len()
        invariant
            ls == views(lines@),
            i <= ls.len(),
            string_views(tags@) == start + marker_tags(ls.take(i as int)),
        decreases ls.len() - i,
    {
        let l = &lines[i];
        let ghost before = string_views(tags@);
        proof {
            assert(ls.take(i + 1).drop_last() =~= ls.take(i as int));
            assert(ls.take(i + 1).last() == l@);
        }
        let a = contains_lit(l, "TODO");
        let b = contains_lit(l, "FIXME");
        let c = contains_lit(l, "BUG");
        if a {
            tags.push("todo".to_string());
        }
        if b {
            tags.push("fixme".to_string());
        }
        if c {
            tags.push("bug".to_string());
        }
        assert(string_views(tags@) =~= before + present_if(a, "todo"@) + present_if(b, "fixme"@)
            + present_if(c, "bug"@));
        i = i + 1;
    }
    assert(ls.take(i as int) =~= ls);
}

fn function_tags_chars(lines: &Vec<Vec<char>>, tags: &mut Vec<String>)
    ensures
        string_views(final(tags)@) == string_views(old(tags)@) + function_tags(views(lines@)),
{
    let ghost ls = views(lines@);
    let ghost start = string_views(tags@);
    let prefix = chars_of("fn:");
    let mut i: usize = 0;
    assert(ls.take(0) =~= Seq::<Seq<char>>::empty());
    assert(start + function_tags(ls.take(0)) =~= start);
    while i < lines.len()
        invariant
            ls == views(lines@),
            prefix@ == "fn:"@,
            i <= ls.len(),
            string_views(tags@) == start + function_tags(ls.take(i as int)),
        decreases ls.len() - i,
    {
        let l = &lines[i];
        let ghost before = string_views(tags@);
        proof {
            assert(ls.take(i + 1).drop_last() =~= ls.take(i as int));
            assert(ls.take(i + 1).last() == l@);
        }
        match function_name_chars(l) {
            Some(n) => {
                let t = concat_chars(&prefix, &n);
                tags.push(string_of(&t));
                assert(string_views(tags@) =~= before + seq!["fn:"@ + n@]);
            },
            None => {
                assert(string_views(tags@) =~= before + Seq::<Seq<char>>::empty());
            },
        }
        i = i + 1;
    }
    assert(ls.take(i as int) =~= ls);
}

/// The tags of a content.
pub fn extract_tags(content: &str) -> (r: Vec<String>)
    ensures
        string_views(r@) == tags_of(content@),
{
    let c = chars_of(content);
    let lines = split_lines(&c);
    let mut tags: Vec<String> = Vec::new();
    marker_tags_chars(&lines, &mut tags);
    function_tags_chars(&lines, &mut tags);
    assert(string_views(tags@) =~= tags_of(content@));
    tags
}

/// The metadata of a content at time `now`.
pub fn extract_metadata(content: &str, now: i64) -> (r: MemoryMetadata)
    ensures
        metadata_of(r, content@, content.len() as int, now),
{
    let c = chars_of(content);
    MemoryMetadata {
        file_size: content.len(),
        language: content_language(&c),
        last_modified: now,
        tags: extract_tags(content),
    }
}

impl MemorySystem {
    /// Identities are unique.
    pub open spec fn wf(&self) -> bool {
        entry_ids(self.entries@).no_duplicates()
    }

    /// An empty store that persists to `memory_file`.
    pub fn new(memory_file: &str) -> (r: MemorySystem)
        ensures
            r.wf(),
            r.memory_file@ == memory_file@,
            r.entries@.len() == 0,
    {
        let r = MemorySystem { memory_file: memory_file.to_string(), entries: Vec::new() };
        assert(entry_ids(r.entries@) =~= Seq::<Seq<char>>::empty());
        r
    }

    /// The position of the entry with identity `file_id`.
    pub fn position(&self, file_id: &str) -> (r: Option<usize>)
        ensures
            match r {
                Some(k) => k < self.entries@.len() && self.entries@[k as int].id@ == file_id@,
                None => !entry_ids(self.entries@).contains(file_id@),
            },
    {
        let id = chars_of(file_id);
        let mut i: usize = 0;
        while i < self.entries.len()
            invariant
                id@ == file_id@,
                i <= self.entries@.len(),
                forall|j: int| 0 <= j < i ==> self.entries@[j].id@ != file_id@,
            decreases self.entries@.len() - i,
        {
            let e = chars_of(self.entries[i].id.as_str());
            if crate::text::same_chars(&e, &id) {
                return Some(i);
            }
            i = i + 1;
        }
        proof {
            if entry_ids(self.entries@).contains(file_id@) {
                let j = choose|j: int| 0 <= j < entry_ids(self.entries@).len() && entry_ids(self.entries@)[j] == file_id@;
                assert(self.entries@[j].id@ == file_id@);
            }
        }
        None
    }

    /// Stores a file at time `now`: its entry is rewritten in place if its
    /// identity is there (keeping its creation time), else added at the end.
    pub fn store_file_at(&mut self, file_id: &str, content: &str, now: i64)
        requires
            old(self).wf(),
        ensures
            final(self).wf(),
            final(self).memory_file == old(self).memory_file,
            entry_ids(final(self).entries@) == ids_after_store(entry_ids(old(self).entries@), file_id@),
            match old(self).position_spec(file_id@) {
                Some(k) => {
                    &&& final(self).entries@.len() == old(self).entries@.len()
                    &&& written_entry(final(self).entries@[k], file_id@, content@, content.len() as int, now, old(self).entries@[k].created_at)
                    &&& forall|j: int| 0 <= j < final(self).entries@.len() && j != k ==> final(self).entries@[j] == old(self).entries@[j]
                },
                None => {
                    &&& final(self).entries@.len() == old(self).entries@.len() + 1
                    &&& written_entry(final(self).entries@.last(), file_id@, content@, content.len() as int, now, now)
                    &&& forall|j: int| 0 <= j < old(self).entries@.len() ==> final(self).entries@[j] == old(self).entries@[j]
                },
            },
    {
        let metadata = extract_metadata(content, now);
        let pos = self.position(file_id);
        proof {
            self.lemma_position_spec(file_id@);
        }
        match pos {
            Some(k) => {
                let created = self.entries[k].created_at;
                let e = MemoryEntry {
                    id: file_id.to_string(),
                    file_path: file_id.to_string(),
                    content: content.to_string(),
                    analysis_results: None,
                    metadata,
                    created_at: created,
                    updated_at: now,
                };
                let ghost old_entries = self.entries@;
                self.entries.set(k, e);
                assert(entry_ids(self.entries@) =~= entry_ids(old_entries));
            },
            None => {
                let e = MemoryEntry {
                    id: file_id.to_string(),
                    file_path: file_id.to_string(),
                    content: content.to_string(),
                    analysis_results: None,
                    metadata,
                    created_at: now,
                    updated_at: now,
                };
                let ghost old_entries = self.entries@;
                self.entries.push(e);
                assert(entry_ids(self.entries@) =~= entry_ids(old_entries).push(file_id@));
            },
        }
    }

    /// Stores a file at the current time: as `store_file_at`, with the time
    /// read from the clock.
    pub fn store_file(&mut self, file_id: &str, content: &str)
        requires
            old(self).wf(),
        ensures
            final(self).wf(),
            final(self).memory_file == old(self).memory_file,
            entry_ids(final(self).entries@) == ids_after_store(entry_ids(old(self).entries@), file_id@),
            match old(self).position_spec(file_id@) {
                Some(k) => {
                    &&& final(self).entries@.len() == old(self).entries@.len()
                    &&& written_entry(final(self).entries@[k], file_id@, content@, content.len() as int, final(self).entries@[k].updated_at, old(self).entries@[k].created_at)
                    &&& forall|j: int| 0 <= j < final(self).entries@.len() && j != k ==> final(self).entries@[j] == old(self).entries@[j]
                },
                None => {
                    &&& final(self).entries@.len() == old(self).entries@.len() + 1
                    &&& written_entry(final(self).entries@.last(), file_id@, content@, content.len() as int, final(self).entries@.last().updated_at, final(self).entries@.last().updated_at)
                    &&& forall|j: int| 0 <= j < old(self).entries@.len() ==> final(self).entries@[j] == old(self).entries@[j]
                },
            },
    {
        let now = now_millis();
        self.store_file_at(file_id, content, now);
    }

    /// The position of identity `id`, if it is stored.
    pub open spec fn position_spec(&self, id: Seq<char>) -> Option<int> {
        if entry_ids(self.entries@).contains(id) {
            Some(choose|k: int| 0 <= k < self.entries@.len() && self.entries@[k].id@ == id)
        } else {
            None
        }
    }

    pub proof fn lemma_position_spec(&self, id: Seq<char>)
        requires
            self.wf(),
        ensures
            match self.position_spec(id) {
                Some(k) => 0 <= k < self.entries@.len() && self.entries@[k].id@ == id && forall|j: int|
                    0 <= j < self.entries@.len() && self.entries@[j].id@ == id ==> j == k,
                None => forall|j: int| 0 <= j < self.entries@.len() ==> self.entries@[j].id@ != id,
            },
    {
        let ids = entry_ids(self.entries@);
        if ids.contains(id) {
            let w = choose|k: int| 0 <= k < ids.len() && ids[k] == id;
            assert(self.entries@[w].id@ == id);
            let k = choose|k: int| 0 <= k < self.entries@.len() && self.entries@[k].id@ == id;
            assert forall|j: int| 0 <= j < self.entries@.len() && self.entries@[j].id@ == id implies j == k by {
                assert(ids[j] == ids[k]);
            }
        } else {
            assert forall|j: int| 0 <= j < self.entries@.len() implies self.entries@[j].id@ != id by {
                assert(ids[j] == self.entries@[j].id@);
            }
        }
    }

    /// The entry with identity `file_id`.
    pub fn get_file(&self, file_id: &str) -> (r: Option<&MemoryEntry>)
        requires
            self.wf(),
        ensures
            match r {
                Some(e) => self.position_spec(file_id@) is Some && *e == self.entries@[self.position_spec(file_id@)->0],
                None => self.position_spec(file_id@) is None,
            },
    {
        proof {
            self.lemma_position_spec(file_id@);
        }
        match self.position(file_id) {
            Some(k) => Some(&self.entries[k]),
            None => None,
        }
    }

    /// Attaches an analysis to the entry with identity `file_id` at time
    /// `now`; tells whether there was one.
    pub fn update_analysis_at(&mut self, file_id: &str, analysis: AnalysisResults, now: i64) -> (found: bool)
        requires
            old(self).wf(),
        ensures
            final(self).wf(),
            final(self).memory_file == old(self).memory_file,
            entry_ids(final(self).entries@) == entry_ids(old(self).entries@),
            found == old(self).position_spec(file_id@) is Some,
            match old(self).position_spec(file_id@) {
                Some(k) => {
                    &&& final(self).entries@.len() == old(self).entries@.len()
                    &&& final(self).entries@[k].id == old(self).entries@[k].id
                    &&& final(self).entries@[k].file_path == old(self).entries@[k].file_path
                    &&& final(self).entries@[k].analysis_results == Some(analysis)
                    &&& final(self).entries@[k].updated_at == now
                    &&& final(self).entries@[k].content == old(self).entries@[k].content
                    &&& final(self).entries@[k].metadata == old(self).entries@[k].metadata
                    &&& final(self).entries@[k].created_at == old(self).entries@[k].created_at
                    &&& forall|j: int| 0 <= j < final(self).entries@.len() && j != k ==> final(self).entries@[j] == old(self).entries@[j]
                },
                None => final(self).entries@ == old(self).entries@,
            },
    {
        proof {
            self.lemma_position_spec(file_id@);
        }
        match self.position(file_id) {
            Some(k) => {
                let ghost old_entries = self.entries@;
                let mut e = self.entries.remove(k);
                e.analysis_results = Some(analysis);
                e.updated_at = now;
                self.entries.insert(k, e);
                assert(entry_ids(self.entries@) =~= entry_ids(old_entries));
                assert forall|j: int| 0 <= j < self.entries@.len() && j != k implies self.entries@[j] == old_entries[j] by {
                    if j < k {
                    } else {
                    }
                }
                true
            },
            None => false,
        }
    }

    /// Attaches an analysis to the entry with identity `file_id` at the
    /// current time; tells whether there was one.
    pub fn update_analysis(&mut self, file_id: &str, analysis: AnalysisResults) -> (found: bool)
        requires
            old(self).wf(),
        ensures
            final(self).wf(),
            entry_ids(final(self).entries@) == entry_ids(old(self).entries@),
            found == old(self).position_spec(file_id@) is Some,
            match old(self).position_spec(file_id@) {
                Some(k) => {
                    &&& final(self).entries@.len() == old(self).entries@.len()
                    &&& final(self).entries@[k].id == old(self).entries@[k].id
                    &&& final(self).entries@[k].file_path == old(self).entries@[k].file_path
                    &&& final(self).entries@[k].analysis_results == Some(analysis)
                    &&& final(self).entries@[k].content == old(self).entries@[k].content
                    &&& final(self).entries@[k].metadata == old(self).entries@[k].metadata
                    &&& final(self).entries@[k].created_at == old(self).entries@[k].created_at
                    &&& forall|j: int| 0 <= j < final(self).entries@.len() && j != k ==> final(self).entries@[j] == old(self).entries@[j]
                },
                None => final(self).entries@ == old(self).entries@,
            },
    {
        let now = now_millis();
        self.update_analysis_at(file_id, analysis, now)
    }

    /// Removes every entry.
    pub fn clear_memory(&mut self)
        ensures
            final(self).wf(),
            final(self).memory_file == old(self).memory_file,
            final(self).entries@.len() == 0,
    {
        self.entries = Vec::new();
        assert(entry_ids(self.entries@) =~= Seq::<Seq<char>>::empty());
    }
}

/// Storing an identity that is already there adds no second entry.
pub proof fn lemma_store_twice(ids: Seq<Seq<char>>, id: Seq<char>)
    ensures
        ids_after_store(ids_after_store(ids, id), id) == ids_after_store(ids, id),
        ids_after_store(ids, id).contains(id),
{
    if !ids.contains(id) {
        assert(ids.push(id)[ids.len() as int] == id);
    }
}

/// Storing `n` distinct identities into an empty store leaves `n` entries,
/// one for each.
pub proof fn lemma_distinct_stores(stored: Seq<Seq<char>>)
    requires
        stored.no_duplicates(),
    ensures
        ids_after_stores(Seq::empty(), stored) == stored,
    decreases stored.len(),
{
    if stored.len() > 0 {
        let front = stored.drop_last();
        assert(front.no_duplicates());
        lemma_distinct_stores(front);
        assert(!front.contains(stored.last()));
        assert(front.push(stored.last()) =~= stored);
    }
}

/// The entry holds the lowercased query `fq` in its lowercased content, path
/// or one of its lowercased tags.
pub open spec fn entry_matches(e: MemoryEntry, fq: Seq<char>) -> bool {
    contains(lower_of(e.content@), fq) || contains(lower_of(e.file_path@), fq) || exists|k: int|
        0 <= k < e.metadata.tags@.len() && contains(lower_of(#[trigger] e.metadata.tags@[k]@), fq)
}

/// The entry carries an analysis with at least one issue.
pub open spec fn has_issues(e: MemoryEntry) -> bool {
    e.analysis_results is Some && e.analysis_results->0.issues@.len() > 0
}

/// The entries of a sequence of references.
pub open spec fn derefs(v: Seq<&MemoryEntry>) -> Seq<MemoryEntry> {
    v.map_values(|e: &MemoryEntry| *e)
}

/// Whether lowercased content, path or tags hold a lowercased query.
pub fn matches_folded(folded_query: &str, folded_content: &str, folded_path: &str, folded_tags: &Vec<String>) -> (r: bool)
    ensures
        r == (contains(folded_content@, folded_query@) || contains(folded_path@, folded_query@)
            || exists|k: int| 0 <= k < folded_tags@.len() && contains(#[trigger] folded_tags@[k]@, folded_query@)),
{
    let q = chars_of(folded_query);
    if contains_chars(&chars_of(folded_content), &q) || contains_chars(&chars_of(folded_path), &q) {
        return true;
    }
    let mut k: usize = 0;
    while k < folded_tags.len()
        invariant
            q@ == folded_query@,
            k <= folded_tags@.len(),
            forall|j: int| 0 <= j < k ==> !contains(#[trigger] folded_tags@[j]@, folded_query@),
        decreases folded_tags@.len() - k,
    {
        if contains_chars(&chars_of(folded_tags[k].as_str()), &q) {
            return true;
        }
        k = k + 1;
    }
    false
}

fn entry_matches_exec(e: &MemoryEntry, fq: &str) -> (r: bool)
    ensures
        r == entry_matches(*e, fq@),
{
    let fc = lowercase(e.content.as_str());
    let fp = lowercase(e.file_path.as_str());
    let mut ft: Vec<String> = Vec::new();
    let mut k: usize = 0;
    while k < e.metadata.tags.len()
        invariant
            k <= e.metadata.tags@.len(),
            ft@.len() == k,
            forall|j: int| 0 <= j < k ==> #[trigger] ft@[j]@ == lower_of(e.metadata.tags@[j]@),
        decreases e.metadata.tags@.len() - k,
    {
        ft.push(lowercase(e.metadata.tags[k].as_str()));
        k = k + 1;
    }
    let r = matches_folded(fq, fc.as_str(), fp.as_str(), &ft);
    proof {
        if exists|j: int| 0 <= j < ft@.len() && contains(#[trigger] ft@[j]@, fq@) {
            let j = choose|j: int| 0 <= j < ft@.len() && contains(#[trigger] ft@[j]@, fq@);
            assert(contains(lower_of(e.metadata.tags@[j]@), fq@));
        }
        if exists|j: int| 0 <= j < e.metadata.tags@.len() && contains(lower_of(#[trigger] e.metadata.tags@[j]@), fq@) {
            let j = choose|j: int| 0 <= j < e.metadata.tags@.len() && contains(lower_of(#[trigger] e.metadata.tags@[j]@), fq@);
            assert(contains(ft@[j]@, fq@));
        }
    }
    r
}

/// One entry per language tag, in a fixed order, with how many entries
/// have that language.
pub struct LanguageCount {
    pub language: Language,
    pub count: usize,
}

/// Aggregate statistics of the store.
pub struct MemoryStatistics {
    pub total_files: usize,
    pub total_lines: u128,
    pub languages: Vec<LanguageCount>,
    pub files_with_issues: usize,
    pub memory_size_bytes: usize,
}

/// Every language tag, in the order of the histogram.
pub open spec fn all_languages() -> Seq<Language> {
    seq![
        Language::Rust,
        Language::Python,
        Language::JavaScript,
        Language::Java,
        Language::Cpp,
        Language::Go,
        Language::Unknown,
    ]
}

pub open spec fn language_count(es: Seq<MemoryEntry>, l: Language) -> nat {
    es.filter(|e: MemoryEntry| e.metadata.language == l).len()
}

/// The number of lines over all entries.
pub open spec fn total_lines(es: Seq<MemoryEntry>) -> int
    decreases es.len(),
{
    if es.len() == 0 {
        0
    } else {
        total_lines(es.drop_last()) + lines_of(es.last().content@).len()
    }
}

impl MemorySystem {
    /// The entries that hold a query, case-insensitively, in their content,
    /// path or tags, in store order.
    pub fn search_files(&self, query: &str) -> (r: Vec<&MemoryEntry>)
        ensures
            derefs(r@) == self.entries@.filter(|e: MemoryEntry| entry_matches(e, lower_of(query@))),
    {
        let fq = lowercase(query);
        let ghost pred = |e: MemoryEntry| entry_matches(e, lower_of(query@));
        let ghost es = self.entries@;
        let mut r: Vec<&MemoryEntry> = Vec::new();
        let mut i: usize = 0;
        assert(es.take(0) =~= Seq::<MemoryEntry>::empty());
        assert(derefs(r@) =~= es.take(0).filter(pred));
        while i < self.entries.len()
            invariant
                es == self.entries@,
                fq@ == lower_of(query@),
                pred == (|e: MemoryEntry| entry_matches(e, lower_of(query@))),
                i <= es.len(),
                derefs(r@) == es.take(i as int).filter(pred),
            decreases es.len() - i,
        {
            let e = &self.entries[i];
            proof {
                assert(es.take(i + 1) =~= es.take(i as int).push(*e));
                es.take(i as int).lemma_filter_push(*e, pred);
            }
            let ghost before = derefs(r@);
            if entry_matches_exec(e, fq.as_str()) {
                r.push(e);
                assert(derefs(r@) =~= before.push(*e));
            }
            i = i + 1;
        }
        assert(es.take(i as int) =~= es);
        r
    }

    /// The entries whose detected language is `language`, in store order.
    pub fn get_files_by_language(&self, language: Language) -> (r: Vec<&MemoryEntry>)
        ensures
            derefs(r@) == self.entries@.filter(|e: MemoryEntry| e.metadata.language == language),
    {
        let ghost pred = |e: MemoryEntry| e.metadata.language == language;
        let ghost es = self.entries@;
        let mut r: Vec<&MemoryEntry> = Vec::new();
        let mut i: usize = 0;
        assert(es.take(0) =~= Seq::<MemoryEntry>::empty());
        assert(derefs(r@) =~= es.take(0).filter(pred));
        while i < self.entries.len()
            invariant
                es == self.entries@,
                pred == (|e: MemoryEntry| e.metadata.language == language),
                i <= es.len(),
                derefs(r@) == es.take(i as int).filter(pred),
            decreases es.len() - i,
        {
            let e = &self.entries[i];
            proof {
                assert(es.take(i + 1) =~= es.take(i as int).push(*e));
                es.take(i as int).lemma_filter_push(*e, pred);
            }
            let ghost before = derefs(r@);
            if e.metadata.language == language {
                r.push(e);
                assert(derefs(r@) =~= before.push(*e));
            }
            i = i + 1;
        }
        assert(es.take(i as int) =~= es);
        r
    }

    /// The entries whose analysis found at least one issue, in store order.
    pub fn get_files_with_issues(&self) -> (r: Vec<&MemoryEntry>)
        ensures
            derefs(r@) == self.entries@.filter(|e: MemoryEntry| has_issues(e)),
    {
        let ghost pred = |e: MemoryEntry| has_issues(e);
        let ghost es = self.entries@;
        let mut r: Vec<&MemoryEntry> = Vec::new();
        let mut i: usize = 0;
        assert(es.take(0) =~= Seq::<MemoryEntry>::empty());
        assert(derefs(r@) =~= es.take(0).filter(pred));
        while i < self.entries.len()
            invariant
                es == self.entries@,
                pred == (|e: MemoryEntry| has_issues(e)),
                i <= es.len(),
                derefs(r@) == es.take(i as int).filter(pred),
            decreases es.len() - i,
        {
            let e = &self.entries[i];
            proof {
                assert(es.take(i + 1) =~= es.take(i as int).push(*e));
                es.take(i as int).lemma_filter_push(*e, pred);
            }
            let ghost before = derefs(r@);
            let hit = match &e.analysis_results {
                Some(a) => a.issues.len() > 0,
                None => false,
            };
            if hit {
                r.push(e);
                assert(derefs(r@) =~= before.push(*e));
            }
            i = i + 1;
        }
        assert(es.take(i as int) =~= es);
        r
    }

    fn count_language(&self, l: Language) -> (r: usize)
        ensures
            r == language_count(self.entries@, l),
    {
        let ghost pred = |e: MemoryEntry| e.metadata.language == l;
        let ghost es = self.entries@;
        let mut n: usize = 0;
        let mut i: usize = 0;
        assert(es.take(0) =~= Seq::<MemoryEntry>::empty());
        assert(es.take(0).filter(pred).len() == 0) by {
            reveal(Seq::filter);
        }
        while i < self.entries.len()
            invariant
                es == self.entries@,
                pred == (|e: MemoryEntry| e.metadata.language == l),
                i <= es.len(),
                n <= i,
                n == es.take(i as int).filter(pred).len(),
            decreases es.len() - i,
        {
            let e = &self.entries[i];
            proof {
                assert(es.take(i + 1) =~= es.take(i as int).push(*e));
                es.take(i as int).lemma_filter_push(*e, pred);
            }
            if e.metadata.language == l {
                n = n + 1;
            }
            i = i + 1;
        }
        assert(es.take(i as int) =~= es);
        n
    }

    fn count_with_issues(&self) -> (r: usize)
        ensures
            r == self.entries@.filter(|e: MemoryEntry| has_issues(e)).len(),
    {
        let ghost pred = |e: MemoryEntry| has_issues(e);
        let ghost es = self.entries@;
        let mut n: usize = 0;
        let mut i: usize = 0;
        assert(es.take(0) =~= Seq::<MemoryEntry>::empty());
        assert(es.take(0).filter(pred).len() == 0) by {
            reveal(Seq::filter);
        }
        while i < self.entries.len()
            invariant
                es == self.entries@,
                pred == (|e: MemoryEntry| has_issues(e)),
                i <= es.len(),
                n <= i,
                n == es.take(i as int).filter(pred).len(),
            decreases es.len() - i,
        {
            let e = &self.entries[i];
            proof {
                assert(es.take(i + 1) =~= es.take(i as int).push(*e));
                es.take(i as int).lemma_filter_push(*e, pred);
            }
            let hit = match &e.analysis_results {
                Some(a) => a.issues.len() > 0,
                None => false,
            };
            if hit {
                n = n + 1;
            }
            i = i + 1;
        }
        assert(es.take(i as int) =~= es);
        n
    }

    fn count_lines(&self) -> (r: u128)
        ensures
            r == total_lines(self.entries@),
    {
        let ghost es = self.entries@;
        let mut n: u128 = 0;
        let mut i: usize = 0;
        assert(es.take(0) =~= Seq::<MemoryEntry>::empty());
        while i < self.entries.len()
            invariant
                es == self.entries@,
                i <= es.len(),
                n == total_lines(es.take(i as int)),
                n <= i * 0x1_0000_0000_0000_0000,
            decreases es.len() - i,
        {
            let e = &self.entries[i];
            let c = chars_of(e.content.as_str());
            let k = split_lines(&c).len();
            proof {
                assert(es.take(i + 1).drop_last() =~= es.take(i as int));
                assert(es.take(i + 1).last() == *e);
            }
            assert(k <= 0xFFFF_FFFF_FFFF_FFFF);
            n = n + k as u128;
            i = i + 1;
        }
        assert(es.take(i as int) =~= es);
        n
    }

    /// The statistics of the store; `memory_size_bytes` is the size of its
    /// persisted form, which the caller measures.
    pub fn get_statistics(&self, memory_size_bytes: usize) -> (r: MemoryStatistics)
        ensures
            r.total_files == self.entries@.len(),
            r.total_lines == total_lines(self.entries@),
            r.files_with_issues == self.entries@.filter(|e: MemoryEntry| has_issues(e)).len(),
            r.memory_size_bytes == memory_size_bytes,
            r.languages@.len() == all_languages().len(),
            forall|i: int|
                0 <= i < r.languages@.len() ==> (#[trigger] r.languages@[i]).language == all_languages()[i]
                    && r.languages@[i].count == language_count(self.entries@, all_languages()[i]),
    {
        let mut languages: Vec<LanguageCount> = Vec::new();
        languages.push(LanguageCount { language: Language::Rust, count: self.count_language(Language::Rust) });
        languages.push(LanguageCount { language: Language::Python, count: self.count_language(Language::Python) });
        languages.push(LanguageCount { language: Language::JavaScript, count: self.count_language(Language::JavaScript) });
        languages.push(LanguageCount { language: Language::Java, count: self.count_language(Language::Java) });
        languages.push(LanguageCount { language: Language::Cpp, count: self.count_language(Language::Cpp) });
        languages.push(LanguageCount { language: Language::Go, count: self.count_language(Language::Go) });
        languages.push(LanguageCount { language: Language::Unknown, count: self.count_language(Language::Unknown) });
        MemoryStatistics {
            total_files: self.entries.len(),
            total_lines: self.count_lines(),
            languages,
            files_with_issues: self.count_with_issues(),
            memory_size_bytes,
        }
    }
}

/// In recency order the entry at `a` comes before the one at `b`: it was
/// updated later, or at the same time and stands earlier in the store.
pub open spec fn comes_before(es: Seq<MemoryEntry>, a: int, b: int) -> bool {
    es[a].updated_at > es[b].updated_at || (es[a].updated_at == es[b].updated_at && a < b)
}

/// `idx` lists distinct positions of `es` in recency order, and every
/// position that it leaves out comes after all that it lists.
pub open spec fn recency_prefix(es: Seq<MemoryEntry>, idx: Seq<int>) -> bool {
    &&& forall|k: int| 0 <= k < idx.len() ==> 0 <= #[trigger] idx[k] < es.len()
    &&& idx.no_duplicates()
    &&& forall|a: int, b: int| 0 <= a < b < idx.len() ==> comes_before(es, idx[a], idx[b])
    &&& forall|j: int, k: int|
        #![trigger idx[k], idx.contains(j)]
        0 <= j < es.len() && !idx.contains(j) && 0 <= k < idx.len() ==> comes_before(es, idx[k], j)
}

proof fn lemma_untaken_exists(idx: Seq<int>, n: int)
    requires
        idx.no_duplicates(),
        forall|k: int| 0 <= k < idx.len() ==> 0 <= #[trigger] idx[k] < n,
        idx.len() < n,
    ensures
        exists|j: int| 0 <= j < n && !idx.contains(j),
{
    if forall|j: int| 0 <= j < n ==> idx.contains(j) {
        let s = idx.to_set();
        idx.unique_seq_to_set();
        lemma_int_range(0, n);
        assert(set_int_range(0, n).subset_of(s));
        lemma_len_subset(set_int_range(0, n), s);
    }
}

impl MemorySystem {
    /// The `limit` most recently updated entries, latest first; entries
    /// updated at the same time keep their store order.
    pub fn get_recent_files(&self, limit: usize) -> (r: Vec<&MemoryEntry>)
        ensures
            r@.len() == if limit < self.entries@.len() { limit as int } else { self.entries@.len() as int },
            exists|idx: Seq<int>|
                #![trigger recency_prefix(self.entries@, idx)]
                recency_prefix(self.entries@, idx) && idx.len() == r@.len() && forall|k: int|
                    0 <= k < idx.len() ==> *r@[k] == self.entries@[#[trigger] idx[k]],
    {
        let ghost es = self.entries@;
        let n = self.entries.len();
        let mut taken: Vec<bool> = Vec::new();
        while taken.len() < n
            invariant
                taken@.len() <= n,
                forall|j: int| 0 <= j < taken@.len() ==> !taken@[j],
            decreases n - taken@.len(),
        {
            taken.push(false);
        }
        let ghost mut idx: Seq<int> = Seq::empty();
        let mut r: Vec<&MemoryEntry> = Vec::new();
        while r.len() < limit && r.len() < n
            invariant
                es == self.entries@,
                n == es.len(),
                taken@.len() == n,
                forall|j: int| 0 <= j < n ==> (taken@[j] <==> idx.contains(j)),
                recency_prefix(es, idx),
                r@.len() == idx.len(),
                idx.len() <= limit,
                idx.len() <= n,
                forall|k: int| 0 <= k < idx.len() ==> *r@[k] == es[#[trigger] idx[k]],
            decreases n - r@.len(),
        {
            let mut best: usize = n;
            let mut j: usize = 0;
            while j < n
                invariant
                    es == self.entries@,
                    n == es.len(),
                    taken@.len() == n,
                    j <= n,
                    best == n || (best < j && !taken@[best as int]),
                    forall|j2: int|
                        0 <= j2 < j && !taken@[j2] ==> best != n && (best == j2 || comes_before(
                            es,
                            best as int,
                            j2,
                        )),
                decreases n - j,
            {
                if !taken[j] && (best == n || self.entries[j].updated_at > self.entries[best].updated_at) {
                    best = j;
                }
                j = j + 1;
            }
            proof {
                if best == n {
                    lemma_untaken_exists(idx, n as int);
                    let w = choose|w: int| 0 <= w < n && !idx.contains(w);
                    assert(!taken@[w]);
                }
            }
            let ghost old_idx = idx;
            taken.set(best, true);
            r.push(&self.entries[best]);
            proof {
                idx = idx.push(best as int);
                assert(!old_idx.contains(best as int));
                assert forall|j2: int| 0 <= j2 < n implies (taken@[j2] <==> idx.contains(j2)) by {
                    if j2 == best {
                        assert(idx[old_idx.len() as int] == j2);
                    } else if old_idx.contains(j2) {
                        let w = choose|w: int| 0 <= w < old_idx.len() && old_idx[w] == j2;
                        assert(idx[w] == j2);
                    } else if idx.contains(j2) {
                        let w = choose|w: int| 0 <= w < idx.len() && idx[w] == j2;
                        assert(w < old_idx.len());
                        assert(old_idx[w] == j2);
                    }
                }
                assert forall|a: int, b: int| 0 <= a < b < idx.len() implies comes_before(es, idx[a], idx[b]) by {
                    if b == old_idx.len() {
                        assert(!old_idx.contains(best as int));
                    }
                }
                assert forall|j2: int, k: int|
                    #![trigger idx[k], idx.contains(j2)]
                    0 <= j2 < es.len() && !idx.contains(j2) && 0 <= k < idx.len() implies comes_before(es, idx[k], j2) by {
                    if k == old_idx.len() {
                        assert(!taken@[j2]);
                        assert(j2 != best);
                    } else {
                        assert(idx[k] == old_idx[k]);
                        if old_idx.contains(j2) {
                            let w = choose|w: int| 0 <= w < old_idx.len() && old_idx[w] == j2;
                            assert(idx[w] == j2);
                        }
                    }
                }
                assert forall|k: int| 0 <= k < idx.len() implies *r@[k] == es[#[trigger] idx[k]] by {
                    if k < old_idx.len() {
                        assert(idx[k] == old_idx[k]);
                    }
                }
                assert(idx.no_duplicates()) by {
                    assert forall|a: int, b: int| 0 <= a < idx.len() && 0 <= b < idx.len() && a != b implies idx[a] != idx[b] by {
                        if a == old_idx.len() as int {
                            assert(idx[b] == old_idx[b]);
                        } else if b == old_idx.len() as int {
                            assert(idx[a] == old_idx[a]);
                        }
                    }
                }
            }
        }
        assert(recency_prefix(es, idx));
        r
    }
}

impl MemorySystem {
    /// Puts an entry in the store, in place of the one with its identity if
    /// there is one, else at the end.
    pub fn insert_entry(&mut self, e: MemoryEntry)
        requires
            old(self).wf(),
        ensures
            final(self).wf(),
            final(self).memory_file == old(self).memory_file,
            entry_ids(final(self).entries@) == ids_after_store(entry_ids(old(self).entries@), e.id@),
            final(self).entries@.contains(e),
            forall|k: int|
                0 <= k < final(self).entries@.len() ==> #[trigger] final(self).entries@[k] == e || (
                old(self).entries@.contains(final(self).entries@[k]) && final(self).entries@[k].id@
                    != e.id@),
            forall|x: MemoryEntry|
                old(self).entries@.contains(x) && x.id@ != e.id@ ==> #[trigger] final(self).entries@.contains(x),
    {
        let ghost old_entries = self.entries@;
        proof {
            self.lemma_position_spec(e.id@);
        }
        match self.position(e.id.as_str()) {
            Some(k) => {
                self.entries.set(k, e);
                assert(entry_ids(self.entries@) =~= entry_ids(old_entries));
                assert(self.entries@[k as int] == e);
                assert forall|j: int| 0 <= j < self.entries@.len() implies #[trigger] self.entries@[j] == e || (
                    old_entries.contains(self.entries@[j]) && self.entries@[j].id@ != e.id@) by {
                    if j != k {
                        assert(old_entries[j] == self.entries@[j]);
                    }
                }
                assert forall|x: MemoryEntry| old_entries.contains(x) && x.id@ != e.id@ implies #[trigger] self.entries@.contains(x) by {
                    let j = choose|j: int| 0 <= j < old_entries.len() && old_entries[j] == x;
                    assert(j != k);
                    assert(self.entries@[j] == x);
                }
            },
            None => {
                self.entries.push(e);
                assert(entry_ids(self.entries@) =~= entry_ids(old_entries).push(e.id@));
                assert(self.entries@[old_entries.len() as int] == e);
                assert forall|j: int| 0 <= j < self.entries@.len() implies #[trigger] self.entries@[j] == e || (
                    old_entries.contains(self.entries@[j]) && self.entries@[j].id@ != e.id@) by {
                    if j < old_entries.len() {
                        assert(old_entries[j] == self.entries@[j]);
                    }
                }
                assert forall|x: MemoryEntry| old_entries.contains(x) && x.id@ != e.id@ implies #[trigger] self.entries@.contains(x) by {
                    let j = choose|j: int| 0 <= j < old_entries.len() && old_entries[j] == x;
                    assert(self.entries@[j] == x);
                }
            },
        }
    }

    /// Merges imported entries into the store, in order; an imported entry
    /// replaces the stored one with its identity. Every imported entry that
    /// no later one replaces ends up in the store, and so does every stored
    /// entry whose identity is not imported.
    pub fn import_memory(&mut self, imported: Vec<MemoryEntry>)
        requires
            old(self).wf(),
        ensures
            final(self).wf(),
            final(self).memory_file == old(self).memory_file,
            entry_ids(final(self).entries@) == ids_after_stores(entry_ids(old(self).entries@), entry_ids(imported@)),
            forall|k: int|
                0 <= k < imported@.len() && #[trigger] not_replaced(imported@, k, imported@.len() as int)
                    ==> final(self).entries@.contains(imported@[k]),
            forall|x: MemoryEntry|
                old(self).entries@.contains(x) && #[trigger] not_imported(imported@, x, imported@.len() as int)
                    ==> final(self).entries@.contains(x),
    {
        let ghost all = imported@;
        let ghost start_entries = self.entries@;
        let mut rest = imported;
        let total = rest.len();
        let mut i: usize = 0;
        let ghost start = entry_ids(self.entries@);
        assert(entry_ids(all).take(0) =~= Seq::<Seq<char>>::empty());
        while rest.len() > 0
            invariant
                self.wf(),
                self.memory_file == old(self).memory_file,
                start_entries == old(self).entries@,
                i <= all.len(),
                all.len() == total,
                rest@ == all.skip(i as int),
                entry_ids(self.entries@) == ids_after_stores(start, entry_ids(all).take(i as int)),
                forall|k: int|
                    0 <= k < i && #[trigger] not_replaced(all, k, i as int) ==> self.entries@.contains(all[k]),
                forall|x: MemoryEntry|
                    start_entries.contains(x) && #[trigger] not_imported(all, x, i as int) ==> self.entries@.contains(x),
            decreases rest@.len(),
        {
            let e = rest.remove(0);
            let ghost before = self.entries@;
            proof {
                assert(e == all[i as int]);
                assert(entry_ids(all).take(i + 1).drop_last() =~= entry_ids(all).take(i as int));
                assert(entry_ids(all).take(i + 1).last() == e.id@);
            }
            self.insert_entry(e);
            proof {
                assert forall|k: int|
                    0 <= k < i + 1 && #[trigger] not_replaced(all, k, i + 1) implies self.entries@.contains(all[k]) by {
                    if k < i {
                        assert(all[i as int].id@ != all[k].id@);
                        assert(not_replaced(all, k, i as int));
                        assert(before.contains(all[k]));
                    }
                }
                assert forall|x: MemoryEntry|
                    start_entries.contains(x) && #[trigger] not_imported(all, x, i + 1) implies self.entries@.contains(x) by {
                    assert(all[i as int].id@ != x.id@);
                    assert(not_imported(all, x, i as int));
                    assert(before.contains(x));
                }
            }
            i = i + 1;
            assert(rest@ =~= all.skip(i as int));
        }
        assert(entry_ids(all).take(i as int) =~= entry_ids(all));
    }
}

/// No entry of `es` after position `k` and before `upto` has the identity of
/// the one at `k`.
pub open spec fn not_replaced(es: Seq<MemoryEntry>, k: int, upto: int) -> bool {
    forall|k2: int| k < k2 < upto ==> es[k2].id@ != es[k].id@
}

/// No entry of `es` before `upto` has the identity of `x`.
pub open spec fn not_imported(es: Seq<MemoryEntry>, x: MemoryEntry, upto: int) -> bool {
    forall|k: int| 0 <= k < upto ==> es[k].id@ != x.id@
}

} // verus!
