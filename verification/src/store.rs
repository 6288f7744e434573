//! The ledger kept under `.ledgernomics/`: project, slice backlog, progress,
//! attempts and ADRs, and the operations on them.

use vstd::prelude::*;
use crate::schema::{
    slice_views, Project, ProjectView, Slice, SliceStatus, SliceView,
};
use crate::util::{
    append_chars, append_str, chars_of, dec, decimal, lines, lines_of, starts_with, string_of,
    trim, trim_chars, trim_str, truncate, truncate_spec, slice_chars,
};

verus! {

/// A record of a failed attempt at a slice.
#[derive(Debug)]
pub struct Attempt {
    pub id: String,
    pub slice_id: String,
    pub summary: String,
    pub failure_mode: String,
    pub do_not_retry_without: String,
    pub created_unix: u64,
}

/// What an attempt holds.
pub ghost struct AttemptView {
    pub id: Seq<char>,
    pub slice_id: Seq<char>,
    pub summary: Seq<char>,
    pub failure_mode: Seq<char>,
    pub do_not_retry_without: Seq<char>,
    pub created_unix: u64,
}

impl View for Attempt {
    type V = AttemptView;

    open spec fn view(&self) -> AttemptView {
        AttemptView {
            id: self.id@,
            slice_id: self.slice_id@,
            summary: self.summary@,
            failure_mode: self.failure_mode@,
            do_not_retry_without: self.do_not_retry_without@,
            created_unix: self.created_unix,
        }
    }
}

impl Clone for Attempt {
    fn clone(&self) -> (r: Self)
        ensures
            r@ == self@,
    {
        Attempt {
            id: self.id.clone(),
            slice_id: self.slice_id.clone(),
            summary: self.summary.clone(),
            failure_mode: self.failure_mode.clone(),
            do_not_retry_without: self.do_not_retry_without.clone(),
            created_unix: self.created_unix,
        }
    }
}

/// Counts of the backlog's slices by status.
#[derive(Debug)]
pub struct LedgerStats {
    pub total_slices: usize,
    pub open: usize,
    pub done: usize,
    pub blocked: usize,
    /// Twice the median of the declared `max_files` of the done slices
    /// (the median itself is this value halved), if any slice is done.
    pub median_max_files_on_done_x2: Option<u64>,
    pub note: String,
}

/// What ledger statistics hold.
pub ghost struct StatsView {
    pub total_slices: usize,
    pub open: usize,
    pub done: usize,
    pub blocked: usize,
    pub median_max_files_on_done_x2: Option<u64>,
    pub note: Seq<char>,
}

impl View for LedgerStats {
    type V = StatsView;

    open spec fn view(&self) -> StatsView {
        StatsView {
            total_slices: self.total_slices,
            open: self.open,
            done: self.done,
            blocked: self.blocked,
            median_max_files_on_done_x2: self.median_max_files_on_done_x2,
            note: self.note@,
        }
    }
}

impl Clone for LedgerStats {
    fn clone(&self) -> (r: Self)
        ensures
            r@ == self@,
    {
        LedgerStats {
            total_slices: self.total_slices,
            open: self.open,
            done: self.done,
            blocked: self.blocked,
            median_max_files_on_done_x2: self.median_max_files_on_done_x2,
            note: self.note.clone(),
        }
    }
}


// ---------------------------------------------------------------------------
// Progress, ADRs and errors
// ---------------------------------------------------------------------------

/// The progress pointer: which slice is current, its status and blockers.
#[derive(Debug)]
pub struct ProgressFile {
    pub current_slice: String,
    pub status: String,
    pub blockers: String,
}

/// What a progress pointer holds.
pub ghost struct ProgressView {
    pub current_slice: Seq<char>,
    pub status: Seq<char>,
    pub blockers: Seq<char>,
}

impl View for ProgressFile {
    type V = ProgressView;

    open spec fn view(&self) -> ProgressView {
        ProgressView {
            current_slice: self.current_slice@,
            status: self.status@,
            blockers: self.blockers@,
        }
    }
}

impl Clone for ProgressFile {
    fn clone(&self) -> (r: Self)
        ensures
            r@ == self@,
    {
        ProgressFile {
            current_slice: self.current_slice.clone(),
            status: self.status.clone(),
            blockers: self.blockers.clone(),
        }
    }
}

/// The current slice of a pointer that points at none.
pub open spec fn none_slice_text() -> Seq<char> {
    "(none)"@
}

/// `(none)`: the pointer points at no slice.
pub fn none_slice() -> (r: String)
    ensures
        r@ == none_slice_text(),
{
    String::from_str("(none)")
}

/// `idle`: the status of a pointer with nothing to work on.
pub fn idle_status() -> (r: String)
    ensures
        r@ == "idle"@,
{
    String::from_str("idle")
}

/// `none`: no blockers.
pub fn none_blockers() -> (r: String)
    ensures
        r@ == "none"@,
{
    String::from_str("none")
}

impl Default for ProgressFile {
    /// Points at no slice, idle, with no blockers.
    fn default() -> (r: Self)
        ensures
            r@ == (ProgressView {
                current_slice: none_slice_text(),
                status: "idle"@,
                blockers: "none"@,
            }),
    {
        ProgressFile { current_slice: none_slice(), status: idle_status(), blockers: none_blockers() }
    }
}

/// A summary of one architecture decision record.
#[derive(Debug)]
pub struct AdrSummary {
    pub id: String,
    pub path: String,
    pub title: String,
    pub excerpt: String,
}

/// What an ADR summary holds.
pub ghost struct AdrSummaryView {
    pub id: Seq<char>,
    pub path: Seq<char>,
    pub title: Seq<char>,
    pub excerpt: Seq<char>,
}

impl View for AdrSummary {
    type V = AdrSummaryView;

    open spec fn view(&self) -> AdrSummaryView {
        AdrSummaryView {
            id: self.id@,
            path: self.path@,
            title: self.title@,
            excerpt: self.excerpt@,
        }
    }
}

/// An ADR document: its id (the file name without `.md`) and its text.
#[derive(Debug)]
pub struct AdrDoc {
    pub id: String,
    pub text: String,
}

/// What an ADR document holds.
pub ghost struct AdrDocView {
    pub id: Seq<char>,
    pub text: Seq<char>,
}

impl View for AdrDoc {
    type V = AdrDocView;

    open spec fn view(&self) -> AdrDocView {
        AdrDocView { id: self.id@, text: self.text@ }
    }
}

/// Why a ledger operation failed.
#[derive(Debug, PartialEq, Eq)]
pub enum StoreError {
    /// Reading or writing the ledger's files failed.
    Io(String),
    /// A ledger file is not valid YAML for what it holds.
    Yaml(String),
    /// No slice (or ADR) has the given id.
    NotFound(String),
}

impl StoreError {
    /// The error's message (its `Display` text).
    pub fn message(&self) -> (r: String)
        ensures
            r@ == match self {
                StoreError::Io(m) => "io: "@ + m@,
                StoreError::Yaml(m) => "yaml: "@ + m@,
                StoreError::NotFound(m) => "slice not found: "@ + m@,
            },
    {
        let (prefix, m) = match self {
            StoreError::Io(m) => ("io: ", m),
            StoreError::Yaml(m) => ("yaml: ", m),
            StoreError::NotFound(m) => ("slice not found: ", m),
        };
        let mut v = chars_of(prefix);
        append_str(&mut v, m.as_str());
        string_of(&v)
    }
}

// ---------------------------------------------------------------------------
// Positions in the backlog
// ---------------------------------------------------------------------------

/// The first position at or after `i` of a slice with id `id`.
pub open spec fn id_pos_from(s: Seq<SliceView>, id: Seq<char>, i: int) -> Option<int>
    decreases s.len() - i,
{
    if i < 0 || i >= s.len() {
        None
    } else if s[i].id == id {
        Some(i)
    } else {
        id_pos_from(s, id, i + 1)
    }
}

/// The first position of a slice with id `id`.
pub open spec fn id_pos(s: Seq<SliceView>, id: Seq<char>) -> Option<int> {
    id_pos_from(s, id, 0)
}

/// The first position at or after `i` of an open slice.
pub open spec fn open_pos_from(s: Seq<SliceView>, i: int) -> Option<int>
    decreases s.len() - i,
{
    if i < 0 || i >= s.len() {
        None
    } else if s[i].status == SliceStatus::Open {
        Some(i)
    } else {
        open_pos_from(s, i + 1)
    }
}

/// The first position of an open slice.
pub open spec fn open_pos(s: Seq<SliceView>) -> Option<int> {
    open_pos_from(s, 0)
}

/// What `id_pos_from` finds: a match, with none before it.
pub proof fn lemma_id_pos_from(s: Seq<SliceView>, id: Seq<char>, i: int)
    requires
        0 <= i,
    ensures
        id_pos_from(s, id, i) matches Some(k) ==> i <= k < s.len() && s[k].id == id && forall|
            j: int,
        | i <= j < k ==> s[j].id != id,
        id_pos_from(s, id, i) is None ==> forall|j: int| i <= j < s.len() ==> s[j].id != id,
    decreases s.len() - i,
{
    if i < s.len() && s[i].id != id {
        lemma_id_pos_from(s, id, i + 1);
    }
}

/// What `open_pos_from` finds: an open slice, with none before it.
pub proof fn lemma_open_pos_from(s: Seq<SliceView>, i: int)
    requires
        0 <= i,
    ensures
        open_pos_from(s, i) matches Some(k) ==> i <= k < s.len() && s[k].status
            == SliceStatus::Open && forall|j: int| i <= j < k ==> s[j].status != SliceStatus::Open,
        open_pos_from(s, i) is None ==> forall|j: int|
            i <= j < s.len() ==> s[j].status != SliceStatus::Open,
    decreases s.len() - i,
{
    if i < s.len() && s[i].status != SliceStatus::Open {
        lemma_open_pos_from(s, i + 1);
    }
}

/// Whether two strings hold the same characters.
pub fn str_eq(a: &str, b: &str) -> (r: bool)
    ensures
        r == (a@ == b@),
{
    let x = chars_of(a);
    let y = chars_of(b);
    crate::schema::same_chars(&x, &y)
}

/// The first position of a slice with id `id`.
fn find_id(slices: &Vec<Slice>, id: &str) -> (r: Option<usize>)
    ensures
        match id_pos(slice_views(slices@), id@) {
            Some(k) => r matches Some(p) && p == k,
            None => r is None,
        },
        r matches Some(p) ==> p < slices@.len(),
{
    let ghost sv = slice_views(slices@);
    let mut i: usize = 0;
    while i < slices.len()
        invariant
            i <= slices.len(),
            sv == slice_views(slices@),
            id_pos(sv, id@) == id_pos_from(sv, id@, i as int),
        decreases slices.len() - i,
    {
        assert(sv[i as int] == slices@[i as int]@);
        if str_eq(slices[i].id.as_str(), id) {
            return Some(i);
        }
        i = i + 1;
    }
    None
}

/// The first position of an open slice.
fn find_open(slices: &Vec<Slice>) -> (r: Option<usize>)
    ensures
        match open_pos(slice_views(slices@)) {
            Some(k) => r matches Some(p) && p == k,
            None => r is None,
        },
        r matches Some(p) ==> p < slices@.len(),
{
    let ghost sv = slice_views(slices@);
    let mut i: usize = 0;
    while i < slices.len()
        invariant
            i <= slices.len(),
            sv == slice_views(slices@),
            open_pos(sv) == open_pos_from(sv, i as int),
        decreases slices.len() - i,
    {
        assert(sv[i as int] == slices@[i as int]@);
        if slices[i].status == SliceStatus::Open {
            return Some(i);
        }
        i = i + 1;
    }
    None
}

// ---------------------------------------------------------------------------
// Specifications of the ledger's operations
// ---------------------------------------------------------------------------

/// Whether some slice with the pointer's id is open.
pub open spec fn points_at_open(p: ProgressView, s: Seq<SliceView>) -> bool {
    exists|i: int| 0 <= i < s.len() && s[i].id == p.current_slice && s[i].status == SliceStatus::Open
}

/// The pointer after the backlog changed: kept if it points at an open
/// slice, else moved to the first open slice (or to none, idle).
pub open spec fn pointed_at_open(p: ProgressView, s: Seq<SliceView>) -> ProgressView {
    if p.current_slice == none_slice_text() || !points_at_open(p, s) {
        match open_pos(s) {
            Some(k) => ProgressView {
                current_slice: s[k].id,
                status: "tracking open slice"@,
                blockers: "none"@,
            },
            None => ProgressView {
                current_slice: none_slice_text(),
                status: "idle"@,
                blockers: "none"@,
            },
        }
    } else {
        p
    }
}

/// The backlog and the saved slice after an upsert: a slice with the same
/// id is replaced (keeping its status unless `explicit`), else the slice is
/// appended.
pub open spec fn upserted(s: Seq<SliceView>, slice: SliceView, explicit: bool) -> (Seq<SliceView>, SliceView) {
    match id_pos(s, slice.id) {
        Some(k) => {
            let saved = if explicit {
                slice
            } else {
                SliceView { status: s[k].status, ..slice }
            };
            (s.update(k, saved), saved)
        },
        None => (s.push(slice), slice),
    }
}

/// The slice that is current: the one the pointer names, if it exists,
/// else the first open one.
pub open spec fn current_of(p: ProgressView, s: Seq<SliceView>) -> Option<SliceView> {
    if p.current_slice != none_slice_text() && id_pos(s, p.current_slice) is Some {
        Some(s[id_pos(s, p.current_slice)->0])
    } else {
        match open_pos(s) {
            Some(k) => Some(s[k]),
            None => None,
        }
    }
}

/// The pointer after slice `id` was completed in backlog `s`.
pub open spec fn advanced(s: Seq<SliceView>, id: Seq<char>) -> ProgressView {
    ProgressView {
        current_slice: match open_pos(s) {
            Some(k) => s[k].id,
            None => none_slice_text(),
        },
        status: "advanced after completing `"@ + id + "`"@,
        blockers: "none"@,
    }
}

/// The ledger with its project replaced.
pub open spec fn with_project(l: LedgerView, p: ProjectView) -> LedgerView {
    LedgerView { project: p, ..l }
}

/// The ledger with its backlog replaced.
pub open spec fn with_slices(l: LedgerView, s: Seq<SliceView>) -> LedgerView {
    LedgerView { slices: s, ..l }
}

/// The path of a ledger directory under `root`: `root` joined with
/// `.ledgernomics`, a `/` between them unless `root` is empty or ends in one.
pub open spec fn ledger_dir_of(root: Seq<char>) -> Seq<char> {
    if root.len() == 0 {
        ".ledgernomics"@
    } else if root.last() == '/' {
        root + ".ledgernomics"@
    } else {
        root + "/.ledgernomics"@
    }
}

/// The progress pointer as text, one `key: value` line per field.
pub open spec fn progress_text(p: ProgressView) -> Seq<char> {
    "current_slice: "@ + p.current_slice + "\nstatus: "@ + p.status + "\nblockers: "@
        + p.blockers + "\n"@
}

/// The id of an attempt recorded at `secs` seconds and `nanos` nanoseconds.
pub open spec fn attempt_id(secs: u64, nanos: u32) -> Seq<char> {
    "att-"@ + dec(secs as nat) + "-"@ + dec(nanos as nat)
}

/// `s` with `x` placed after every element that is not older than it, so
/// that the newest come first and equal times keep their order.
pub open spec fn insert_newest_first(s: Seq<AttemptView>, x: AttemptView) -> Seq<AttemptView>
    decreases s.len(),
{
    if s.len() == 0 {
        seq![x]
    } else if s.last().created_unix < x.created_unix {
        insert_newest_first(s.drop_last(), x).push(s.last())
    } else {
        s.push(x)
    }
}

/// Attempts sorted newest first, equal times in their given order.
pub open spec fn newest_first(s: Seq<AttemptView>) -> Seq<AttemptView>
    decreases s.len(),
{
    if s.len() == 0 {
        Seq::empty()
    } else {
        insert_newest_first(newest_first(s.drop_last()), s.last())
    }
}

/// Whether `a` comes before `b` in code point order (`str` order).
pub open spec fn precedes(a: Seq<char>, b: Seq<char>) -> bool
    decreases a.len(),
{
    if a.len() == 0 {
        b.len() > 0
    } else if b.len() == 0 {
        false
    } else if a[0] != b[0] {
        (a[0] as u32) < (b[0] as u32)
    } else {
        precedes(a.drop_first(), b.drop_first())
    }
}

/// `s` with `x` placed after every summary whose id does not come after its
/// own.
pub open spec fn insert_by_id(s: Seq<AdrSummaryView>, x: AdrSummaryView) -> Seq<AdrSummaryView>
    decreases s.len(),
{
    if s.len() == 0 {
        seq![x]
    } else if precedes(x.id, s.last().id) {
        insert_by_id(s.drop_last(), x).push(s.last())
    } else {
        s.push(x)
    }
}

/// Summaries sorted by id, equal ids in their given order.
pub open spec fn by_id(s: Seq<AdrSummaryView>) -> Seq<AdrSummaryView>
    decreases s.len(),
{
    if s.len() == 0 {
        Seq::empty()
    } else {
        insert_by_id(by_id(s.drop_last()), s.last())
    }
}

/// The title of the first line among `ls[i..]` that starts with `# `:
/// the rest of that line, trimmed.
pub open spec fn heading_from(ls: Seq<Seq<char>>, i: int) -> Option<Seq<char>>
    decreases ls.len() - i,
{
    if i < 0 || i >= ls.len() {
        None
    } else if starts_with(ls[i], "# "@) {
        Some(trim(ls[i].subrange(2, ls[i].len() as int)))
    } else {
        heading_from(ls, i + 1)
    }
}

/// The summary of ADR `id` with text `text`: its first `# ` heading as
/// title (else the id), its path and its first `max` characters.
pub open spec fn adr_summary_of(id: Seq<char>, text: Seq<char>, max: nat) -> AdrSummaryView {
    AdrSummaryView {
        id,
        path: ".ledgernomics/adr/"@ + id + ".md"@,
        title: match heading_from(lines(text), 0) {
            Some(t) => t,
            None => id,
        },
        excerpt: truncate_spec(text, max),
    }
}

/// `s` without every trailing `.md` (`trim_end_matches(".md")`).
pub open spec fn strip_md(s: Seq<char>) -> Seq<char>
    decreases s.len(),
{
    if s.len() >= 3 && s.subrange(s.len() - 3, s.len() as int) == ".md"@ {
        strip_md(s.subrange(0, s.len() - 3))
    } else {
        s
    }
}

/// The first ADR at or after `i` with id `id`.
pub open spec fn adr_pos_from(d: Seq<AdrDocView>, id: Seq<char>, i: int) -> Option<int>
    decreases d.len() - i,
{
    if i < 0 || i >= d.len() {
        None
    } else if d[i].id == id {
        Some(i)
    } else {
        adr_pos_from(d, id, i + 1)
    }
}

/// The declared `max_files` of the done slices among the first `n`.
pub open spec fn done_files(s: Seq<SliceView>, n: int) -> Seq<u32>
    decreases n,
{
    if n <= 0 {
        Seq::empty()
    } else if s[n - 1].status == SliceStatus::Done {
        done_files(s, n - 1).push(s[n - 1].max_files)
    } else {
        done_files(s, n - 1)
    }
}

/// The number of slices among the first `n` with status `st`.
pub open spec fn count_status(s: Seq<SliceView>, st: SliceStatus, n: int) -> nat
    decreases n,
{
    if n <= 0 {
        0
    } else if s[n - 1].status == st {
        count_status(s, st, n - 1) + 1
    } else {
        count_status(s, st, n - 1)
    }
}

/// `s` with `x` placed after every element not greater than it.
pub open spec fn insert_ascending(s: Seq<u32>, x: u32) -> Seq<u32>
    decreases s.len(),
{
    if s.len() == 0 {
        seq![x]
    } else if x < s.last() {
        insert_ascending(s.drop_last(), x).push(s.last())
    } else {
        s.push(x)
    }
}

/// `s` in ascending order.
pub open spec fn ascending(s: Seq<u32>) -> Seq<u32>
    decreases s.len(),
{
    if s.len() == 0 {
        Seq::empty()
    } else {
        insert_ascending(ascending(s.drop_last()), s.last())
    }
}

/// Twice the median of `v`: twice the middle value of `v` in ascending
/// order, or the sum of the two middle values; none for an empty `v`.
pub open spec fn median_x2(v: Seq<u32>) -> Option<u64> {
    let s = ascending(v);
    let n = s.len() as int;
    if n == 0 {
        None
    } else if n % 2 == 1 {
        Some((2 * s[n / 2]) as u64)
    } else {
        Some((s[n / 2 - 1] + s[n / 2]) as u64)
    }
}

/// The statistics of a backlog.
pub open spec fn stats_of(s: Seq<SliceView>) -> StatsView {
    StatsView {
        total_slices: s.len() as usize,
        open: count_status(s, SliceStatus::Open, s.len() as int) as usize,
        done: count_status(s, SliceStatus::Done, s.len() as int) as usize,
        blocked: count_status(s, SliceStatus::Blocked, s.len() as int) as usize,
        median_max_files_on_done_x2: median_x2(done_files(s, s.len() as int)),
        note: "median_max_files_on_done uses declared max_files, not measured diff."@,
    }
}

// ---------------------------------------------------------------------------
// The ledger
// ---------------------------------------------------------------------------

/// The ledger of a project root: what its `.ledgernomics/` directory holds.
#[derive(Debug)]
pub struct LedgerStore {
    root: String,
    project: Project,
    slices: Vec<Slice>,
    progress: ProgressFile,
    attempts: Vec<Attempt>,
    adrs: Vec<AdrDoc>,
}

/// What a ledger holds.
pub ghost struct LedgerView {
    pub root: Seq<char>,
    pub project: ProjectView,
    pub slices: Seq<SliceView>,
    pub progress: ProgressView,
    pub attempts: Seq<AttemptView>,
    pub adrs: Seq<AdrDocView>,
}

impl View for LedgerStore {
    type V = LedgerView;

    closed spec fn view(&self) -> LedgerView {
        LedgerView {
            root: self.root@,
            project: self.project@,
            slices: slice_views(self.slices@),
            progress: self.progress@,
            attempts: self.attempts@.map_values(|a: Attempt| a@),
            adrs: self.adrs@.map_values(|d: AdrDoc| d@),
        }
    }
}

/// A copy of a list of slices.
pub fn clone_slices(v: &[Slice]) -> (r: Vec<Slice>)
    ensures
        slice_views(r@) == slice_views(v@),
{
    let mut r: Vec<Slice> = Vec::new();
    let mut i: usize = 0;
    while i < v.len()
        invariant
            i <= v.len(),
            slice_views(r@) == slice_views(v@).subrange(0, i as int),
        decreases v.len() - i,
    {
        let ghost before = r@;
        r.push(v[i].clone());
        assert(slice_views(r@) =~= slice_views(before).push(v@[i as int]@));
        assert(slice_views(v@).subrange(0, i + 1) =~= slice_views(v@).subrange(0, i as int).push(
            v@[i as int]@,
        ));
        i = i + 1;
    }
    assert(slice_views(v@).subrange(0, v@.len() as int) =~= slice_views(v@));
    r
}

/// The seconds and sub-second nanoseconds since the Unix epoch; none if
/// the clock is set before it.
///
/// Trusted: `SystemTime::now().duration_since(UNIX_EPOCH)`, read as
/// `Duration::as_secs` and `Duration::subsec_nanos`; the latter are below
/// one billion. Which time the clock gives is not stated.
#[verifier::external_body]
fn unix_now() -> (r: Option<(u64, u32)>)
    ensures
        r matches Some(t) ==> t.1 < 1_000_000_000,
{
    match std::time::SystemTime::now().duration_since(std::time::UNIX_EPOCH) {
        Ok(d) => Some((d.as_secs(), d.subsec_nanos())),
        Err(_) => None,
    }
}

/// The ledger of a fresh `.ledgernomics/` directory under `root`: the
/// default project, no slices, a pointer at none, no attempts, no ADRs.
pub open spec fn fresh_ledger(root: Seq<char>) -> LedgerView {
    LedgerView {
        root,
        project: ProjectView { goals: Seq::empty(), non_goals: Seq::empty(), status: "active"@ },
        slices: Seq::empty(),
        progress: ProgressView {
            current_slice: none_slice_text(),
            status: "idle"@,
            blockers: "none"@,
        },
        attempts: Seq::empty(),
        adrs: Seq::empty(),
    }
}

impl LedgerStore {
    /// A ledger for `root` as a fresh `.ledgernomics/` directory holds it:
    /// the default project, no slices, a pointer at none, no attempts and
    /// no ADRs.
    pub fn new(root: String) -> (r: LedgerStore)
        ensures
            r@ == fresh_ledger(root@),
    {
        let r = LedgerStore {
            root,
            project: Project::default(),
            slices: Vec::new(),
            progress: ProgressFile::default(),
            attempts: Vec::new(),
            adrs: Vec::new(),
        };
        assert(r@.slices =~= Seq::<SliceView>::empty());
        assert(r@.attempts =~= Seq::<AttemptView>::empty());
        assert(r@.adrs =~= Seq::<AdrDocView>::empty());
        r
    }

    /// A ledger for `root` with the given contents, as read from its files.
    pub fn from_parts(
        root: String,
        project: Project,
        slices: Vec<Slice>,
        progress: ProgressFile,
        attempts: Vec<Attempt>,
        adrs: Vec<AdrDoc>,
    ) -> (r: LedgerStore)
        ensures
            r@ == (LedgerView {
                root: root@,
                project: project@,
                slices: slice_views(slices@),
                progress: progress@,
                attempts: attempts@.map_values(|a: Attempt| a@),
                adrs: adrs@.map_values(|d: AdrDoc| d@),
            }),
    {
        LedgerStore { root, project, slices, progress, attempts, adrs }
    }

    /// The ledger's directory (see `ledger_dir_of`).
    pub fn ledger_dir(&self) -> (r: String)
        ensures
            r@ == ledger_dir_of(self@.root),
    {
        let root = chars_of(self.root.as_str());
        let mut out: Vec<char> = Vec::new();
        if root.len() == 0 {
            append_str(&mut out, ".ledgernomics");
        } else if root[root.len() - 1] == '/' {
            append_chars(&mut out, &root);
            append_str(&mut out, ".ledgernomics");
        } else {
            append_chars(&mut out, &root);
            append_str(&mut out, "/.ledgernomics");
        }
        assert(out@ =~= ledger_dir_of(self@.root));
        string_of(&out)
    }

    /// The project.
    pub fn load_project(&self) -> (r: Result<Project, StoreError>)
        ensures
            r matches Ok(p) && p@ == self@.project,
    {
        Ok(self.project.clone())
    }

    /// Replaces the project.
    pub fn save_project(&mut self, project: &Project) -> (r: Result<(), StoreError>)
        ensures
            r is Ok,
            final(self)@ == with_project(old(self)@, project@),
    {
        self.project = project.clone();
        Ok(())
    }

    /// The backlog, in order.
    pub fn load_slices(&self) -> (r: Result<Vec<Slice>, StoreError>)
        ensures
            r matches Ok(v) && slice_views(v@) == self@.slices,
    {
        Ok(clone_slices(self.slices.as_slice()))
    }

    /// Replaces the backlog.
    pub fn save_slices(&mut self, slices: &[Slice]) -> (r: Result<(), StoreError>)
        ensures
            r is Ok,
            final(self)@ == with_slices(old(self)@, slice_views(slices@)),
    {
        self.slices = clone_slices(slices);
        Ok(())
    }

    /// The progress pointer.
    pub fn load_progress(&self) -> (r: ProgressFile)
        ensures
            r@ == self@.progress,
    {
        self.progress.clone()
    }

    /// The recorded attempts, in the order they were read.
    pub fn attempts(&self) -> (r: &Vec<Attempt>)
        ensures
            r@.map_values(|a: Attempt| a@) == self@.attempts,
    {
        &self.attempts
    }

    /// Replaces the progress pointer.
    fn write_progress(&mut self, p: ProgressFile)
        ensures
            final(self)@ == (LedgerView { progress: p@, ..old(self)@ }),
    {
        self.progress = p;
    }

    /// Moves the pointer to the first open slice unless it points at an
    /// open slice (see `pointed_at_open`).
    fn ensure_progress_points_at_open(&mut self)
        ensures
            final(self)@ == (LedgerView {
                progress: pointed_at_open(old(self)@.progress, old(self)@.slices),
                ..old(self)@
            }),
    {
        let ghost sv = self@.slices;
        let none = none_slice();
        let mut points = false;
        let mut i: usize = 0;
        while i < self.slices.len()
            invariant
                i <= self.slices.len(),
                sv == self@.slices,
                sv == slice_views(self.slices@),
                points <==> exists|j: int|
                    0 <= j < i && sv[j].id == self.progress@.current_slice && sv[j].status
                        == SliceStatus::Open,
            decreases self.slices.len() - i,
        {
            assert(sv[i as int] == self.slices@[i as int]@);
            if self.slices[i].status == SliceStatus::Open && self.slices[i].id
                == self.progress.current_slice {
                points = true;
            }
            i = i + 1;
        }
        let needs = self.progress.current_slice == none || !points;
        if needs {
            let open = find_open(&self.slices);
            let p = match open {
                Some(k) => {
                    assert(sv[k as int] == self.slices@[k as int]@);
                    ProgressFile {
                        current_slice: self.slices[k].id.clone(),
                        status: String::from_str("tracking open slice"),
                        blockers: none_blockers(),
                    }
                },
                None => ProgressFile {
                    current_slice: none_slice(),
                    status: idle_status(),
                    blockers: none_blockers(),
                },
            };
            self.write_progress(p);
        }
    }

    /// Inserts or replaces a slice by id, keeping a replaced slice's status.
    pub fn upsert_slice(&mut self, slice: Slice) -> (r: Result<Slice, StoreError>)
        ensures
            r matches Ok(saved) && saved@ == upserted(old(self)@.slices, slice@, false).1,
            final(self)@.slices == upserted(old(self)@.slices, slice@, false).0,
            final(self)@.progress == pointed_at_open(
                old(self)@.progress,
                upserted(old(self)@.slices, slice@, false).0,
            ),
            final(self)@ == (LedgerView {
                slices: final(self)@.slices,
                progress: final(self)@.progress,
                ..old(self)@
            }),
    {
        self.upsert_slice_ex(slice, false)
    }

    /// Inserts or replaces a slice by id (see `upserted`); a replaced
    /// slice's status is kept unless `status_explicit`. The pointer then
    /// moves to an open slice if it no longer points at one.
    pub fn upsert_slice_ex(&mut self, slice: Slice, status_explicit: bool) -> (r: Result<
        Slice,
        StoreError,
    >)
        ensures
            r matches Ok(saved) && saved@ == upserted(old(self)@.slices, slice@, status_explicit).1,
            final(self)@.slices == upserted(old(self)@.slices, slice@, status_explicit).0,
            final(self)@.progress == pointed_at_open(
                old(self)@.progress,
                upserted(old(self)@.slices, slice@, status_explicit).0,
            ),
            final(self)@ == (LedgerView {
                slices: final(self)@.slices,
                progress: final(self)@.progress,
                ..old(self)@
            }),
    {
        let mut slice = slice;
        let ghost s0 = self@.slices;
        match find_id(&self.slices, slice.id.as_str()) {
            Some(pos) => {
                assert(s0[pos as int] == self.slices@[pos as int]@);
                if !status_explicit {
                    slice.status = self.slices[pos].status;
                }
                let saved = slice.clone();
                self.slices.set(pos, slice);
                assert(self@.slices =~= s0.update(pos as int, saved@));
                self.ensure_progress_points_at_open();
                Ok(saved)
            },
            None => {
                let saved = slice.clone();
                self.slices.push(slice);
                assert(self@.slices =~= s0.push(saved@));
                self.ensure_progress_points_at_open();
                Ok(saved)
            },
        }
    }

    /// The first open slice, if any.
    pub fn next_open_slice(&self) -> (r: Result<Option<Slice>, StoreError>)
        ensures
            r matches Ok(o) && match open_pos(self@.slices) {
                Some(k) => o matches Some(s) && s@ == self@.slices[k],
                None => o is None,
            },
    {
        match find_open(&self.slices) {
            Some(k) => {
                assert(self@.slices[k as int] == self.slices@[k as int]@);
                Ok(Some(self.slices[k].clone()))
            },
            None => Ok(None),
        }
    }

    /// Marks the first slice with id `id` done and moves the pointer to the
    /// first open slice (see `advanced`); `NotFound(id)` if no slice has it.
    pub fn complete_slice(&mut self, id: &str) -> (r: Result<Slice, StoreError>)
        ensures
            match id_pos(old(self)@.slices, id@) {
                None => r matches Err(StoreError::NotFound(m)) && m@ == id@ && final(self)@
                    == old(self)@,
                Some(k) => {
                    let done = SliceView { status: SliceStatus::Done, ..old(self)@.slices[k] };
                    let s = old(self)@.slices.update(k, done);
                    &&& r matches Ok(d) && d@ == done
                    &&& final(self)@ == (LedgerView {
                        slices: s,
                        progress: advanced(s, id@),
                        ..old(self)@
                    })
                },
            },
    {
        let ghost s0 = self@.slices;
        match find_id(&self.slices, id) {
            None => Err(StoreError::NotFound(String::from_str(id))),
            Some(pos) => {
                assert(s0[pos as int] == self.slices@[pos as int]@);
                let mut d = self.slices[pos].clone();
                d.status = SliceStatus::Done;
                let done = d.clone();
                self.slices.set(pos, d);
                let ghost s1 = s0.update(pos as int, done@);
                assert(self@.slices =~= s1);
                let next = match find_open(&self.slices) {
                    Some(k) => {
                        assert(s1[k as int] == self.slices@[k as int]@);
                        self.slices[k].id.clone()
                    },
                    None => none_slice(),
                };
                let mut status = chars_of("advanced after completing `");
                append_str(&mut status, id);
                append_str(&mut status, "`");
                self.write_progress(
                    ProgressFile {
                        current_slice: next,
                        status: string_of(&status),
                        blockers: none_blockers(),
                    },
                );
                Ok(done)
            },
        }
    }

    /// The progress pointer as text (see `progress_text`).
    pub fn read_progress(&self) -> (r: Result<String, StoreError>)
        ensures
            r matches Ok(t) && t@ == progress_text(self@.progress),
    {
        let mut v = chars_of("current_slice: ");
        append_str(&mut v, self.progress.current_slice.as_str());
        append_str(&mut v, "\nstatus: ");
        append_str(&mut v, self.progress.status.as_str());
        append_str(&mut v, "\nblockers: ");
        append_str(&mut v, self.progress.blockers.as_str());
        append_str(&mut v, "\n");
        Ok(string_of(&v))
    }

    /// The current slice (see `current_of`).
    pub fn current_slice(&self) -> (r: Result<Option<Slice>, StoreError>)
        ensures
            r matches Ok(o) && match current_of(self@.progress, self@.slices) {
                Some(s) => o matches Some(x) && x@ == s,
                None => o is None,
            },
    {
        let none = none_slice();
        if self.progress.current_slice != none {
            match find_id(&self.slices, self.progress.current_slice.as_str()) {
                Some(k) => {
                    assert(self@.slices[k as int] == self.slices@[k as int]@);
                    return Ok(Some(self.slices[k].clone()));
                },
                None => {},
            }
        }
        self.next_open_slice()
    }

    /// Records an attempt made at `secs` seconds and `nanos` nanoseconds
    /// since the Unix epoch, with id `att-{secs}-{nanos}`.
    pub fn record_attempt(
        &mut self,
        slice_id: &str,
        summary: &str,
        failure_mode: &str,
        do_not_retry_without: &str,
        secs: u64,
        nanos: u32,
    ) -> (r: Attempt)
        ensures
            r@ == (AttemptView {
                id: attempt_id(secs, nanos),
                slice_id: slice_id@,
                summary: summary@,
                failure_mode: failure_mode@,
                do_not_retry_without: do_not_retry_without@,
                created_unix: secs,
            }),
            final(self)@ == (LedgerView { attempts: old(self)@.attempts.push(r@), ..old(self)@ }),
    {
        let mut id = chars_of("att-");
        append_chars(&mut id, &decimal(secs));
        append_str(&mut id, "-");
        append_chars(&mut id, &decimal(nanos as u64));
        let attempt = Attempt {
            id: string_of(&id),
            slice_id: String::from_str(slice_id),
            summary: String::from_str(summary),
            failure_mode: String::from_str(failure_mode),
            do_not_retry_without: String::from_str(do_not_retry_without),
            created_unix: secs,
        };
        let ghost before = self.attempts@;
        self.attempts.push(attempt.clone());
        assert(self.attempts@.map_values(|a: Attempt| a@) =~= before.map_values(|a: Attempt| a@).push(
            attempt@,
        ));
        attempt
    }

    /// Records an attempt made now (see `record_attempt`).
    pub fn append_attempt(
        &mut self,
        slice_id: &str,
        summary: &str,
        failure_mode: &str,
        do_not_retry_without: &str,
    ) -> (r: Result<Attempt, StoreError>)
        ensures
            r matches Ok(a) && exists|secs: u64, nanos: u32|
                nanos < 1_000_000_000 && a@ == (AttemptView {
                    id: attempt_id(secs, nanos),
                    slice_id: slice_id@,
                    summary: summary@,
                    failure_mode: failure_mode@,
                    do_not_retry_without: do_not_retry_without@,
                    created_unix: secs,
                }),
            r matches Ok(a) && final(self)@ == (LedgerView {
                attempts: old(self)@.attempts.push(a@),
                ..old(self)@
            }),
    {
        let (secs, nanos) = match unix_now() {
            Some(t) => t,
            None => (0, 0),
        };
        Ok(self.record_attempt(slice_id, summary, failure_mode, do_not_retry_without, secs, nanos))
    }

    /// The attempts, newest first (see `newest_first`).
    pub fn list_attempts(&self) -> (r: Result<Vec<Attempt>, StoreError>)
        ensures
            r matches Ok(v) && v@.map_values(|a: Attempt| a@) == newest_first(self@.attempts),
    {
        let ghost all = self@.attempts;
        let mut out: Vec<Attempt> = Vec::new();
        let mut i: usize = 0;
        while i < self.attempts.len()
            invariant
                i <= self.attempts.len(),
                all == self.attempts@.map_values(|a: Attempt| a@),
                out@.map_values(|a: Attempt| a@) == newest_first(all.subrange(0, i as int)),
            decreases self.attempts.len() - i,
        {
            let x = self.attempts[i].clone();
            let ghost pre = all.subrange(0, i as int);
            assert(all.subrange(0, i + 1).drop_last() =~= pre);
            assert(all.subrange(0, i + 1).last() == x@);
            insert_attempt(&mut out, x);
            i = i + 1;
        }
        assert(all.subrange(0, self.attempts@.len() as int) =~= all);
        Ok(out)
    }

    /// Summaries of all ADRs (first 400 characters), sorted by id (see
    /// `by_id`).
    pub fn list_adrs(&self) -> (r: Result<Vec<AdrSummary>, StoreError>)
        ensures
            r matches Ok(v) && v@.map_values(|a: AdrSummary| a@) == by_id(
                self@.adrs.map_values(|d: AdrDocView| adr_summary_of(d.id, d.text, 400)),
            ),
    {
        let ghost all = self@.adrs.map_values(|d: AdrDocView| adr_summary_of(d.id, d.text, 400));
        let mut out: Vec<AdrSummary> = Vec::new();
        let mut i: usize = 0;
        while i < self.adrs.len()
            invariant
                i <= self.adrs.len(),
                all == self@.adrs.map_values(|d: AdrDocView| adr_summary_of(d.id, d.text, 400)),
                self@.adrs == self.adrs@.map_values(|d: AdrDoc| d@),
                out@.map_values(|a: AdrSummary| a@) == by_id(all.subrange(0, i as int)),
            decreases self.adrs.len() - i,
        {
            let x = adr_summary(self.adrs[i].id.as_str(), self.adrs[i].text.as_str(), 400);
            assert(all.subrange(0, i + 1).drop_last() =~= all.subrange(0, i as int));
            assert(all.subrange(0, i + 1).last() == x@);
            insert_adr(&mut out, x);
            i = i + 1;
        }
        assert(all.subrange(0, self.adrs@.len() as int) =~= all);
        Ok(out)
    }

    /// The summary (first 800 characters) of the ADR whose id is `id`
    /// trimmed and without trailing `.md`; `NotFound` with that id if there
    /// is none.
    pub fn get_adr(&self, id: &str) -> (r: Result<AdrSummary, StoreError>)
        ensures
            ({
                let key = strip_md(trim(id@));
                match adr_pos_from(self@.adrs, key, 0) {
                    Some(k) => r matches Ok(a) && a@ == adr_summary_of(key, self@.adrs[k].text, 800),
                    None => r matches Err(StoreError::NotFound(m)) && m@ == key,
                }
            }),
    {
        let key = strip_md_exec(trim_str(id));
        let ghost docs = self@.adrs;
        let mut i: usize = 0;
        while i < self.adrs.len()
            invariant
                i <= self.adrs.len(),
                docs == self.adrs@.map_values(|d: AdrDoc| d@),
                docs == self@.adrs,
                key@ == strip_md(trim(id@)),
                adr_pos_from(docs, key@, 0) == adr_pos_from(docs, key@, i as int),
            decreases self.adrs.len() - i,
        {
            assert(docs[i as int] == self.adrs@[i as int]@);
            if crate::schema::chars_eq_str(&key, self.adrs[i].id.as_str()) {
                let k = string_of(&key);
                assert(adr_pos_from(docs, key@, i as int) == Some(i as int));
                let a = adr_summary(k.as_str(), self.adrs[i].text.as_str(), 800);
                assert(a@ == adr_summary_of(key@, docs[i as int].text, 800));
                return Ok(a);
            }
            i = i + 1;
        }
        Err(StoreError::NotFound(string_of(&key)))
    }

    /// Counts of the backlog's slices by status and the median declared
    /// `max_files` of the done ones (see `stats_of`).
    pub fn stats(&self) -> (r: Result<LedgerStats, StoreError>)
        ensures
            r matches Ok(s) && s@ == stats_of(self@.slices),
    {
        let ghost sv = self@.slices;
        let mut open: usize = 0;
        let mut done: usize = 0;
        let mut blocked: usize = 0;
        let mut files: Vec<u32> = Vec::new();
        let mut i: usize = 0;
        while i < self.slices.len()
            invariant
                i <= self.slices.len(),
                sv == slice_views(self.slices@),
                open == count_status(sv, SliceStatus::Open, i as int),
                done == count_status(sv, SliceStatus::Done, i as int),
                blocked == count_status(sv, SliceStatus::Blocked, i as int),
                open + done + blocked == i,
                files@ == done_files(sv, i as int),
            decreases self.slices.len() - i,
        {
            assert(sv[i as int] == self.slices@[i as int]@);
            match self.slices[i].status {
                SliceStatus::Open => open = open + 1,
                SliceStatus::Done => {
                    done = done + 1;
                    files.push(self.slices[i].max_files);
                },
                SliceStatus::Blocked => blocked = blocked + 1,
            }
            i = i + 1;
        }
        Ok(
            LedgerStats {
                total_slices: self.slices.len(),
                open,
                done,
                blocked,
                median_max_files_on_done_x2: median_u32(&files),
                note: String::from_str(
                    "median_max_files_on_done uses declared max_files, not measured diff.",
                ),
            },
        )
    }
}

/// Inserts an attempt into a newest-first list (see `insert_newest_first`).
fn insert_attempt(out: &mut Vec<Attempt>, x: Attempt)
    ensures
        final(out)@.map_values(|a: Attempt| a@) == insert_newest_first(
            old(out)@.map_values(|a: Attempt| a@),
            x@,
        ),
{
    let ghost s0 = out@.map_values(|a: Attempt| a@);
    let ghost xv = x@;
    let mut k: usize = out.len();
    assert(s0.subrange(0, s0.len() as int) =~= s0);
    assert(insert_newest_first(s0, xv) =~= insert_newest_first(s0, xv) + s0.subrange(
        s0.len() as int,
        s0.len() as int,
    ));
    while k > 0 && out[k - 1].created_unix < x.created_unix
        invariant
            k <= out.len(),
            xv == x@,
            s0 == out@.map_values(|a: Attempt| a@),
            insert_newest_first(s0, xv) == insert_newest_first(s0.subrange(0, k as int), xv)
                + s0.subrange(k as int, s0.len() as int),
        decreases k,
    {
        let ghost pre = s0.subrange(0, k as int);
        assert(pre.drop_last() =~= s0.subrange(0, k - 1));
        assert(pre.last() == s0[k - 1]);
        assert(s0[k - 1] == out@[k - 1]@);
        assert(pre.len() > 0);
        assert(pre.last().created_unix < xv.created_unix);
        assert(insert_newest_first(pre, xv) == insert_newest_first(s0.subrange(0, k - 1), xv).push(
            s0[k - 1],
        ));
        assert(insert_newest_first(pre, xv) + s0.subrange(k as int, s0.len() as int) =~= insert_newest_first(s0.subrange(0, k - 1), xv) + s0.subrange(k - 1, s0.len() as int));
        k = k - 1;
    }
    proof {
        let pre = s0.subrange(0, k as int);
        if k > 0 {
            assert(pre.last() == s0[k - 1]);
            assert(pre.drop_last().push(pre.last()) =~= pre);
        }
        assert(insert_newest_first(pre, xv) =~= pre.push(xv));
    }
    out.insert(k, x);
    assert(out@.map_values(|a: Attempt| a@) =~= s0.subrange(0, k as int).push(xv) + s0.subrange(
        k as int,
        s0.len() as int,
    ));
}

/// Inserts a summary into a list sorted by id (see `insert_by_id`).
fn insert_adr(out: &mut Vec<AdrSummary>, x: AdrSummary)
    ensures
        final(out)@.map_values(|a: AdrSummary| a@) == insert_by_id(
            old(out)@.map_values(|a: AdrSummary| a@),
            x@,
        ),
{
    let ghost s0 = out@.map_values(|a: AdrSummary| a@);
    let ghost xv = x@;
    let xid = chars_of(x.id.as_str());
    let mut k: usize = out.len();
    assert(s0.subrange(0, s0.len() as int) =~= s0);
    assert(insert_by_id(s0, xv) =~= insert_by_id(s0, xv) + s0.subrange(
        s0.len() as int,
        s0.len() as int,
    ));
    while k > 0 && precedes_exec(&xid, &chars_of(out[k - 1].id.as_str()))
        invariant
            k <= out.len(),
            xid@ == xv.id,
            s0 == out@.map_values(|a: AdrSummary| a@),
            insert_by_id(s0, xv) == insert_by_id(s0.subrange(0, k as int), xv) + s0.subrange(
                k as int,
                s0.len() as int,
            ),
        decreases k,
    {
        let ghost pre = s0.subrange(0, k as int);
        assert(pre.drop_last() =~= s0.subrange(0, k - 1));
        assert(pre.last() == s0[k - 1]);
        assert(s0[k - 1] == out@[k - 1]@);
        assert(insert_by_id(pre, xv) == insert_by_id(s0.subrange(0, k - 1), xv).push(s0[k - 1]));
        assert(insert_by_id(pre, xv) + s0.subrange(k as int, s0.len() as int) =~= insert_by_id(
            s0.subrange(0, k - 1),
            xv,
        ) + s0.subrange(k - 1, s0.len() as int));
        k = k - 1;
    }
    proof {
        let pre = s0.subrange(0, k as int);
        assert(insert_by_id(pre, xv) =~= pre.push(xv));
    }
    out.insert(k, x);
    assert(out@.map_values(|a: AdrSummary| a@) =~= s0.subrange(0, k as int).push(xv)
        + s0.subrange(k as int, s0.len() as int));
}

/// Whether `a` comes before `b` in code point order (see `precedes`).
fn precedes_exec(a: &Vec<char>, b: &Vec<char>) -> (r: bool)
    ensures
        r == precedes(a@, b@),
{
    let mut i: usize = 0;
    assert(a@.subrange(0, a@.len() as int) =~= a@);
    assert(b@.subrange(0, b@.len() as int) =~= b@);
    while i < a.len() && i < b.len() && a[i] == b[i]
        invariant
            i <= a.len(),
            i <= b.len(),
            precedes(a@, b@) == precedes(
                a@.subrange(i as int, a@.len() as int),
                b@.subrange(i as int, b@.len() as int),
            ),
        decreases a.len() - i,
    {
        assert(a@.subrange(i as int, a@.len() as int).drop_first() =~= a@.subrange(
            i + 1,
            a@.len() as int,
        ));
        assert(b@.subrange(i as int, b@.len() as int).drop_first() =~= b@.subrange(
            i + 1,
            b@.len() as int,
        ));
        i = i + 1;
    }
    if i == a.len() {
        i < b.len()
    } else if i == b.len() {
        false
    } else {
        (a[i] as u32) < (b[i] as u32)
    }
}

/// The id an ADR is looked up by: `id` trimmed and without trailing `.md`.
pub fn adr_key(id: &str) -> (r: String)
    ensures
        r@ == strip_md(trim(id@)),
{
    string_of(&strip_md_exec(trim_str(id)))
}

/// `s` without every trailing `.md` (see `strip_md`).
fn strip_md_exec(s: Vec<char>) -> (r: Vec<char>)
    ensures
        r@ == strip_md(s@),
{
    let ghost orig = s@;
    let mut s = s;
    let md = chars_of(".md");
    let mut done = false;
    while !done
        invariant
            md@ == ".md"@,
            strip_md(orig) == strip_md(s@),
            done ==> strip_md(s@) == s@,
        decreases s.len() + (if done { 0int } else { 1int }),
    {
        if s.len() >= 3 {
            let tail = slice_chars(&s, s.len() - 3, s.len());
            if crate::schema::same_chars(&tail, &md) {
                s = slice_chars(&s, 0, s.len() - 3);
            } else {
                done = true;
            }
        } else {
            done = true;
        }
    }
    s
}

/// The summary of ADR `id` with text `text` (see `adr_summary_of`).
pub fn adr_summary(id: &str, text: &str, max: usize) -> (r: AdrSummary)
    ensures
        r@ == adr_summary_of(id@, text@, max as nat),
{
    let tv = chars_of(text);
    let ls = lines_of(&tv);
    let ghost lsv = lines(text@);
    let hash = chars_of("# ");
    proof {
        reveal_strlit("# ");
    }
    let mut title: Option<Vec<char>> = None;
    let mut i: usize = 0;
    while i < ls.len() && title.is_none()
        invariant
            i <= ls.len(),
            ls@.len() == lsv.len(),
            lsv == lines(text@),
            hash@ == "# "@,
            hash@.len() == 2,
            forall|k: int| 0 <= k < ls@.len() ==> #[trigger] ls@[k]@ == lsv[k],
            title matches Some(t) ==> heading_from(lsv, 0) == Some(t@),
            title is None ==> heading_from(lsv, 0) == heading_from(lsv, i as int),
        decreases (ls.len() - i) * 2 + (if title is None { 1int } else { 0int }),
    {
        if crate::util::has_prefix(&ls[i], &hash) {
            let rest = slice_chars(&ls[i], 2, ls[i].len());
            title = Some(trim_chars(&rest));
        } else {
            i = i + 1;
        }
    }
    let title_text = match title {
        Some(t) => string_of(&t),
        None => String::from_str(id),
    };
    let mut path = chars_of(".ledgernomics/adr/");
    append_str(&mut path, id);
    append_str(&mut path, ".md");
    AdrSummary {
        id: String::from_str(id),
        path: string_of(&path),
        title: title_text,
        excerpt: truncate(text, max),
    }
}

/// Inserts a value into an ascending list (see `insert_ascending`).
fn insert_u32(out: &mut Vec<u32>, x: u32)
    ensures
        final(out)@ == insert_ascending(old(out)@, x),
{
    let ghost s0 = out@;
    let mut k: usize = out.len();
    assert(s0.subrange(0, s0.len() as int) =~= s0);
    assert(insert_ascending(s0, x) =~= insert_ascending(s0, x) + s0.subrange(
        s0.len() as int,
        s0.len() as int,
    ));
    while k > 0 && x < out[k - 1]
        invariant
            k <= out.len(),
            s0 == out@,
            insert_ascending(s0, x) == insert_ascending(s0.subrange(0, k as int), x) + s0.subrange(
                k as int,
                s0.len() as int,
            ),
        decreases k,
    {
        let ghost pre = s0.subrange(0, k as int);
        assert(pre.drop_last() =~= s0.subrange(0, k - 1));
        assert(pre.last() == s0[k - 1]);
        assert(insert_ascending(pre, x) == insert_ascending(s0.subrange(0, k - 1), x).push(
            s0[k - 1],
        ));
        assert(insert_ascending(pre, x) + s0.subrange(k as int, s0.len() as int)
            =~= insert_ascending(s0.subrange(0, k - 1), x) + s0.subrange(k - 1, s0.len() as int));
        k = k - 1;
    }
    proof {
        let pre = s0.subrange(0, k as int);
        assert(insert_ascending(pre, x) =~= pre.push(x));
    }
    out.insert(k, x);
    assert(out@ =~= s0.subrange(0, k as int).push(x) + s0.subrange(k as int, s0.len() as int));
}

/// Twice the median of `vals` (see `median_x2`).
pub fn median_u32(vals: &Vec<u32>) -> (r: Option<u64>)
    ensures
        r == median_x2(vals@),
{
    let mut v: Vec<u32> = Vec::new();
    let mut i: usize = 0;
    while i < vals.len()
        invariant
            i <= vals.len(),
            v@ == ascending(vals@.subrange(0, i as int)),
        decreases vals.len() - i,
    {
        assert(vals@.subrange(0, i + 1).drop_last() =~= vals@.subrange(0, i as int));
        insert_u32(&mut v, vals[i]);
        i = i + 1;
    }
    assert(vals@.subrange(0, vals@.len() as int) =~= vals@);
    proof {
        lemma_ascending_len(vals@);
    }
    let n = v.len();
    if n == 0 {
        None
    } else if n % 2 == 1 {
        Some(2 * (v[n / 2] as u64))
    } else {
        Some((v[n / 2 - 1] as u64) + (v[n / 2] as u64))
    }
}

/// Sorting keeps the length.
pub proof fn lemma_ascending_len(s: Seq<u32>)
    ensures
        ascending(s).len() == s.len(),
    decreases s.len(),
{
    if s.len() > 0 {
        lemma_ascending_len(s.drop_last());
        lemma_insert_ascending_len(ascending(s.drop_last()), s.last());
    }
}

/// Inserting adds one element.
pub proof fn lemma_insert_ascending_len(s: Seq<u32>, x: u32)
    ensures
        insert_ascending(s, x).len() == s.len() + 1,
    decreases s.len(),
{
    if s.len() > 0 && x < s.last() {
        lemma_insert_ascending_len(s.drop_last(), x);
    }
}


// ---------------------------------------------------------------------------
// Laws
// ---------------------------------------------------------------------------

/// No two slices of `s` share an id.
pub open spec fn unique_ids(s: Seq<SliceView>) -> bool {
    forall|i: int, j: int| 0 <= i < j < s.len() ==> s[i].id != s[j].id
}

/// After an upsert, the saved slice stands at the first position with its
/// id, every other slice is unchanged, and a backlog without repeated ids
/// keeps none.
pub proof fn lemma_upsert_places_slice(s: Seq<SliceView>, slice: SliceView, explicit: bool)
    ensures
        ({
            let (t, saved) = upserted(s, slice, explicit);
            &&& saved.id == slice.id
            &&& id_pos(t, slice.id) matches Some(k) && t[k] == saved
            &&& t.len() == s.len() || t.len() == s.len() + 1
            &&& forall|i: int| 0 <= i < s.len() && s[i].id != slice.id ==> t[i] == s[i]
            &&& unique_ids(s) ==> unique_ids(t)
        }),
{
    lemma_id_pos_from(s, slice.id, 0);
    let (t, saved) = upserted(s, slice, explicit);
    lemma_id_pos_from(t, slice.id, 0);
    match id_pos(s, slice.id) {
        Some(k) => {
            assert(t[k].id == slice.id);
            assert(forall|j: int| 0 <= j < k ==> t[j] == s[j]);
        },
        None => {
            assert(t[s.len() as int] == slice);
            assert(forall|j: int| 0 <= j < s.len() ==> t[j] == s[j]);
        },
    }
}

/// Upserting the same slice twice gives the same backlog and saved slice
/// as upserting it once.
pub proof fn lemma_upsert_idempotent(s: Seq<SliceView>, slice: SliceView, explicit: bool)
    ensures
        upserted(upserted(s, slice, explicit).0, slice, explicit) == upserted(s, slice, explicit),
{
    lemma_id_pos_from(s, slice.id, 0);
    let (t, saved) = upserted(s, slice, explicit);
    lemma_id_pos_from(t, slice.id, 0);
    lemma_upsert_places_slice(s, slice, explicit);
    let k = id_pos(t, slice.id)->0;
    match id_pos(s, slice.id) {
        Some(j) => {
            if k < j {
                assert(t[k] == s[k]);
                assert(false);
            }
            if k > j {
                assert(t[j].id == slice.id);
                assert(false);
            }
            assert(k == j);
            assert(t.update(k, saved) =~= t);
        },
        None => {
            assert(k == s.len());
            assert(t.update(k, saved) =~= t);
        },
    }
}

/// After the backlog changes, the pointer names an open slice whenever one
/// exists, and `(none)` otherwise.
pub proof fn lemma_pointer_tracks_open(p: ProgressView, s: Seq<SliceView>)
    ensures
        open_pos(s) is Some ==> points_at_open(pointed_at_open(p, s), s),
        open_pos(s) is None ==> pointed_at_open(p, s).current_slice == none_slice_text(),
{
    lemma_open_pos_from(s, 0);
    match open_pos(s) {
        Some(k) => {
            let q = pointed_at_open(p, s);
            if p.current_slice == none_slice_text() || !points_at_open(p, s) {
                assert(s[k].id == q.current_slice && s[k].status == SliceStatus::Open);
            }
        },
        None => {
            if points_at_open(p, s) {
                let i = choose|i: int|
                    0 <= i < s.len() && s[i].id == p.current_slice && s[i].status
                        == SliceStatus::Open;
                assert(s[i].status != SliceStatus::Open);
            }
        },
    }
}

/// After slice `k` is completed, it is done, the first open slice is
/// another one, and the pointer names that slice (or none).
pub proof fn lemma_complete_advances(s: Seq<SliceView>, k: int, id: Seq<char>)
    requires
        0 <= k < s.len(),
    ensures
        ({
            let t = s.update(k, SliceView { status: SliceStatus::Done, ..s[k] });
            &&& t[k].status == SliceStatus::Done
            &&& open_pos(t) != Some(k)
            &&& advanced(t, id).current_slice == match open_pos(t) {
                Some(j) => t[j].id,
                None => none_slice_text(),
            }
        }),
{
    let t = s.update(k, SliceView { status: SliceStatus::Done, ..s[k] });
    lemma_open_pos_from(t, 0);
}

/// Inserting an attempt adds exactly that attempt.
pub proof fn lemma_insert_newest_first_multiset(s: Seq<AttemptView>, x: AttemptView)
    ensures
        insert_newest_first(s, x).to_multiset() == s.to_multiset().insert(x),
        insert_newest_first(s, x).len() == s.len() + 1,
    decreases s.len(),
{
    broadcast use vstd::seq_lib::group_to_multiset_ensures;

    if s.len() > 0 && s.last().created_unix < x.created_unix {
        lemma_insert_newest_first_multiset(s.drop_last(), x);
        assert(s.drop_last().push(s.last()) =~= s);
        assert(s.to_multiset() == s.drop_last().to_multiset().insert(s.last()));
        assert(s.to_multiset().insert(x) =~= s.drop_last().to_multiset().insert(x).insert(
            s.last(),
        ));
    }
}

/// Inserting into a newest-first list keeps it newest first.
pub proof fn lemma_insert_newest_first_sorted(s: Seq<AttemptView>, x: AttemptView)
    requires
        forall|i: int, j: int|
            0 <= i < j < s.len() ==> s[i].created_unix >= s[j].created_unix,
    ensures
        forall|i: int, j: int|
            0 <= i < j < insert_newest_first(s, x).len() ==> insert_newest_first(s, x)[i].created_unix
                >= insert_newest_first(s, x)[j].created_unix,
        forall|i: int|
            0 <= i < insert_newest_first(s, x).len() ==> (insert_newest_first(s, x)[i] == x
                || s.contains(insert_newest_first(s, x)[i])),
    decreases s.len(),
{
    lemma_insert_newest_first_multiset(s, x);
    if s.len() > 0 && s.last().created_unix < x.created_unix {
        let pre = s.drop_last();
        lemma_insert_newest_first_sorted(pre, x);
        let r = insert_newest_first(pre, x);
        lemma_insert_newest_first_multiset(pre, x);
        assert forall|i: int| 0 <= i < r.len() implies r[i].created_unix >= s.last().created_unix by {
            if r[i] != x {
                assert(pre.contains(r[i]));
                let j = choose|j: int| 0 <= j < pre.len() && pre[j] == r[i];
                assert(s[j] == pre[j]);
            }
        }
        assert forall|i: int| 0 <= i < r.len() implies (r[i] == x || s.contains(r[i])) by {
            if r[i] != x {
                let j = choose|j: int| 0 <= j < pre.len() && pre[j] == r[i];
                assert(s[j] == pre[j]);
            }
        }
        assert(s.contains(s.last()));
    } else if s.len() > 0 {
        assert forall|i: int| 0 <= i < s.len() implies s[i].created_unix >= x.created_unix by {
            if i < s.len() - 1 {
                assert(s[i].created_unix >= s[s.len() - 1].created_unix);
            }
        }
        assert forall|i: int| 0 <= i < s.push(x).len() implies (s.push(x)[i] == x || s.contains(
            s.push(x)[i],
        )) by {
            if i < s.len() {
                assert(s.push(x)[i] == s[i]);
            }
        }
    }
}

/// The attempts listed newest first are the recorded attempts, each once,
/// and no attempt comes before a newer one.
pub proof fn lemma_newest_first(s: Seq<AttemptView>)
    ensures
        newest_first(s).to_multiset() == s.to_multiset(),
        newest_first(s).len() == s.len(),
        forall|i: int, j: int|
            0 <= i < j < newest_first(s).len() ==> newest_first(s)[i].created_unix
                >= newest_first(s)[j].created_unix,
    decreases s.len(),
{
    broadcast use vstd::seq_lib::group_to_multiset_ensures;

    if s.len() > 0 {
        lemma_newest_first(s.drop_last());
        lemma_insert_newest_first_multiset(newest_first(s.drop_last()), s.last());
        lemma_insert_newest_first_sorted(newest_first(s.drop_last()), s.last());
        assert(s.drop_last().push(s.last()) =~= s);
    } else {
        assert(s.to_multiset() =~= vstd::multiset::Multiset::empty());
        assert(newest_first(s).to_multiset() =~= vstd::multiset::Multiset::empty());
    }
}

/// A read gives back what the last write wrote: the project after
/// `save_project`, the backlog after `save_slices`; each write leaves the
/// rest of the ledger as it was, and a second write replaces the first.
pub proof fn lemma_read_after_write(l: LedgerView, p: ProjectView, q: ProjectView, s: Seq<SliceView>, t: Seq<SliceView>)
    ensures
        with_project(l, p).project == p,
        with_project(l, p).slices == l.slices,
        with_project(l, p).progress == l.progress,
        with_project(l, p).attempts == l.attempts,
        with_project(with_project(l, p), q) == with_project(l, q),
        with_slices(l, s).slices == s,
        with_slices(l, s).project == l.project,
        with_slices(l, s).progress == l.progress,
        with_slices(with_slices(l, s), t) == with_slices(l, t),
        with_slices(with_project(l, p), s) == with_project(with_slices(l, s), p),
{
}

/// The current slice is the first slice with the id the pointer names,
/// when the pointer names a slice of the backlog; otherwise the first open
/// slice; and none when there is neither.
pub proof fn lemma_current_follows_pointer(p: ProgressView, s: Seq<SliceView>)
    ensures
        ({
            let named = p.current_slice != none_slice_text() && exists|k: int|
                0 <= k < s.len() && #[trigger] s[k].id == p.current_slice;
            &&& named ==> exists|k: int|
                0 <= k < s.len() && #[trigger] s[k].id == p.current_slice && (forall|j: int|
                    0 <= j < k ==> s[j].id != p.current_slice) && current_of(p, s) == Some(s[k])
            &&& !named ==> match current_of(p, s) {
                Some(x) => exists|k: int|
                    0 <= k < s.len() && #[trigger] s[k] == x && x.status == SliceStatus::Open
                        && (forall|j: int| 0 <= j < k ==> s[j].status != SliceStatus::Open),
                None => forall|k: int| 0 <= k < s.len() ==> #[trigger] s[k].status != SliceStatus::Open,
            }
        }),
{
    lemma_id_pos_from(s, p.current_slice, 0);
    lemma_open_pos_from(s, 0);
    let named = p.current_slice != none_slice_text() && exists|k: int|
        0 <= k < s.len() && #[trigger] s[k].id == p.current_slice;
    if named {
        let k = choose|k: int| 0 <= k < s.len() && #[trigger] s[k].id == p.current_slice;
        if id_pos(s, p.current_slice) is None {
            assert(s[k].id != p.current_slice);
        }
        let q = id_pos(s, p.current_slice)->0;
        assert(s[q].id == p.current_slice);
    } else {
        if p.current_slice != none_slice_text() && id_pos(s, p.current_slice) is Some {
            let q = id_pos(s, p.current_slice)->0;
            assert(s[q].id == p.current_slice);
        }
        match open_pos(s) {
            Some(k) => {
                assert(s[k] == s[k]);
            },
            None => {},
        }
    }
}

/// An upsert saves the slice with every field as given but its status,
/// which is the stored slice's unless the status is explicit; the saved
/// slice replaces the first slice with its id, or is appended when none
/// has it.
pub proof fn lemma_upsert_saves_given(s: Seq<SliceView>, slice: SliceView, explicit: bool)
    ensures
        ({
            let (t, saved) = upserted(s, slice, explicit);
            &&& saved == (SliceView { status: saved.status, ..slice })
            &&& (exists|k: int| 0 <= k < s.len() && #[trigger] s[k].id == slice.id) ==> exists|k: int|
                0 <= k < s.len() && #[trigger] s[k].id == slice.id && (forall|j: int|
                    0 <= j < k ==> s[j].id != slice.id) && t == s.update(k, saved) && saved.status
                    == (if explicit {
                    slice.status
                } else {
                    s[k].status
                })
            &&& !(exists|k: int| 0 <= k < s.len() && #[trigger] s[k].id == slice.id) ==> t == s.push(
                slice,
            ) && saved == slice
        }),
{
    lemma_id_pos_from(s, slice.id, 0);
    match id_pos(s, slice.id) {
        Some(k) => {
            assert(s[k].id == slice.id);
        },
        None => {},
    }
}

/// The first heading line among `ls[i..]` gives the title: it starts with
/// `# ` and no line before it does.
proof fn lemma_heading_from(ls: Seq<Seq<char>>, i: int)
    requires
        0 <= i,
    ensures
        heading_from(ls, i) matches Some(t) ==> exists|k: int|
            i <= k < ls.len() && starts_with(#[trigger] ls[k], "# "@) && (forall|j: int|
                i <= j < k ==> !starts_with(ls[j], "# "@)) && t == trim(
                ls[k].subrange(2, ls[k].len() as int),
            ),
        heading_from(ls, i) is None ==> forall|k: int|
            i <= k < ls.len() ==> !starts_with(#[trigger] ls[k], "# "@),
    decreases ls.len() - i,
{
    if i < ls.len() && !starts_with(ls[i], "# "@) {
        lemma_heading_from(ls, i + 1);
    }
}

/// An ADR summary names the ADR and its file, takes as title the rest
/// (trimmed) of the first line that starts with `# ` (the id when no line
/// does), and as excerpt the text's first `max` characters: the whole text
/// when it is shorter.
pub proof fn lemma_adr_summary(id: Seq<char>, text: Seq<char>, max: nat)
    ensures
        ({
            let a = adr_summary_of(id, text, max);
            let ls = lines(text);
            &&& a.id == id
            &&& a.path == ".ledgernomics/adr/"@ + id + ".md"@
            &&& a.excerpt.len() == (if text.len() <= max {
                text.len()
            } else {
                max
            })
            &&& a.excerpt == text.subrange(0, a.excerpt.len() as int)
            &&& (exists|k: int|
                0 <= k < ls.len() && starts_with(#[trigger] ls[k], "# "@)) ==> exists|k: int|
                0 <= k < ls.len() && starts_with(#[trigger] ls[k], "# "@) && (forall|j: int|
                    0 <= j < k ==> !starts_with(ls[j], "# "@)) && a.title == trim(
                    ls[k].subrange(2, ls[k].len() as int),
                )
            &&& !(exists|k: int| 0 <= k < ls.len() && starts_with(#[trigger] ls[k], "# "@))
                ==> a.title == id
        }),
{
    let ls = lines(text);
    lemma_heading_from(ls, 0);
    if text.len() <= max {
        assert(text.subrange(0, text.len() as int) =~= text);
    }
    match heading_from(ls, 0) {
        Some(t) => {},
        None => {
            if exists|k: int| 0 <= k < ls.len() && starts_with(#[trigger] ls[k], "# "@) {
                let k = choose|k: int| 0 <= k < ls.len() && starts_with(#[trigger] ls[k], "# "@);
                assert(!starts_with(ls[k], "# "@));
            }
        },
    }
}

/// The slices among the first `n` with status `st` number as many as
/// `count_status` says, and the done ones declare `done_files`.
proof fn lemma_count_filter(s: Seq<SliceView>, st: SliceStatus, n: int)
    requires
        0 <= n <= s.len(),
    ensures
        count_status(s, st, n) == s.subrange(0, n).filter(|x: SliceView| x.status == st).len(),
        done_files(s, n) == s.subrange(0, n).filter(|x: SliceView| x.status == SliceStatus::Done).map_values(
            |x: SliceView| x.max_files,
        ),
    decreases n,
{
    reveal(Seq::filter);
    if n > 0 {
        lemma_count_filter(s, st, n - 1);
        let sub = s.subrange(0, n);
        assert(sub.drop_last() =~= s.subrange(0, n - 1));
        assert(sub.last() == s[n - 1]);
        let f = s.subrange(0, n - 1).filter(|x: SliceView| x.status == SliceStatus::Done);
        if s[n - 1].status == SliceStatus::Done {
            assert(f.push(s[n - 1]).map_values(|x: SliceView| x.max_files) =~= f.map_values(
                |x: SliceView| x.max_files,
            ).push(s[n - 1].max_files));
        }
    } else {
        assert(s.subrange(0, 0).len() == 0);
        assert(s.subrange(0, 0).filter(|x: SliceView| x.status == SliceStatus::Done).map_values(
            |x: SliceView| x.max_files,
        ) =~= Seq::<u32>::empty());
    }
}

/// The statistics count every slice once by its status, and the median
/// is that of the `max_files` the done slices declare, in backlog order:
/// twice it is the sum of the two middle values (the middle value twice)
/// of those values in ascending order; none when no slice is done.
pub proof fn lemma_stats(s: Seq<SliceView>)
    requires
        s.len() <= usize::MAX,
    ensures
        ({
            let st = stats_of(s);
            let done = s.filter(|x: SliceView| x.status == SliceStatus::Done).map_values(
                |x: SliceView| x.max_files,
            );
            &&& st.total_slices == s.len()
            &&& st.open == s.filter(|x: SliceView| x.status == SliceStatus::Open).len()
            &&& st.done == s.filter(|x: SliceView| x.status == SliceStatus::Done).len()
            &&& st.blocked == s.filter(|x: SliceView| x.status == SliceStatus::Blocked).len()
            &&& st.open + st.done + st.blocked == s.len()
            &&& done.len() == 0 ==> st.median_max_files_on_done_x2 is None
            &&& done.len() > 0 ==> exists|w: Seq<u32>|
                w.to_multiset() == done.to_multiset() && w.len() == done.len() && (forall|i: int, j: int|
                    0 <= i < j < w.len() ==> w[i] <= w[j]) && st.median_max_files_on_done_x2 == Some(
                    (#[trigger] w[(w.len() - 1) / 2] + w[(w.len() / 2) as int]) as u64,
                )
        }),
{
    let n = s.len() as int;
    assert(s.subrange(0, n) =~= s);
    lemma_count_filter(s, SliceStatus::Open, n);
    lemma_count_filter(s, SliceStatus::Done, n);
    lemma_count_filter(s, SliceStatus::Blocked, n);
    lemma_counts_add_up(s, n);
    let done = done_files(s, n);
    lemma_ascending(done);
    let w = ascending(done);
    if done.len() > 0 {
        let m = w.len() as int;
        if m % 2 == 1 {
            assert((m - 1) / 2 == m / 2);
        } else {
            assert((m - 1) / 2 == m / 2 - 1);
        }
        assert(stats_of(s).median_max_files_on_done_x2 == Some(
            (w[(w.len() - 1) / 2] + w[(w.len() / 2) as int]) as u64,
        ));
        assert(w.to_multiset() == done.to_multiset() && w.len() == done.len());
    }
}

/// A pointer that names an open slice of the backlog stays as it is; any
/// other pointer moves to the first open slice, tracking it, or to none,
/// idle, when no slice is open.
pub proof fn lemma_pointer_kept_or_moved(p: ProgressView, s: Seq<SliceView>)
    ensures
        ({
            let kept = p.current_slice != none_slice_text() && exists|k: int|
                0 <= k < s.len() && #[trigger] s[k].id == p.current_slice && s[k].status
                    == SliceStatus::Open;
            let q = pointed_at_open(p, s);
            &&& kept ==> q == p
            &&& !kept ==> q.blockers == "none"@ && match open_pos(s) {
                Some(k) => q.current_slice == s[k].id && q.status == "tracking open slice"@
                    && s[k].status == SliceStatus::Open && (forall|j: int|
                    0 <= j < k ==> s[j].status != SliceStatus::Open),
                None => q.current_slice == none_slice_text() && q.status == "idle"@ && (forall|
                    j: int,
                | 0 <= j < s.len() ==> #[trigger] s[j].status != SliceStatus::Open),
            }
        }),
{
    lemma_open_pos_from(s, 0);
}

/// `precedes` is irreflexive and asymmetric.
pub proof fn lemma_precedes_asym(a: Seq<char>, b: Seq<char>)
    ensures
        !precedes(a, a),
        precedes(a, b) ==> !precedes(b, a),
    decreases a.len(),
{
    if a.len() > 0 && b.len() > 0 && a[0] == b[0] {
        lemma_precedes_asym(a.drop_first(), b.drop_first());
    }
    if a.len() > 0 {
        lemma_precedes_asym(a.drop_first(), a.drop_first());
    }
}

/// A character's code as `u32` is its code.
proof fn lemma_char_code(c: char)
    ensures
        (c as u32) as int == c as int,
{
}

/// Of two different strings, one precedes the other.
pub proof fn lemma_precedes_total(a: Seq<char>, b: Seq<char>)
    ensures
        a != b ==> precedes(a, b) || precedes(b, a),
    decreases a.len(),
{
    if a.len() > 0 && b.len() > 0 {
        if a[0] == b[0] {
            lemma_precedes_total(a.drop_first(), b.drop_first());
            if a.drop_first() == b.drop_first() {
                assert(a =~= seq![a[0]] + a.drop_first());
                assert(b =~= seq![b[0]] + b.drop_first());
            }
        } else {
            lemma_char_code(a[0]);
            lemma_char_code(b[0]);
        }
    } else if a.len() == 0 && b.len() == 0 {
        assert(a =~= b);
    }
}

/// `precedes` is transitive.
pub proof fn lemma_precedes_trans(a: Seq<char>, b: Seq<char>, c: Seq<char>)
    ensures
        precedes(a, b) && precedes(b, c) ==> precedes(a, c),
    decreases a.len(),
{
    if a.len() > 0 && b.len() > 0 && c.len() > 0 && a[0] == b[0] && b[0] == c[0] {
        lemma_precedes_trans(a.drop_first(), b.drop_first(), c.drop_first());
    }
}

/// Whether no summary of `s` comes after a later one by id.
pub open spec fn sorted_by_id(s: Seq<AdrSummaryView>) -> bool {
    forall|i: int, j: int| 0 <= i < j < s.len() ==> !precedes(s[j].id, s[i].id)
}

/// Inserting a summary adds exactly that summary and keeps the order.
pub proof fn lemma_insert_by_id(s: Seq<AdrSummaryView>, x: AdrSummaryView)
    requires
        sorted_by_id(s),
    ensures
        insert_by_id(s, x).to_multiset() == s.to_multiset().insert(x),
        insert_by_id(s, x).len() == s.len() + 1,
        sorted_by_id(insert_by_id(s, x)),
    decreases s.len(),
{
    broadcast use vstd::seq_lib::group_to_multiset_ensures;

    if s.len() > 0 && precedes(x.id, s.last().id) {
        let pre = s.drop_last();
        let last = s.last();
        assert(sorted_by_id(pre));
        lemma_insert_by_id(pre, x);
        let r = insert_by_id(pre, x);
        assert(pre.push(last) =~= s);
        assert(s.to_multiset() == pre.to_multiset().insert(last));
        assert(s.to_multiset().insert(x) =~= pre.to_multiset().insert(x).insert(last));
        assert forall|i: int| 0 <= i < r.len() implies !precedes(last.id, r[i].id) by {
            assert(r.to_multiset().count(r[i]) > 0);
            if r[i] == x {
                lemma_precedes_asym(x.id, last.id);
            } else {
                assert(pre.to_multiset().count(r[i]) > 0);
                assert(pre.contains(r[i]));
                let j = choose|j: int| 0 <= j < pre.len() && pre[j] == r[i];
                assert(s[j] == pre[j]);
                assert(s[s.len() - 1] == last);
            }
        }
        assert(sorted_by_id(r.push(last)));
    } else if s.len() > 0 {
        let last = s.last();
        assert forall|i: int| 0 <= i < s.len() implies !precedes(x.id, s[i].id) by {
            if i < s.len() - 1 {
                assert(!precedes(last.id, s[i].id));
                lemma_precedes_total(s[i].id, last.id);
                lemma_precedes_trans(x.id, s[i].id, last.id);
            }
        }
        assert(sorted_by_id(s.push(x)));
    }
}

/// The ADR summaries listed by id are the given summaries, each once, and
/// none comes after a later one by id.
pub proof fn lemma_by_id(s: Seq<AdrSummaryView>)
    ensures
        by_id(s).to_multiset() == s.to_multiset(),
        by_id(s).len() == s.len(),
        sorted_by_id(by_id(s)),
    decreases s.len(),
{
    broadcast use vstd::seq_lib::group_to_multiset_ensures;

    if s.len() > 0 {
        lemma_by_id(s.drop_last());
        lemma_insert_by_id(by_id(s.drop_last()), s.last());
        assert(s.drop_last().push(s.last()) =~= s);
    } else {
        assert(s.to_multiset() =~= vstd::multiset::Multiset::empty());
        assert(by_id(s).to_multiset() =~= vstd::multiset::Multiset::empty());
    }
}

/// Whether `s` is in ascending order.
pub open spec fn is_ascending(s: Seq<u32>) -> bool {
    forall|i: int, j: int| 0 <= i < j < s.len() ==> s[i] <= s[j]
}

/// Inserting a value adds exactly that value and keeps the order.
pub proof fn lemma_insert_ascending(s: Seq<u32>, x: u32)
    requires
        is_ascending(s),
    ensures
        insert_ascending(s, x).to_multiset() == s.to_multiset().insert(x),
        is_ascending(insert_ascending(s, x)),
    decreases s.len(),
{
    broadcast use vstd::seq_lib::group_to_multiset_ensures;

    lemma_insert_ascending_len(s, x);
    if s.len() > 0 && x < s.last() {
        let pre = s.drop_last();
        let last = s.last();
        lemma_insert_ascending(pre, x);
        let r = insert_ascending(pre, x);
        assert(pre.push(last) =~= s);
        assert(s.to_multiset() == pre.to_multiset().insert(last));
        assert(s.to_multiset().insert(x) =~= pre.to_multiset().insert(x).insert(last));
        assert forall|i: int| 0 <= i < r.len() implies r[i] <= last by {
            assert(r.to_multiset().count(r[i]) > 0);
            if r[i] != x {
                assert(pre.to_multiset().count(r[i]) > 0);
                assert(pre.contains(r[i]));
                let j = choose|j: int| 0 <= j < pre.len() && pre[j] == r[i];
                assert(s[j] == pre[j]);
            }
        }
        assert(is_ascending(r.push(last)));
    } else if s.len() > 0 {
        assert forall|i: int| 0 <= i < s.len() implies s[i] <= x by {
            if i < s.len() - 1 {
                assert(s[i] <= s[s.len() - 1]);
            }
        }
        assert(is_ascending(s.push(x)));
    }
}

/// The values in ascending order are the given values, each once, in
/// ascending order: so `median_x2` takes the middle of the sorted values.
pub proof fn lemma_ascending(s: Seq<u32>)
    ensures
        ascending(s).to_multiset() == s.to_multiset(),
        ascending(s).len() == s.len(),
        is_ascending(ascending(s)),
    decreases s.len(),
{
    broadcast use vstd::seq_lib::group_to_multiset_ensures;

    lemma_ascending_len(s);
    if s.len() > 0 {
        lemma_ascending(s.drop_last());
        lemma_insert_ascending(ascending(s.drop_last()), s.last());
        assert(s.drop_last().push(s.last()) =~= s);
    } else {
        assert(s.to_multiset() =~= vstd::multiset::Multiset::empty());
        assert(ascending(s).to_multiset() =~= vstd::multiset::Multiset::empty());
    }
}

/// Counting by status accounts for every slice.
pub proof fn lemma_counts_add_up(s: Seq<SliceView>, n: int)
    requires
        0 <= n <= s.len(),
    ensures
        count_status(s, SliceStatus::Open, n) + count_status(s, SliceStatus::Done, n)
            + count_status(s, SliceStatus::Blocked, n) == n,
    decreases n,
{
    if n > 0 {
        lemma_counts_add_up(s, n - 1);
    }
}

} // verus!
