//! The ledger's tools: what each tool of the MCP surface does to a ledger
//! and what it answers.

use vstd::prelude::*;
use crate::recover::{
    assemble_context, assembled, attempt_head, build_stable, fingerprint_of, fingerprint_stable,
    lemma_fingerprint_ignores_volatile, stable_spec, AssemblePacket, VolatileInputs, HOST_HINT,
};
use crate::schema::{
    clone_strings, shape_from_text, shape_name, status_from_text, strs, Project, ProjectView,
    SessionShape, Slice, SliceStatus, SliceView, validation_message,
    DEFAULT_MAX_FILES, DEFAULT_MAX_LOC,
};
use crate::scope::{
    cuts_cleanly, project_from_scope, scope_cuts_cleanly, scope_epic, scope_spec, ScopeInput,
    ScopeInputView, ScopeResult, ScopeResultView, ScopeSliceDraft, draft_views,
};
use crate::store::{
    current_of, newest_first, pointed_at_open, progress_text, stats_of, upserted, AdrSummary,
    Attempt, ProgressView,
    AttemptView, LedgerStats, LedgerStore, LedgerView,
};
use crate::util::{append_chars, append_str, chars_of, string_of, trim, trim_str};

verus! {

// ---------------------------------------------------------------------------
// Arguments
// ---------------------------------------------------------------------------

/// Arguments of `project_set`.
#[derive(Debug)]
pub struct ProjectSetArgs {
    pub goals: String,
    pub non_goals: String,
    pub status: String,
}

/// The default project status of `project_set`: `active`.
pub fn default_status() -> (r: String)
    ensures
        r@ == "active"@,
{
    String::from_str("active")
}

/// Arguments of `slice_upsert`.
#[derive(Debug)]
pub struct SliceUpsertArgs {
    pub id: String,
    pub title: String,
    pub goal: String,
    pub target_paths: Vec<String>,
    pub acceptance: String,
    pub out_of_scope: String,
    pub tests: Vec<String>,
    pub max_files: u32,
    pub max_loc: u32,
    pub blockers: String,
    pub status: String,
}

/// The default `max_files` of `slice_upsert`.
pub fn default_files() -> (r: u32)
    ensures
        r == DEFAULT_MAX_FILES,
{
    DEFAULT_MAX_FILES
}

/// The default `max_loc` of `slice_upsert`.
pub fn default_loc() -> (r: u32)
    ensures
        r == DEFAULT_MAX_LOC,
{
    DEFAULT_MAX_LOC
}

/// The status that an upsert's status text names, `open` if none.
pub open spec fn status_or_open(t: Seq<char>) -> SliceStatus {
    match status_from_text(t) {
        Some(s) => s,
        None => SliceStatus::Open,
    }
}

/// The slice that upsert arguments describe.
pub open spec fn args_slice(a: SliceUpsertArgs) -> SliceView {
    SliceView {
        id: a.id@,
        title: a.title@,
        goal: a.goal@,
        target_paths: strs(a.target_paths@),
        acceptance: a.acceptance@,
        out_of_scope: a.out_of_scope@,
        tests: strs(a.tests@),
        max_files: a.max_files,
        max_loc: a.max_loc,
        status: status_or_open(a.status@),
        blockers: a.blockers@,
    }
}

impl Slice {
    /// The slice that upsert arguments describe; an unknown or empty status
    /// is `open`.
    pub fn from_args(a: &SliceUpsertArgs) -> (s: Slice)
        ensures
            s@ == args_slice(*a),
    {
        let status = match SliceStatus::from_text(a.status.as_str()) {
            Ok(st) => st,
            Err(_) => SliceStatus::Open,
        };
        Slice {
            id: a.id.clone(),
            title: a.title.clone(),
            goal: a.goal.clone(),
            target_paths: clone_strings(&a.target_paths),
            acceptance: a.acceptance.clone(),
            out_of_scope: a.out_of_scope.clone(),
            tests: clone_strings(&a.tests),
            max_files: a.max_files,
            max_loc: a.max_loc,
            status,
            blockers: a.blockers.clone(),
        }
    }
}

/// Arguments naming a slice.
#[derive(Debug)]
pub struct SliceIdArgs {
    pub id: String,
}

/// Arguments of context assembly.
#[derive(Debug)]
pub struct RecoverArgs {
    pub budget_chars: usize,
    pub shape: String,
}

/// The default budget of context assembly, in characters.
pub fn default_budget() -> (r: usize)
    ensures
        r == 4000,
{
    4000
}

/// The default session shape of context assembly: `feature`.
pub fn default_feature() -> (r: String)
    ensures
        r@ == "feature"@,
{
    String::from_str("feature")
}

/// Arguments of `attempt_append`.
#[derive(Debug)]
pub struct AttemptAppendArgs {
    pub slice_id: String,
    pub summary: String,
    pub failure_mode: String,
    pub do_not_retry_without: String,
}

/// Arguments naming an ADR.
#[derive(Debug)]
pub struct AdrIdArgs {
    pub id: String,
}

/// Arguments of `scope_epic`.
#[derive(Debug)]
pub struct ScopeEpicArgs {
    pub brief: String,
    pub goals: String,
    pub non_goals: String,
    pub slices: Vec<ScopeSliceDraft>,
    pub commit: bool,
}

// ---------------------------------------------------------------------------
// Answers
// ---------------------------------------------------------------------------

/// Why a tool call was refused.
#[derive(Debug, PartialEq, Eq)]
pub enum ServiceError {
    /// The arguments are invalid; the message says how.
    InvalidParams(String),
    /// The ledger could not do what was asked; the message says why.
    Internal(String),
    /// No resource has the given URI.
    ResourceNotFound(String),
}

/// The fingerprint of the stable context, with the shape it was taken for.
#[derive(Debug)]
pub struct PrefixFingerprint {
    pub fingerprint: String,
    pub shape: String,
    pub host_hint: String,
}

/// The contents of a ledger resource.
#[derive(Debug)]
pub enum ResourceBody {
    /// `ledger://project`.
    Project(Project),
    /// `ledger://slice/current`.
    CurrentSlice(Option<Slice>),
}

/// The session shape a text names, `feature` if none.
pub open spec fn shape_or_feature(t: Seq<char>) -> SessionShape {
    match shape_from_text(t) {
        Some(s) => s,
        None => SessionShape::Feature,
    }
}

/// Reads a session shape, `feature` if the text names none.
fn parse_shape(t: &str) -> (s: SessionShape)
    ensures
        s == shape_or_feature(t@),
{
    match SessionShape::from_text(t) {
        Ok(s) => s,
        Err(_) => SessionShape::Feature,
    }
}

/// The message of a refused status.
pub open spec fn bad_status_message(s: Seq<char>) -> Seq<char> {
    "status must be open|blocked|done, got "@ + s
}

/// The scope result after a commit was asked for: written and marked
/// committed when ready, else told that the commit was ignored.
pub open spec fn committed_result(r: ScopeResultView, commit: bool) -> ScopeResultView {
    if r.ok && commit {
        ScopeResultView {
            committed: true,
            status: "committed"@,
            message: "Ledger written. Use assemble_context / prefix_fingerprint; pin stable until fingerprint changes."@,
            ..r
        }
    } else if commit && !r.ok {
        ScopeResultView {
            message: "commit=true ignored: resolve clarifications (ask the user) then retry."@,
            ..r
        }
    } else {
        r
    }
}

/// The backlog after upserting `slices[..n]` in turn, statuses as given.
pub open spec fn upsert_all(s: Seq<SliceView>, slices: Seq<SliceView>, n: int) -> Seq<SliceView>
    decreases n,
{
    if n <= 0 {
        s
    } else {
        upserted(upsert_all(s, slices, n - 1), slices[n - 1], true).0
    }
}

impl ScopeEpicArgs {
    /// Whether scoping these arguments cuts every section of the brief at a
    /// character boundary (see `scope_cuts_cleanly`).
    pub fn cuts_cleanly(&self) -> (r: bool)
        ensures
            r == scope_cuts_cleanly(scope_input_of(*self)),
    {
        cuts_cleanly(self.brief.as_str(), self.goals.as_str(), self.non_goals.as_str(), self.slices.len())
    }
}

/// The progress pointer after upserting `slices[..n]` in turn into `s`
/// (see `upsert_all`), starting from `p`: each upsert moves it as
/// `pointed_at_open` says for the backlog it leaves.
pub open spec fn upsert_all_progress(
    p: ProgressView,
    s: Seq<SliceView>,
    slices: Seq<SliceView>,
    n: int,
) -> ProgressView
    decreases n,
{
    if n <= 0 {
        p
    } else {
        pointed_at_open(upsert_all_progress(p, s, slices, n - 1), upsert_all(s, slices, n))
    }
}

/// The scope request that `scope_epic` arguments make.
pub open spec fn scope_input_of(a: ScopeEpicArgs) -> ScopeInputView {
    ScopeInputView {
        brief: a.brief@,
        goals: a.goals@,
        non_goals: a.non_goals@,
        slices: draft_views(a.slices@),
        commit: a.commit,
    }
}

// ---------------------------------------------------------------------------
// The service
// ---------------------------------------------------------------------------

/// The ledger's tools, over one ledger.
#[derive(Debug)]
pub struct LedgerService {
    store: LedgerStore,
}

impl View for LedgerService {
    type V = LedgerView;

    closed spec fn view(&self) -> LedgerView {
        self.store@
    }
}

/// The packet that context assembly gives for a ledger: the current slice,
/// the progress text, the newest attempt and the statistics, within the
/// budget and for the shape that the arguments name.
pub open spec fn packet_for(l: LedgerView, budget: usize, shape: Seq<char>) -> crate::recover::PacketView {
    let attempts = newest_first(l.attempts);
    assembled(
        l.project,
        current_of(l.progress, l.slices),
        shape_or_feature(shape),
        budget as nat,
        progress_text(l.progress),
        if attempts.len() > 0 {
            Some(attempts[0])
        } else {
            None
        },
        Some(stats_of(l.slices)),
    )
}

/// Assembles the context packet of a ledger (see `packet_for`).
pub fn assemble_packet(store: &LedgerStore, args: &RecoverArgs) -> (r: AssemblePacket)
    ensures
        r@ == packet_for(store@, args.budget_chars, args.shape@),
{
    let shape = parse_shape(args.shape.as_str());
    let project = match store.load_project() {
        Ok(p) => p,
        Err(_) => Project::default(),
    };
    let current = match store.current_slice() {
        Ok(c) => c,
        Err(_) => None,
    };
    let progress = match store.read_progress() {
        Ok(p) => p,
        Err(_) => String::new(),
    };
    let attempts = match store.list_attempts() {
        Ok(a) => a,
        Err(_) => Vec::new(),
    };
    let stats = match store.stats() {
        Ok(s) => Some(s),
        Err(_) => None,
    };
    let latest: Option<&Attempt> = if attempts.len() > 0 {
        Some(&attempts[0])
    } else {
        None
    };
    let r = assemble_context(
        &project,
        current.as_ref(),
        shape,
        args.budget_chars,
        VolatileInputs { progress: progress.as_str(), latest_attempt: latest, stats: stats.as_ref() },
    );
    proof {
        let l = store@;
        let an = newest_first(l.attempts);
        assert(attempts@.map_values(|a: Attempt| a@) == an);
        if attempts@.len() > 0 {
            assert(an[0] == attempts@[0]@);
        }
    }
    r
}

impl LedgerService {
    /// The tools over the ledger of `root`, as a fresh directory holds it.
    pub fn new(root: String) -> (r: LedgerService)
        ensures
            r@ == crate::store::fresh_ledger(root@),
    {
        LedgerService { store: LedgerStore::new(root) }
    }

    /// The tools over a ledger.
    pub fn from_store(store: LedgerStore) -> (r: LedgerService)
        ensures
            r@ == store@,
    {
        LedgerService { store }
    }

    /// The ledger, to be written back.
    pub fn into_store(self) -> (r: LedgerStore)
        ensures
            r@ == self@,
    {
        self.store
    }

    /// `scope_epic`: scopes an epic from one prompt and, when `commit` is
    /// asked and the scope is ready, writes its project and upserts its
    /// slices with their statuses. The brief's sections must be cut at
    /// character boundaries (`ScopeEpicArgs::cuts_cleanly` tells).
    pub fn scope_epic(&mut self, args: ScopeEpicArgs) -> (r: ScopeResult)
        requires
            scope_cuts_cleanly(scope_input_of(args)),
        ensures
            r@ == committed_result(scope_spec(scope_input_of(args)), args.commit),
            ({
                let s = scope_spec(scope_input_of(args));
                if s.ok && args.commit {
                    final(self)@ == (LedgerView {
                        project: ProjectView {
                            goals: s.goals,
                            non_goals: s.non_goals,
                            status: "active"@,
                        },
                        slices: upsert_all(old(self)@.slices, s.slices, s.slices.len() as int),
                        progress: upsert_all_progress(
                            old(self)@.progress,
                            old(self)@.slices,
                            s.slices,
                            s.slices.len() as int,
                        ),
                        ..old(self)@
                    })
                } else {
                    final(self)@ == old(self)@
                }
            }),
    {
        let commit = args.commit;
        let ghost input_v = scope_input_of(args);
        let input = ScopeInput {
            brief: args.brief,
            goals: args.goals,
            non_goals: args.non_goals,
            slices: args.slices,
            commit,
        };
        assert(input@ == input_v);
        let mut result = scope_epic(input);
        if result.ok && commit {
            let p = project_from_scope(&result);
            let _ = self.store.save_project(&p);
            let ghost base = self.store@.slices;
            let ghost sv = result@.slices;
            let mut i: usize = 0;
            while i < result.slices.len()
                invariant
                    i <= result.slices.len(),
                    sv == result@.slices,
                    sv == result.slices@.map_values(|s: Slice| s@),
                    self.store@.slices == upsert_all(base, sv, i as int),
                    self.store@.project == p@,
                    self.store@.progress == upsert_all_progress(
                        old(self)@.progress,
                        base,
                        sv,
                        i as int,
                    ),
                    self.store@.attempts == old(self)@.attempts,
                    self.store@.adrs == old(self)@.adrs,
                    self.store@.root == old(self)@.root,
                decreases result.slices.len() - i,
            {
                let _ = self.store.upsert_slice_ex(result.slices[i].clone(), true);
                i = i + 1;
            }
            result.committed = true;
            result.status = String::from_str("committed");
            result.message = String::from_str(
                "Ledger written. Use assemble_context / prefix_fingerprint; pin stable until fingerprint changes.",
            );
        } else if commit && !result.ok {
            result.message = String::from_str(
                "commit=true ignored: resolve clarifications (ask the user) then retry.",
            );
        }
        result
    }

    /// `project_get`: the project and the backlog's statistics.
    pub fn project_get(&self) -> (r: (Project, LedgerStats))
        ensures
            r.0@ == self@.project,
            r.1@ == stats_of(self@.slices),
    {
        let p = match self.store.load_project() {
            Ok(p) => p,
            Err(_) => Project::default(),
        };
        let s = match self.store.stats() {
            Ok(s) => s,
            Err(_) => LedgerStats {
                total_slices: 0,
                open: 0,
                done: 0,
                blocked: 0,
                median_max_files_on_done_x2: None,
                note: String::new(),
            },
        };
        (p, s)
    }

    /// `project_set`: replaces the project with the given one.
    pub fn project_set(&mut self, args: ProjectSetArgs) -> (r: Project)
        ensures
            r@ == (ProjectView { goals: args.goals@, non_goals: args.non_goals@, status: args.status@ }),
            final(self)@ == crate::store::with_project(old(self)@, r@),
    {
        let p = Project { goals: args.goals, non_goals: args.non_goals, status: args.status };
        let _ = self.store.save_project(&p);
        p
    }

    /// `slice_upsert`: a status, if given, must name one (it then replaces
    /// a stored slice's status); the slice must validate; it is then
    /// upserted.
    pub fn slice_upsert(&mut self, args: SliceUpsertArgs) -> (r: Result<Slice, ServiceError>)
        ensures
            ({
                let st = trim(args.status@);
                let explicit = st.len() > 0;
                if explicit && status_from_text(st) is None {
                    &&& r matches Err(ServiceError::InvalidParams(m)) && m@ == bad_status_message(st)
                    &&& final(self)@ == old(self)@
                } else if args_slice(args).validity() is Err {
                    &&& r matches Err(ServiceError::InvalidParams(m)) && m@ == validation_message(
                        args_slice(args).validity()->Err_0,
                    )
                    &&& final(self)@ == old(self)@
                } else {
                    let (t, saved) = upserted(old(self)@.slices, args_slice(args), explicit);
                    &&& r matches Ok(s) && s@ == saved
                    &&& final(self)@ == (LedgerView {
                        slices: t,
                        progress: pointed_at_open(old(self)@.progress, t),
                        ..old(self)@
                    })
                }
            }),
    {
        let st = trim_str(args.status.as_str());
        let explicit = st.len() > 0;
        if explicit {
            let sts = string_of(&st);
            match SliceStatus::from_text(sts.as_str()) {
                Ok(_) => {},
                Err(_) => {
                    let mut m = chars_of("status must be open|blocked|done, got ");
                    append_chars(&mut m, &st);
                    return Err(ServiceError::InvalidParams(string_of(&m)));
                },
            }
        }
        let slice = Slice::from_args(&args);
        match slice.validate() {
            Err(e) => Err(ServiceError::InvalidParams(String::from_str(e.message()))),
            Ok(_) => match self.store.upsert_slice_ex(slice, explicit) {
                Ok(s) => Ok(s),
                Err(e) => Err(ServiceError::Internal(e.message())),
            },
        }
    }

    /// `slice_next`: the first open slice.
    pub fn slice_next(&self) -> (r: Option<Slice>)
        ensures
            match crate::store::open_pos(self@.slices) {
                Some(k) => r matches Some(s) && s@ == self@.slices[k],
                None => r is None,
            },
    {
        match self.store.next_open_slice() {
            Ok(o) => o,
            Err(_) => None,
        }
    }

    /// `slice_complete`: marks a slice done and advances the pointer.
    pub fn slice_complete(&mut self, args: SliceIdArgs) -> (r: Result<Slice, ServiceError>)
        ensures
            match crate::store::id_pos(old(self)@.slices, args.id@) {
                None => r matches Err(ServiceError::Internal(m)) && m@ == "slice not found: "@
                    + args.id@ && final(self)@ == old(self)@,
                Some(k) => {
                    let done = SliceView { status: SliceStatus::Done, ..old(self)@.slices[k] };
                    let s = old(self)@.slices.update(k, done);
                    &&& r matches Ok(d) && d@ == done
                    &&& final(self)@ == (LedgerView {
                        slices: s,
                        progress: crate::store::advanced(s, args.id@),
                        ..old(self)@
                    })
                },
            },
    {
        match self.store.complete_slice(args.id.as_str()) {
            Ok(s) => Ok(s),
            Err(e) => Err(ServiceError::Internal(e.message())),
        }
    }

    /// `assemble_context`: the context packet (see `packet_for`).
    pub fn assemble_context(&self, args: &RecoverArgs) -> (r: AssemblePacket)
        ensures
            r@ == packet_for(self@, args.budget_chars, args.shape@),
    {
        assemble_packet(&self.store, args)
    }

    /// `recover_context`: the same packet as `assemble_context`.
    pub fn recover_context(&self, args: &RecoverArgs) -> (r: AssemblePacket)
        ensures
            r@ == packet_for(self@, args.budget_chars, args.shape@),
    {
        assemble_packet(&self.store, args)
    }

    /// `prefix_fingerprint`: the fingerprint of the stable context alone,
    /// for the shape that the arguments name.
    pub fn prefix_fingerprint(&self, args: &RecoverArgs) -> (r: PrefixFingerprint)
        ensures
            r.fingerprint@ == fingerprint_of(
                stable_spec(
                    self@.project,
                    current_of(self@.progress, self@.slices),
                    shape_or_feature(args.shape@),
                ),
            ),
            r.shape@ == shape_name(shape_or_feature(args.shape@)),
            r.host_hint@ == HOST_HINT@,
    {
        let shape = parse_shape(args.shape.as_str());
        let project = match self.store.load_project() {
            Ok(p) => p,
            Err(_) => Project::default(),
        };
        let current = match self.store.current_slice() {
            Ok(c) => c,
            Err(_) => None,
        };
        let stable = build_stable(&project, current.as_ref(), shape);
        PrefixFingerprint {
            fingerprint: fingerprint_stable(&stable),
            shape: String::from_str(shape.as_str()),
            host_hint: String::from_str(HOST_HINT),
        }
    }

    /// `attempt_append`: records a failed attempt made now.
    pub fn attempt_append(&mut self, args: AttemptAppendArgs) -> (r: Attempt)
        ensures
            exists|secs: u64, nanos: u32|
                nanos < 1_000_000_000 && r@ == (AttemptView {
                    id: crate::store::attempt_id(secs, nanos),
                    slice_id: args.slice_id@,
                    summary: args.summary@,
                    failure_mode: args.failure_mode@,
                    do_not_retry_without: args.do_not_retry_without@,
                    created_unix: secs,
                }),
            final(self)@ == (LedgerView { attempts: old(self)@.attempts.push(r@), ..old(self)@ }),
    {
        match self.store.append_attempt(
            args.slice_id.as_str(),
            args.summary.as_str(),
            args.failure_mode.as_str(),
            args.do_not_retry_without.as_str(),
        ) {
            Ok(a) => a,
            Err(_) => {
                proof {
                    assert(false);
                }
                Attempt {
                    id: String::new(),
                    slice_id: String::new(),
                    summary: String::new(),
                    failure_mode: String::new(),
                    do_not_retry_without: String::new(),
                    created_unix: 0,
                }
            },
        }
    }

    /// `attempt_list`: the attempts, newest first.
    pub fn attempt_list(&self) -> (r: Vec<Attempt>)
        ensures
            r@.map_values(|a: Attempt| a@) == newest_first(self@.attempts),
    {
        match self.store.list_attempts() {
            Ok(v) => v,
            Err(_) => {
                proof {
                    assert(false);
                }
                Vec::new()
            },
        }
    }

    /// `adr_list`: summaries of all ADRs, sorted by id.
    pub fn adr_list(&self) -> (r: Vec<AdrSummary>)
        ensures
            r@.map_values(|a: AdrSummary| a@) == crate::store::by_id(
                self@.adrs.map_values(
                    |d: crate::store::AdrDocView| crate::store::adr_summary_of(d.id, d.text, 400),
                ),
            ),
    {
        match self.store.list_adrs() {
            Ok(v) => v,
            Err(_) => {
                proof {
                    assert(false);
                }
                Vec::new()
            },
        }
    }

    /// `adr_get`: the summary of one ADR.
    pub fn adr_get(&self, args: &AdrIdArgs) -> (r: Result<AdrSummary, ServiceError>)
        ensures
            ({
                let key = crate::store::strip_md(trim(args.id@));
                match crate::store::adr_pos_from(self@.adrs, key, 0) {
                    Some(k) => r matches Ok(a) && a@ == crate::store::adr_summary_of(
                        key,
                        self@.adrs[k].text,
                        800,
                    ),
                    None => r matches Err(ServiceError::Internal(m)) && m@ == "slice not found: "@
                        + key,
                }
            }),
    {
        match self.store.get_adr(args.id.as_str()) {
            Ok(a) => Ok(a),
            Err(e) => Err(ServiceError::Internal(e.message())),
        }
    }

    /// Reads a ledger resource: the project, or the current slice.
    pub fn read_resource(&self, uri: &str) -> (r: Result<ResourceBody, ServiceError>)
        ensures
            uri@ == "ledger://project"@ ==> (r matches Ok(ResourceBody::Project(p)) && p@
                == self@.project),
            uri@ == "ledger://slice/current"@ ==> (r matches Ok(ResourceBody::CurrentSlice(o))
                && match current_of(self@.progress, self@.slices) {
                Some(s) => o matches Some(x) && x@ == s,
                None => o is None,
            }),
            uri@ != "ledger://project"@ && uri@ != "ledger://slice/current"@ ==> (r matches Err(
                ServiceError::ResourceNotFound(m),
            ) && m@ == "unknown resource "@ + uri@),
    {
        proof {
            reveal_strlit("ledger://project");
            reveal_strlit("ledger://slice/current");
            assert("ledger://project"@.len() != "ledger://slice/current"@.len());
        }
        if crate::store::str_eq(uri, "ledger://project") {
            match self.store.load_project() {
                Ok(p) => Ok(ResourceBody::Project(p)),
                Err(e) => Err(ServiceError::Internal(e.message())),
            }
        } else if crate::store::str_eq(uri, "ledger://slice/current") {
            match self.store.current_slice() {
                Ok(c) => Ok(ResourceBody::CurrentSlice(c)),
                Err(e) => Err(ServiceError::Internal(e.message())),
            }
        } else {
            let mut m = chars_of("unknown resource ");
            append_str(&mut m, uri);
            Err(ServiceError::ResourceNotFound(string_of(&m)))
        }
    }
}

// ---------------------------------------------------------------------------
// Laws
// ---------------------------------------------------------------------------

/// The fingerprint that `prefix_fingerprint` answers is the one in the
/// packet that `assemble_context` and `recover_context` answer for the same
/// ledger and shape, whatever the budget; and two ledgers with the same
/// project and current slice have the same fingerprint, whatever their
/// progress text, attempts and statistics.
pub proof fn lemma_prefix_matches_packet(
    l1: LedgerView,
    l2: LedgerView,
    budget1: usize,
    budget2: usize,
    shape: Seq<char>,
)
    requires
        l1.project == l2.project,
        current_of(l1.progress, l1.slices) == current_of(l2.progress, l2.slices),
    ensures
        packet_for(l1, budget1, shape).fingerprint == fingerprint_of(
            stable_spec(l1.project, current_of(l1.progress, l1.slices), shape_or_feature(shape)),
        ),
        packet_for(l1, budget1, shape).fingerprint == packet_for(l2, budget2, shape).fingerprint,
{
    let a1 = newest_first(l1.attempts);
    let a2 = newest_first(l2.attempts);
    lemma_fingerprint_ignores_volatile(
        l1.project,
        current_of(l1.progress, l1.slices),
        shape_or_feature(shape),
        budget1 as nat,
        progress_text(l1.progress),
        if a1.len() > 0 { Some(a1[0]) } else { None },
        Some(stats_of(l1.slices)),
        budget2 as nat,
        progress_text(l2.progress),
        if a2.len() > 0 { Some(a2[0]) } else { None },
        Some(stats_of(l2.slices)),
    );
}

/// The attempt in a ledger's packet, when it carries one, is the head of
/// the newest recorded attempt: an attempt of the ledger made no earlier
/// than any other.
pub proof fn lemma_packet_carries_newest_attempt(l: LedgerView, budget: usize, shape: Seq<char>)
    ensures
        packet_for(l, budget, shape).volatile.latest_attempt matches Some(h) ==> exists|a: AttemptView|
            #![trigger attempt_head(a)]
            l.attempts.contains(a) && h == attempt_head(a) && forall|b: AttemptView|
                l.attempts.contains(b) ==> a.created_unix >= b.created_unix,
{
    broadcast use vstd::seq_lib::group_to_multiset_ensures;

    let an = newest_first(l.attempts);
    crate::store::lemma_newest_first(l.attempts);
    let attempt = if an.len() > 0 {
        Some(an[0])
    } else {
        None
    };
    crate::recover::lemma_packet_attempt_given(
        l.project,
        current_of(l.progress, l.slices),
        shape_or_feature(shape),
        budget as nat,
        progress_text(l.progress),
        attempt,
        Some(stats_of(l.slices)),
    );
    if an.len() > 0 {
        let a = an[0];
        assert(an.contains(a));
        assert(an.to_multiset().count(a) > 0);
        assert(l.attempts.contains(a));
        assert forall|b: AttemptView| l.attempts.contains(b) implies a.created_unix >= b.created_unix by {
            assert(l.attempts.to_multiset().count(b) > 0);
            assert(an.contains(b));
            let j = choose|j: int| 0 <= j < an.len() && an[j] == b;
            if j > 0 {
                assert(an[0].created_unix >= an[j].created_unix);
            }
        }
    }
}

} // verus!
