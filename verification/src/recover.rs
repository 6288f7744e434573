//! Cache-aware context assembly — stable vs volatile tiers + fingerprint.

use vstd::prelude::*;
use crate::json::{
    json_bool, json_string, json_strings, push_bool, push_string, push_strings, push_uint,
};
use crate::schema::{
    clone_strings, shape_description, shape_name, strs, Project, ProjectView, SessionShape, Slice,
    SliceStatus, SliceView,
};
use crate::store::{Attempt, AttemptView, LedgerStats, StatsView};
use crate::util::{
    append_chars, append_str, chars_of, dec, decimal, hex16, hex_fixed, string_of, truncate,
    truncate_spec,
};

verus! {

/// What a host should do with an assembled packet.
pub const HOST_HINT: &'static str = "Pin `stable` until `fingerprint` changes; append `volatile` only this turn (or omit). Do not re-paste stable mid-slice.";

// ---------------------------------------------------------------------------
// Types
// ---------------------------------------------------------------------------

/// The fields of the current slice that stay fixed while it is worked on.
#[derive(Debug)]
pub struct StableSlice {
    pub id: String,
    pub title: String,
    pub goal: String,
    pub acceptance: String,
    pub out_of_scope: String,
    pub target_paths: Vec<String>,
    pub max_files: u32,
    pub max_loc: u32,
    pub status: SliceStatus,
    pub blockers: String,
}

/// What a stable slice holds.
pub ghost struct StableSliceView {
    pub id: Seq<char>,
    pub title: Seq<char>,
    pub goal: Seq<char>,
    pub acceptance: Seq<char>,
    pub out_of_scope: Seq<char>,
    pub target_paths: Seq<Seq<char>>,
    pub max_files: u32,
    pub max_loc: u32,
    pub status: SliceStatus,
    pub blockers: Seq<char>,
}

impl View for StableSlice {
    type V = StableSliceView;

    open spec fn view(&self) -> StableSliceView {
        StableSliceView {
            id: self.id@,
            title: self.title@,
            goal: self.goal@,
            acceptance: self.acceptance@,
            out_of_scope: self.out_of_scope@,
            target_paths: strs(self.target_paths@),
            max_files: self.max_files,
            max_loc: self.max_loc,
            status: self.status,
            blockers: self.blockers@,
        }
    }
}

/// The stable part of a slice: all its fields but its tests.
pub open spec fn stable_slice(s: SliceView) -> StableSliceView {
    StableSliceView {
        id: s.id,
        title: s.title,
        goal: s.goal,
        acceptance: s.acceptance,
        out_of_scope: s.out_of_scope,
        target_paths: s.target_paths,
        max_files: s.max_files,
        max_loc: s.max_loc,
        status: s.status,
        blockers: s.blockers,
    }
}

impl StableSlice {
    /// The stable part of a slice (see `stable_slice`).
    pub fn from_slice(s: &Slice) -> (r: StableSlice)
        ensures
            r@ == stable_slice(s@),
    {
        StableSlice {
            id: s.id.clone(),
            title: s.title.clone(),
            goal: s.goal.clone(),
            acceptance: s.acceptance.clone(),
            out_of_scope: s.out_of_scope.clone(),
            target_paths: clone_strings(&s.target_paths),
            max_files: s.max_files,
            max_loc: s.max_loc,
            status: s.status,
            blockers: s.blockers.clone(),
        }
    }
}

/// The context that stays fixed while a slice is worked on: a host keeps it
/// cached until its fingerprint changes.
#[derive(Debug)]
pub struct StableContext {
    pub project_status: String,
    pub goals: String,
    pub non_goals: String,
    pub current_slice: Option<StableSlice>,
    pub steward_priority: Option<String>,
}

/// What a stable context holds.
pub ghost struct StableView {
    pub project_status: Seq<char>,
    pub goals: Seq<char>,
    pub non_goals: Seq<char>,
    pub current_slice: Option<StableSliceView>,
    pub steward_priority: Option<Seq<char>>,
}

impl View for StableContext {
    type V = StableView;

    open spec fn view(&self) -> StableView {
        StableView {
            project_status: self.project_status@,
            goals: self.goals@,
            non_goals: self.non_goals@,
            current_slice: match self.current_slice {
                Some(s) => Some(s@),
                None => None,
            },
            steward_priority: match self.steward_priority {
                Some(t) => Some(t@),
                None => None,
            },
        }
    }
}

/// The head of the latest failed attempt.
#[derive(Debug)]
pub struct AttemptHead {
    pub id: String,
    pub slice_id: String,
    pub summary: String,
    pub failure_mode: String,
}

/// What an attempt head holds.
pub ghost struct AttemptHeadView {
    pub id: Seq<char>,
    pub slice_id: Seq<char>,
    pub summary: Seq<char>,
    pub failure_mode: Seq<char>,
}

impl View for AttemptHead {
    type V = AttemptHeadView;

    open spec fn view(&self) -> AttemptHeadView {
        AttemptHeadView {
            id: self.id@,
            slice_id: self.slice_id@,
            summary: self.summary@,
            failure_mode: self.failure_mode@,
        }
    }
}

/// The head of an attempt: all but when it was made and what it awaits.
pub open spec fn attempt_head(a: AttemptView) -> AttemptHeadView {
    AttemptHeadView {
        id: a.id,
        slice_id: a.slice_id,
        summary: a.summary,
        failure_mode: a.failure_mode,
    }
}

impl AttemptHead {
    /// The head of an attempt (see `attempt_head`).
    pub fn from_attempt(a: &Attempt) -> (r: AttemptHead)
        ensures
            r@ == attempt_head(a@),
    {
        AttemptHead {
            id: a.id.clone(),
            slice_id: a.slice_id.clone(),
            summary: a.summary.clone(),
            failure_mode: a.failure_mode.clone(),
        }
    }
}

/// The context that changes from turn to turn.
#[derive(Debug)]
pub struct VolatileContext {
    pub progress_excerpt: String,
    pub latest_attempt: Option<AttemptHead>,
    pub stats: Option<LedgerStats>,
}

/// What a volatile context holds.
pub ghost struct VolatileView {
    pub progress_excerpt: Seq<char>,
    pub latest_attempt: Option<AttemptHeadView>,
    pub stats: Option<StatsView>,
}

impl View for VolatileContext {
    type V = VolatileView;

    open spec fn view(&self) -> VolatileView {
        VolatileView {
            progress_excerpt: self.progress_excerpt@,
            latest_attempt: match self.latest_attempt {
                Some(a) => Some(a@),
                None => None,
            },
            stats: match self.stats {
                Some(s) => Some(s@),
                None => None,
            },
        }
    }
}

/// A context packet for one turn, within a character budget.
#[derive(Debug)]
pub struct AssemblePacket {
    pub ok: bool,
    pub budget_chars: usize,
    pub used_chars: usize,
    pub status: String,
    pub shape: String,
    pub fingerprint: String,
    pub host_hint: String,
    pub stable: StableContext,
    pub volatile: VolatileContext,
    pub omissions: Vec<String>,
    pub message: String,
}

/// The packet recovered after a break is the same kind of packet.
pub type RecoverPacket = AssemblePacket;

/// What a packet holds.
pub ghost struct PacketView {
    pub ok: bool,
    pub budget_chars: nat,
    pub used_chars: nat,
    pub status: Seq<char>,
    pub shape: Seq<char>,
    pub fingerprint: Seq<char>,
    pub host_hint: Seq<char>,
    pub stable: StableView,
    pub volatile: VolatileView,
    pub omissions: Seq<Seq<char>>,
    pub message: Seq<char>,
}

impl View for AssemblePacket {
    type V = PacketView;

    open spec fn view(&self) -> PacketView {
        PacketView {
            ok: self.ok,
            budget_chars: self.budget_chars as nat,
            used_chars: self.used_chars as nat,
            status: self.status@,
            shape: self.shape@,
            fingerprint: self.fingerprint@,
            host_hint: self.host_hint@,
            stable: self.stable@,
            volatile: self.volatile@,
            omissions: strs(self.omissions@),
            message: self.message@,
        }
    }
}

/// What goes into a packet from the turn's volatile state.
pub struct VolatileInputs<'a> {
    pub progress: &'a str,
    pub latest_attempt: Option<&'a Attempt>,
    pub stats: Option<&'a LedgerStats>,
}

// ---------------------------------------------------------------------------
// The packet's JSON text
// ---------------------------------------------------------------------------

/// A slice status in JSON.
pub open spec fn json_status(s: SliceStatus) -> Seq<char> {
    match s {
        SliceStatus::Open => json_string("open"@),
        SliceStatus::Blocked => json_string("blocked"@),
        SliceStatus::Done => json_string("done"@),
    }
}

/// A stable slice in JSON.
pub open spec fn json_stable_slice(s: StableSliceView) -> Seq<char> {
    "{\"id\":"@ + json_string(s.id) + ",\"title\":"@ + json_string(s.title) + ",\"goal\":"@
        + json_string(s.goal) + ",\"acceptance\":"@ + json_string(s.acceptance)
        + ",\"out_of_scope\":"@ + json_string(s.out_of_scope) + ",\"target_paths\":"@
        + json_strings(s.target_paths) + ",\"max_files\":"@ + dec(s.max_files as nat)
        + ",\"max_loc\":"@ + dec(s.max_loc as nat) + ",\"status\":"@ + json_status(s.status)
        + ",\"blockers\":"@ + json_string(s.blockers) + "}"@
}

/// An optional stable slice in JSON.
pub open spec fn json_opt_slice(s: Option<StableSliceView>) -> Seq<char> {
    match s {
        Some(s) => json_stable_slice(s),
        None => "null"@,
    }
}

/// An optional steward priority as a JSON field, left out when absent.
pub open spec fn json_opt_priority(t: Option<Seq<char>>) -> Seq<char> {
    match t {
        Some(t) => ",\"steward_priority\":"@ + json_string(t),
        None => Seq::empty(),
    }
}

/// The fields of a stable context up to its current slice, in JSON.
pub open spec fn json_stable_head(c: StableView) -> Seq<char> {
    "{\"project_status\":"@ + json_string(c.project_status) + ",\"goals\":"@ + json_string(
        c.goals,
    ) + ",\"non_goals\":"@ + json_string(c.non_goals) + ",\"current_slice\":"@
}

/// A stable context in JSON; an absent steward priority is left out.
pub open spec fn json_stable(c: StableView) -> Seq<char> {
    json_stable_head(c) + json_opt_slice(c.current_slice) + json_opt_priority(c.steward_priority)
        + "}"@
}

/// An attempt head in JSON.
pub open spec fn json_attempt_head(a: AttemptHeadView) -> Seq<char> {
    "{\"id\":"@ + json_string(a.id) + ",\"slice_id\":"@ + json_string(a.slice_id)
        + ",\"summary\":"@ + json_string(a.summary) + ",\"failure_mode\":"@ + json_string(
        a.failure_mode,
    ) + "}"@
}

/// Half of `h` as a JSON number: its integer part and `.0` or `.5`.
pub open spec fn json_half(h: u64) -> Seq<char> {
    dec((h / 2) as nat) + if h % 2 == 0 {
        ".0"@
    } else {
        ".5"@
    }
}

/// Ledger statistics in JSON.
pub open spec fn json_stats(s: StatsView) -> Seq<char> {
    "{\"total_slices\":"@ + dec(s.total_slices as nat) + ",\"open\":"@ + dec(s.open as nat)
        + ",\"done\":"@ + dec(s.done as nat) + ",\"blocked\":"@ + dec(s.blocked as nat)
        + ",\"median_max_files_on_done\":"@ + match s.median_max_files_on_done_x2 {
        Some(h) => json_half(h),
        None => "null"@,
    } + ",\"note\":"@ + json_string(s.note) + "}"@
}

/// A volatile context in JSON; absent parts are left out.
pub open spec fn json_volatile(v: VolatileView) -> Seq<char> {
    "{\"progress_excerpt\":"@ + json_string(v.progress_excerpt) + match v.latest_attempt {
        Some(a) => ",\"latest_attempt\":"@ + json_attempt_head(a),
        None => Seq::empty(),
    } + match v.stats {
        Some(s) => ",\"stats\":"@ + json_stats(s),
        None => Seq::empty(),
    } + "}"@
}

/// A packet in JSON.
pub open spec fn json_packet(p: PacketView) -> Seq<char> {
    "{\"ok\":"@ + json_bool(p.ok) + ",\"budget_chars\":"@ + dec(p.budget_chars)
        + ",\"used_chars\":"@ + dec(p.used_chars) + ",\"status\":"@ + json_string(p.status)
        + ",\"shape\":"@ + json_string(p.shape) + ",\"fingerprint\":"@ + json_string(
        p.fingerprint,
    ) + ",\"host_hint\":"@ + json_string(p.host_hint) + ",\"stable\":"@ + json_stable(p.stable)
        + ",\"volatile\":"@ + json_volatile(p.volatile) + ",\"omissions\":"@ + json_strings(
        p.omissions,
    ) + ",\"message\":"@ + json_string(p.message) + "}"@
}

/// The length of a packet's JSON text, in characters.
#[verifier::opaque]
pub open spec fn packet_len(p: PacketView) -> nat {
    json_packet(p).len()
}

/// Appends a slice status in JSON.
fn push_status(out: &mut Vec<char>, s: SliceStatus)
    ensures
        final(out)@ == old(out)@ + json_status(s),
{
    match s {
        SliceStatus::Open => push_string(out, "open"),
        SliceStatus::Blocked => push_string(out, "blocked"),
        SliceStatus::Done => push_string(out, "done"),
    }
}

/// Appends a stable slice in JSON.
#[verifier::rlimit(30)]
fn push_stable_slice(out: &mut Vec<char>, s: &StableSlice)
    ensures
        final(out)@ == old(out)@ + json_stable_slice(s@),
{
    let ghost start = out@;
    append_str(out, "{\"id\":");
    push_string(out, s.id.as_str());
    append_str(out, ",\"title\":");
    push_string(out, s.title.as_str());
    append_str(out, ",\"goal\":");
    push_string(out, s.goal.as_str());
    append_str(out, ",\"acceptance\":");
    push_string(out, s.acceptance.as_str());
    append_str(out, ",\"out_of_scope\":");
    push_string(out, s.out_of_scope.as_str());
    append_str(out, ",\"target_paths\":");
    push_strings(out, &s.target_paths);
    append_str(out, ",\"max_files\":");
    push_uint(out, s.max_files as u64);
    append_str(out, ",\"max_loc\":");
    push_uint(out, s.max_loc as u64);
    append_str(out, ",\"status\":");
    push_status(out, s.status);
    append_str(out, ",\"blockers\":");
    push_string(out, s.blockers.as_str());
    append_str(out, "}");
    assert(out@ =~= start + json_stable_slice(s@));
}

/// Appends a stable context in JSON.
fn push_stable(out: &mut Vec<char>, c: &StableContext)
    ensures
        final(out)@ == old(out)@ + json_stable(c@),
{
    let ghost start = out@;
    append_str(out, "{\"project_status\":");
    push_string(out, c.project_status.as_str());
    append_str(out, ",\"goals\":");
    push_string(out, c.goals.as_str());
    append_str(out, ",\"non_goals\":");
    push_string(out, c.non_goals.as_str());
    append_str(out, ",\"current_slice\":");
    let ghost mid1 = out@;
    assert(mid1 =~= start + json_stable_head(c@));
    match &c.current_slice {
        Some(s) => push_stable_slice(out, s),
        None => append_str(out, "null"),
    }
    let ghost mid2 = out@;
    assert(mid2 =~= mid1 + json_opt_slice(c@.current_slice));
    match &c.steward_priority {
        Some(t) => {
            append_str(out, ",\"steward_priority\":");
            push_string(out, t.as_str());
        },
        None => {},
    }
    let ghost mid3 = out@;
    assert(mid3 =~= mid2 + json_opt_priority(c@.steward_priority));
    append_str(out, "}");
    assert(out@ =~= start + json_stable(c@));
}

/// Appends an attempt head in JSON.
fn push_attempt_head(out: &mut Vec<char>, a: &AttemptHead)
    ensures
        final(out)@ == old(out)@ + json_attempt_head(a@),
{
    let ghost start = out@;
    append_str(out, "{\"id\":");
    push_string(out, a.id.as_str());
    append_str(out, ",\"slice_id\":");
    push_string(out, a.slice_id.as_str());
    append_str(out, ",\"summary\":");
    push_string(out, a.summary.as_str());
    append_str(out, ",\"failure_mode\":");
    push_string(out, a.failure_mode.as_str());
    append_str(out, "}");
    assert(out@ =~= start + json_attempt_head(a@));
}

/// Appends ledger statistics in JSON.
fn push_stats(out: &mut Vec<char>, s: &LedgerStats)
    ensures
        final(out)@ == old(out)@ + json_stats(s@),
{
    let ghost start = out@;
    append_str(out, "{\"total_slices\":");
    push_uint(out, s.total_slices as u64);
    append_str(out, ",\"open\":");
    push_uint(out, s.open as u64);
    append_str(out, ",\"done\":");
    push_uint(out, s.done as u64);
    append_str(out, ",\"blocked\":");
    push_uint(out, s.blocked as u64);
    append_str(out, ",\"median_max_files_on_done\":");
    match s.median_max_files_on_done_x2 {
        Some(h) => {
            push_uint(out, h / 2);
            if h % 2 == 0 {
                append_str(out, ".0");
            } else {
                append_str(out, ".5");
            }
        },
        None => append_str(out, "null"),
    }
    append_str(out, ",\"note\":");
    push_string(out, s.note.as_str());
    append_str(out, "}");
    assert(out@ =~= start + json_stats(s@));
}

/// Appends a volatile context in JSON.
fn push_volatile(out: &mut Vec<char>, v: &VolatileContext)
    ensures
        final(out)@ == old(out)@ + json_volatile(v@),
{
    let ghost start = out@;
    append_str(out, "{\"progress_excerpt\":");
    push_string(out, v.progress_excerpt.as_str());
    let ghost mid1 = out@;
    match &v.latest_attempt {
        Some(a) => {
            append_str(out, ",\"latest_attempt\":");
            push_attempt_head(out, a);
        },
        None => {},
    }
    let ghost mid2 = out@;
    match &v.stats {
        Some(s) => {
            append_str(out, ",\"stats\":");
            push_stats(out, s);
        },
        None => {},
    }
    append_str(out, "}");
    assert(out@ =~= start + json_volatile(v@));
}

/// A packet's JSON text.
fn packet_json(p: &AssemblePacket) -> (r: Vec<char>)
    ensures
        r@ == json_packet(p@),
{
    let mut out = chars_of("{\"ok\":");
    push_bool(&mut out, p.ok);
    append_str(&mut out, ",\"budget_chars\":");
    push_uint(&mut out, p.budget_chars as u64);
    append_str(&mut out, ",\"used_chars\":");
    push_uint(&mut out, p.used_chars as u64);
    append_str(&mut out, ",\"status\":");
    push_string(&mut out, p.status.as_str());
    append_str(&mut out, ",\"shape\":");
    push_string(&mut out, p.shape.as_str());
    append_str(&mut out, ",\"fingerprint\":");
    push_string(&mut out, p.fingerprint.as_str());
    append_str(&mut out, ",\"host_hint\":");
    push_string(&mut out, p.host_hint.as_str());
    append_str(&mut out, ",\"stable\":");
    push_stable(&mut out, &p.stable);
    append_str(&mut out, ",\"volatile\":");
    push_volatile(&mut out, &p.volatile);
    append_str(&mut out, ",\"omissions\":");
    push_strings(&mut out, &p.omissions);
    append_str(&mut out, ",\"message\":");
    push_string(&mut out, p.message.as_str());
    append_str(&mut out, "}");
    assert(out@ =~= json_packet(p@));
    out
}

/// The length of a packet's JSON text, in characters.
fn json_chars(p: &AssemblePacket) -> (n: usize)
    ensures
        n == packet_len(p@),
{
    proof {
        reveal(packet_len);
    }
    packet_json(p).len()
}

// ---------------------------------------------------------------------------
// Fingerprint
// ---------------------------------------------------------------------------

/// The hash that std's `DefaultHasher` gives a string.
pub uninterp spec fn spec_str_hash(s: Seq<char>) -> u64;

/// Hashes a string with std's `DefaultHasher` (`Hash for str`, `finish`).
///
/// Trusted: the result is a function of the string's characters alone, as
/// `DefaultHasher::new` starts from fixed keys; which function the build's
/// std computes is left unstated.
#[verifier::external_body]
fn str_hash(s: &str) -> (h: u64)
    ensures
        h == spec_str_hash(s@),
{
    let mut hasher = std::collections::hash_map::DefaultHasher::new();
    std::hash::Hash::hash(s, &mut hasher);
    std::hash::Hasher::finish(&hasher)
}

/// The fingerprint of a stable context: `fp-` and sixteen hex digits of the
/// hash of its JSON text.
pub open spec fn fingerprint_of(c: StableView) -> Seq<char> {
    "fp-"@ + hex_fixed(spec_str_hash(json_stable(c)) as nat, 16)
}

/// The fingerprint of a stable context (see `fingerprint_of`).
pub fn fingerprint_stable(stable: &StableContext) -> (r: String)
    ensures
        r@ == fingerprint_of(stable@),
{
    let mut body: Vec<char> = Vec::new();
    push_stable(&mut body, stable);
    assert(body@ =~= json_stable(stable@));
    let text = string_of(&body);
    let h = str_hash(text.as_str());
    let mut out = chars_of("fp-");
    append_chars(&mut out, &hex16(h));
    string_of(&out)
}

// ---------------------------------------------------------------------------
// Assembly
// ---------------------------------------------------------------------------

/// The stable context for a project, its current slice and a session shape:
/// a steward session carries the steward priorities.
pub open spec fn stable_spec(project: ProjectView, current: Option<SliceView>, shape: SessionShape) -> StableView {
    StableView {
        project_status: project.status,
        goals: project.goals,
        non_goals: project.non_goals,
        current_slice: match current {
            Some(s) => Some(stable_slice(s)),
            None => None,
        },
        steward_priority: match shape {
            SessionShape::Steward => Some(shape_description(shape)),
            SessionShape::Feature => None,
        },
    }
}

/// The view of an optional slice.
pub open spec fn opt_slice_view(s: Option<&Slice>) -> Option<SliceView> {
    match s {
        Some(x) => Some(x@),
        None => None,
    }
}

/// Builds the stable context (see `stable_spec`).
pub fn build_stable(project: &Project, current: Option<&Slice>, shape: SessionShape) -> (r:
    StableContext)
    ensures
        r@ == stable_spec(project@, opt_slice_view(current), shape),
{
    StableContext {
        project_status: project.status.clone(),
        goals: project.goals.clone(),
        non_goals: project.non_goals.clone(),
        current_slice: match current {
            Some(s) => Some(StableSlice::from_slice(s)),
            None => None,
        },
        steward_priority: match shape {
            SessionShape::Steward => Some(String::from_str(shape.description())),
            SessionShape::Feature => None,
        },
    }
}

/// The packet before anything volatile is added.
pub open spec fn base_packet(stable: StableView, shape: SessionShape, budget: nat) -> PacketView {
    PacketView {
        ok: true,
        budget_chars: budget,
        used_chars: 0,
        status: "ok"@,
        shape: shape_name(shape),
        fingerprint: fingerprint_of(stable),
        host_hint: HOST_HINT@,
        stable,
        volatile: VolatileView { progress_excerpt: Seq::empty(), latest_attempt: None, stats: None },
        omissions: Seq::empty(),
        message: "assembled cache-aware context"@,
    }
}

/// `p` with the progress excerpt `e`, or, if that would not fit the budget,
/// with no excerpt and the omission noted.
pub open spec fn fit_progress(p: PacketView, e: Seq<char>, budget: nat) -> PacketView {
    let q = PacketView { volatile: VolatileView { progress_excerpt: e, ..p.volatile }, ..p };
    if packet_len(q) > budget {
        PacketView {
            volatile: VolatileView { progress_excerpt: Seq::empty(), ..q.volatile },
            omissions: q.omissions.push("progress_excerpt"@),
            ..q
        }
    } else {
        q
    }
}

/// `p` with the head of attempt `a`, or, if that would not fit the budget,
/// without it and the omission noted.
pub open spec fn fit_attempt(p: PacketView, a: AttemptView, budget: nat) -> PacketView {
    let q = PacketView {
        volatile: VolatileView { latest_attempt: Some(attempt_head(a)), ..p.volatile },
        ..p
    };
    if packet_len(q) > budget {
        PacketView {
            volatile: VolatileView { latest_attempt: None, ..q.volatile },
            omissions: q.omissions.push("latest_attempt"@),
            ..q
        }
    } else {
        q
    }
}

/// `p` with the statistics `s`, or, if that would not fit the budget,
/// without them and the omission noted.
pub open spec fn fit_stats(p: PacketView, s: StatsView, budget: nat) -> PacketView {
    let q = PacketView { volatile: VolatileView { stats: Some(s), ..p.volatile }, ..p };
    if packet_len(q) > budget {
        PacketView {
            volatile: VolatileView { stats: None, ..q.volatile },
            omissions: q.omissions.push("stats"@),
            ..q
        }
    } else {
        q
    }
}

/// The packet assembled for a turn: the stable context and its fingerprint
/// always; if even they exceed the budget, a `BUDGET_EXCEEDED` packet that
/// says by how much; otherwise the progress excerpt (its first 400
/// characters), the latest attempt and the statistics, each kept only if
/// the packet then still fits, with the used size measured at the end.
pub open spec fn assembled(
    project: ProjectView,
    current: Option<SliceView>,
    shape: SessionShape,
    budget: nat,
    progress: Seq<char>,
    attempt: Option<AttemptView>,
    stats: Option<StatsView>,
) -> PacketView {
    let stable = stable_spec(project, current, shape);
    let p0 = base_packet(stable, shape, budget);
    let core = packet_len(p0);
    if core > budget {
        PacketView {
            ok: false,
            used_chars: core,
            status: "BUDGET_EXCEEDED"@,
            omissions: seq!["critical_packet_chars="@ + dec(core)],
            message: "BUDGET_EXCEEDED: critical context is "@ + dec(core) + " chars > budget "@ + dec(
                budget,
            ),
            ..p0
        }
    } else {
        let p1 = fit_progress(p0, truncate_spec(progress, 400), budget);
        let p2 = match attempt {
            Some(a) => fit_attempt(p1, a, budget),
            None => p1,
        };
        let p3 = match stats {
            Some(s) => fit_stats(p2, s, budget),
            None => p2,
        };
        PacketView { used_chars: packet_len(p3), ..p3 }
    }
}

/// The views of the volatile inputs' attempt and statistics.
pub open spec fn opt_attempt_view(a: Option<&Attempt>) -> Option<AttemptView> {
    match a {
        Some(x) => Some(x@),
        None => None,
    }
}

/// The view of optional statistics.
pub open spec fn opt_stats_view(s: Option<&LedgerStats>) -> Option<StatsView> {
    match s {
        Some(x) => Some(x@),
        None => None,
    }
}

/// Appends a string to a list of strings.
fn push_text(v: &mut Vec<String>, s: String)
    ensures
        strs(final(v)@) == strs(old(v)@).push(s@),
{
    v.push(s);
    assert(strs(v@) =~= strs(old(v)@).push(s@));
}

/// Assembles a cache-aware context packet within `budget_chars` (see
/// `assembled`): critical context is never dropped, and what is left out
/// for the budget is listed under `omissions`.
pub fn assemble_context(
    project: &Project,
    current: Option<&Slice>,
    shape: SessionShape,
    budget_chars: usize,
    volatile_in: VolatileInputs<'_>,
) -> (r: AssemblePacket)
    ensures
        r@ == assembled(
            project@,
            opt_slice_view(current),
            shape,
            budget_chars as nat,
            volatile_in.progress@,
            opt_attempt_view(volatile_in.latest_attempt),
            opt_stats_view(volatile_in.stats),
        ),
{
    let ghost budget = budget_chars as nat;
    let stable = build_stable(project, current, shape);
    let fingerprint = fingerprint_stable(&stable);
    let progress_excerpt = truncate(volatile_in.progress, 400);
    let mut pkt = AssemblePacket {
        ok: true,
        budget_chars,
        used_chars: 0,
        status: String::from_str("ok"),
        shape: String::from_str(shape.as_str()),
        fingerprint,
        host_hint: String::from_str(HOST_HINT),
        stable,
        volatile: VolatileContext {
            progress_excerpt: String::new(),
            latest_attempt: None,
            stats: None,
        },
        omissions: Vec::new(),
        message: String::from_str("assembled cache-aware context"),
    };
    let ghost stable_v = stable_spec(project@, opt_slice_view(current), shape);
    assert(strs(pkt.omissions@) =~= Seq::<Seq<char>>::empty());
    assert(pkt@ == base_packet(stable_v, shape, budget));
    let core_chars = json_chars(&pkt);
    if core_chars > budget_chars {
        pkt.ok = false;
        pkt.used_chars = core_chars;
        pkt.status = String::from_str("BUDGET_EXCEEDED");
        let mut note = chars_of("critical_packet_chars=");
        append_chars(&mut note, &decimal(core_chars as u64));
        push_text(&mut pkt.omissions, string_of(&note));
        let mut msg = chars_of("BUDGET_EXCEEDED: critical context is ");
        append_chars(&mut msg, &decimal(core_chars as u64));
        append_str(&mut msg, " chars > budget ");
        append_chars(&mut msg, &decimal(budget_chars as u64));
        pkt.message = string_of(&msg);
        return pkt;
    }
    let ghost p0 = pkt@;
    pkt.volatile.progress_excerpt = progress_excerpt;
    if json_chars(&pkt) > budget_chars {
        pkt.volatile.progress_excerpt = String::new();
        push_text(&mut pkt.omissions, String::from_str("progress_excerpt"));
    }
    let ghost p1 = pkt@;
    assert(p1 == fit_progress(p0, truncate_spec(volatile_in.progress@, 400), budget));
    match volatile_in.latest_attempt {
        Some(a) => {
            pkt.volatile.latest_attempt = Some(AttemptHead::from_attempt(a));
            if json_chars(&pkt) > budget_chars {
                pkt.volatile.latest_attempt = None;
                push_text(&mut pkt.omissions, String::from_str("latest_attempt"));
            }
            assert(pkt@ == fit_attempt(p1, a@, budget));
        },
        None => {},
    }
    let ghost p2 = pkt@;
    match volatile_in.stats {
        Some(st) => {
            pkt.volatile.stats = Some(st.clone());
            if json_chars(&pkt) > budget_chars {
                pkt.volatile.stats = None;
                push_text(&mut pkt.omissions, String::from_str("stats"));
            }
            assert(pkt@ == fit_stats(p2, st@, budget));
        },
        None => {},
    }
    pkt.used_chars = json_chars(&pkt);
    pkt
}

/// Recovers context after a break: the same packet as `assemble_context`,
/// with the progress text and no attempt or statistics.
pub fn recover_context(
    project: &Project,
    current: Option<&Slice>,
    progress: &str,
    shape: SessionShape,
    budget_chars: usize,
) -> (r: AssemblePacket)
    ensures
        r@ == assembled(
            project@,
            opt_slice_view(current),
            shape,
            budget_chars as nat,
            progress@,
            None,
            None,
        ),
{
    assemble_context(
        project,
        current,
        shape,
        budget_chars,
        VolatileInputs { progress, latest_attempt: None, stats: None },
    )
}


// ---------------------------------------------------------------------------
// Laws
// ---------------------------------------------------------------------------

/// The fingerprint of an assembled packet depends on the project, the
/// current slice and the session shape alone: not on the progress, the
/// latest attempt, the statistics or the budget. A host may keep the
/// stable context cached for as long as the fingerprint is unchanged.
pub proof fn lemma_fingerprint_ignores_volatile(
    project: ProjectView,
    current: Option<SliceView>,
    shape: SessionShape,
    budget1: nat,
    progress1: Seq<char>,
    attempt1: Option<AttemptView>,
    stats1: Option<StatsView>,
    budget2: nat,
    progress2: Seq<char>,
    attempt2: Option<AttemptView>,
    stats2: Option<StatsView>,
)
    ensures
        assembled(project, current, shape, budget1, progress1, attempt1, stats1).fingerprint
            == assembled(project, current, shape, budget2, progress2, attempt2, stats2).fingerprint,
        assembled(project, current, shape, budget1, progress1, attempt1, stats1).fingerprint
            == fingerprint_of(stable_spec(project, current, shape)),
{
}

/// Critical context is never dropped: every assembled packet carries the
/// full stable context; it is `ok` exactly when the critical part fits the
/// budget, and otherwise says `BUDGET_EXCEEDED` and the critical size.
pub proof fn lemma_critical_context_kept(
    project: ProjectView,
    current: Option<SliceView>,
    shape: SessionShape,
    budget: nat,
    progress: Seq<char>,
    attempt: Option<AttemptView>,
    stats: Option<StatsView>,
)
    ensures
        ({
            let p = assembled(project, current, shape, budget, progress, attempt, stats);
            let stable = stable_spec(project, current, shape);
            let core = packet_len(base_packet(stable, shape, budget));
            &&& p.stable == stable
            &&& p.ok <==> core <= budget
            &&& !p.ok ==> p.status == "BUDGET_EXCEEDED"@ && p.used_chars == core
                && p.omissions == seq!["critical_packet_chars="@ + dec(core)]
            &&& p.ok ==> p.status == "ok"@ && p.used_chars == packet_len(
                PacketView { used_chars: 0, ..p },
            )
        }),
{
}

/// Nothing volatile is dropped silently: when the packet is `ok`, a given
/// attempt or statistics either stand in it or are named in `omissions`,
/// and so does a non-empty progress excerpt.
pub proof fn lemma_omissions_are_listed(
    project: ProjectView,
    current: Option<SliceView>,
    shape: SessionShape,
    budget: nat,
    progress: Seq<char>,
    attempt: Option<AttemptView>,
    stats: Option<StatsView>,
)
    ensures
        ({
            let p = assembled(project, current, shape, budget, progress, attempt, stats);
            &&& p.ok ==> (p.volatile.progress_excerpt == truncate_spec(progress, 400)
                || p.omissions.contains("progress_excerpt"@))
            &&& p.ok ==> (attempt matches Some(a) ==> (p.volatile.latest_attempt == Some(
                attempt_head(a),
            ) || p.omissions.contains("latest_attempt"@)))
            &&& p.ok ==> (stats matches Some(s) ==> (p.volatile.stats == Some(s)
                || p.omissions.contains("stats"@)))
        }),
{
    let stable = stable_spec(project, current, shape);
    let p0 = base_packet(stable, shape, budget);
    if packet_len(p0) <= budget {
        let p1 = fit_progress(p0, truncate_spec(progress, 400), budget);
        let p2 = match attempt {
            Some(a) => fit_attempt(p1, a, budget),
            None => p1,
        };
        let p3 = match stats {
            Some(s) => fit_stats(p2, s, budget),
            None => p2,
        };
        // each step only appends to the omissions and keeps what was fitted
        if packet_len(PacketView { volatile: VolatileView { progress_excerpt: truncate_spec(progress, 400), ..p0.volatile }, ..p0 }) > budget {
            assert(p1.omissions[p1.omissions.len() - 1] == "progress_excerpt"@);
            assert(p1.omissions.contains("progress_excerpt"@));
        }
        assert(p2.volatile.progress_excerpt == p1.volatile.progress_excerpt);
        assert(p3.volatile.progress_excerpt == p1.volatile.progress_excerpt);
        if p1.omissions.contains("progress_excerpt"@) {
            let i = choose|i: int| 0 <= i < p1.omissions.len() && p1.omissions[i] == "progress_excerpt"@;
            assert(p2.omissions[i] == p1.omissions[i]);
            assert(p3.omissions[i] == p2.omissions[i]);
            assert(p3.omissions.contains("progress_excerpt"@));
        }
        match attempt {
            Some(a) => {
                if p2.volatile.latest_attempt != Some(attempt_head(a)) {
                    assert(p2.omissions[p2.omissions.len() - 1] == "latest_attempt"@);
                    let i = p2.omissions.len() - 1;
                    assert(p3.omissions[i] == p2.omissions[i]);
                    assert(p3.omissions.contains("latest_attempt"@));
                }
                assert(p3.volatile.latest_attempt == p2.volatile.latest_attempt);
            },
            None => {},
        }
        match stats {
            Some(s) => {
                if p3.volatile.stats != Some(s) {
                    assert(p3.omissions[p3.omissions.len() - 1] == "stats"@);
                }
            },
            None => {},
        }
    }
}

/// The attempt a packet carries, if any, is the head of the attempt it was
/// given.
pub proof fn lemma_packet_attempt_given(
    project: ProjectView,
    current: Option<SliceView>,
    shape: SessionShape,
    budget: nat,
    progress: Seq<char>,
    attempt: Option<AttemptView>,
    stats: Option<StatsView>,
)
    ensures
        assembled(project, current, shape, budget, progress, attempt, stats).volatile.latest_attempt
            matches Some(h) ==> attempt matches Some(a) && h == attempt_head(a),
{
}

} // verus!
