//! Single-prompt epic scoping: draft + clarifications + optional commit.

use vstd::prelude::*;
use crate::schema::{
    clone_strings, strs, Project, ProjectView, Slice, SliceStatus, SliceView, ValidationError,
    validation_message, DEFAULT_MAX_FILES, DEFAULT_MAX_LOC,
};
use crate::util::{
    append_chars, append_str, blank, byte_index, byte_index_exec, bytes_span, chars_of, dec,
    dec_pad3, is_ascii_text, lemma_bytes_span_ascii, lemma_lines_ascii, lemma_utf8_len_ascii,
    lemma_bytes_span_shift, lemma_byte_index_prefix, lemma_lines_bytes,
    lemma_lines_step, lemma_spans_nonneg, lemma_trim_idempotent, lemma_utf8_len_concat,
    occurs_at,
    decimal, decimal_pad3, find, find_chars, has_prefix, is_blank, lemma_byte_index,
    lemma_find_from_bounds, lemma_lines_span_bound, lines, lines_of, lines_span, lower,
    lower_chars, slice_chars, starts_with, string_of, trim, trim_chars, truncate_spec, utf8_len,
    utf8_len_exceeds, utf8_prefix_len,
};

verus! {

/// What a host should do with a scoping result.
pub const SCOPE_HOST_HINT: &'static str = "On a single epic prompt: call scope_epic with the brief (and any goals/non_goals/slices you drafted). If clarifications is non-empty, ask the user those questions—do not commit. When ok, call again with commit=true. Then each slice turn: prefix_fingerprint / assemble_context; pin stable until fingerprint changes.";

// ---------------------------------------------------------------------------
// Types
// ---------------------------------------------------------------------------

/// A slice as drafted while scoping; missing title and goal are filled in.
#[derive(Debug)]
pub struct ScopeSliceDraft {
    pub id: String,
    pub title: String,
    pub goal: String,
    pub target_paths: Vec<String>,
    pub acceptance: String,
    pub out_of_scope: String,
    pub tests: Vec<String>,
    pub max_files: u32,
    pub max_loc: u32,
}

/// What a draft holds.
pub ghost struct DraftView {
    pub id: Seq<char>,
    pub title: Seq<char>,
    pub goal: Seq<char>,
    pub target_paths: Seq<Seq<char>>,
    pub acceptance: Seq<char>,
    pub out_of_scope: Seq<char>,
    pub tests: Seq<Seq<char>>,
    pub max_files: u32,
    pub max_loc: u32,
}

impl View for ScopeSliceDraft {
    type V = DraftView;

    open spec fn view(&self) -> DraftView {
        DraftView {
            id: self.id@,
            title: self.title@,
            goal: self.goal@,
            target_paths: strs(self.target_paths@),
            acceptance: self.acceptance@,
            out_of_scope: self.out_of_scope@,
            tests: strs(self.tests@),
            max_files: self.max_files,
            max_loc: self.max_loc,
        }
    }
}

/// The views of a sequence of drafts.
pub open spec fn draft_views(s: Seq<ScopeSliceDraft>) -> Seq<DraftView> {
    s.map_values(|d: ScopeSliceDraft| d@)
}

/// A question for the user about one field of the scope.
#[derive(Debug, PartialEq, Eq)]
pub struct Clarification {
    pub field: String,
    pub question: String,
}

/// What a clarification holds.
pub ghost struct ClarificationView {
    pub field: Seq<char>,
    pub question: Seq<char>,
}

impl View for Clarification {
    type V = ClarificationView;

    open spec fn view(&self) -> ClarificationView {
        ClarificationView { field: self.field@, question: self.question@ }
    }
}

/// The views of a sequence of clarifications.
pub open spec fn clar_views(s: Seq<Clarification>) -> Seq<ClarificationView> {
    s.map_values(|c: Clarification| c@)
}

/// The outcome of scoping an epic.
#[derive(Debug)]
pub struct ScopeResult {
    pub ok: bool,
    pub status: String,
    pub brief: String,
    pub goals: String,
    pub non_goals: String,
    pub slices: Vec<Slice>,
    pub clarifications: Vec<Clarification>,
    pub committed: bool,
    pub host_hint: String,
    pub message: String,
}

/// What a scoping outcome holds.
pub ghost struct ScopeResultView {
    pub ok: bool,
    pub status: Seq<char>,
    pub brief: Seq<char>,
    pub goals: Seq<char>,
    pub non_goals: Seq<char>,
    pub slices: Seq<SliceView>,
    pub clarifications: Seq<ClarificationView>,
    pub committed: bool,
    pub host_hint: Seq<char>,
    pub message: Seq<char>,
}

impl View for ScopeResult {
    type V = ScopeResultView;

    open spec fn view(&self) -> ScopeResultView {
        ScopeResultView {
            ok: self.ok,
            status: self.status@,
            brief: self.brief@,
            goals: self.goals@,
            non_goals: self.non_goals@,
            slices: self.slices@.map_values(|s: Slice| s@),
            clarifications: clar_views(self.clarifications@),
            committed: self.committed,
            host_hint: self.host_hint@,
            message: self.message@,
        }
    }
}

/// A request to scope an epic.
#[derive(Debug)]
pub struct ScopeInput {
    pub brief: String,
    pub goals: String,
    pub non_goals: String,
    pub slices: Vec<ScopeSliceDraft>,
    pub commit: bool,
}

/// What a scoping request holds.
pub ghost struct ScopeInputView {
    pub brief: Seq<char>,
    pub goals: Seq<char>,
    pub non_goals: Seq<char>,
    pub slices: Seq<DraftView>,
    pub commit: bool,
}

impl View for ScopeInput {
    type V = ScopeInputView;

    open spec fn view(&self) -> ScopeInputView {
        ScopeInputView {
            brief: self.brief@,
            goals: self.goals@,
            non_goals: self.non_goals@,
            slices: draft_views(self.slices@),
            commit: self.commit,
        }
    }
}

// ---------------------------------------------------------------------------
// Drafts to slices
// ---------------------------------------------------------------------------

/// The slice a draft becomes: a blank title is the id, a blank goal the
/// title; the slice starts open with no blockers.
pub open spec fn draft_slice(d: DraftView) -> SliceView {
    let title = if is_blank(d.title) {
        d.id
    } else {
        d.title
    };
    let goal = if is_blank(d.goal) {
        title
    } else {
        d.goal
    };
    SliceView {
        id: d.id,
        title,
        goal,
        target_paths: d.target_paths,
        acceptance: d.acceptance,
        out_of_scope: d.out_of_scope,
        tests: d.tests,
        max_files: d.max_files,
        max_loc: d.max_loc,
        status: SliceStatus::Open,
        blockers: Seq::empty(),
    }
}

impl Slice {
    /// The slice a draft becomes (see `draft_slice`).
    pub fn from_draft(d: &ScopeSliceDraft) -> (s: Slice)
        ensures
            s@ == draft_slice(d@),
    {
        let title = if crate::util::str_blank(d.title.as_str()) {
            d.id.clone()
        } else {
            d.title.clone()
        };
        let goal = if crate::util::str_blank(d.goal.as_str()) {
            title.clone()
        } else {
            d.goal.clone()
        };
        Slice {
            id: d.id.clone(),
            title,
            goal,
            target_paths: clone_strings(&d.target_paths),
            acceptance: d.acceptance.clone(),
            out_of_scope: d.out_of_scope.clone(),
            tests: clone_strings(&d.tests),
            max_files: d.max_files,
            max_loc: d.max_loc,
            status: SliceStatus::Open,
            blockers: String::new(),
        }
    }
}

/// The default for a draft's `max_files`.
pub fn default_files() -> (r: u32)
    ensures
        r == DEFAULT_MAX_FILES,
{
    DEFAULT_MAX_FILES
}

/// The default for a draft's `max_loc`.
pub fn default_loc() -> (r: u32)
    ensures
        r == DEFAULT_MAX_LOC,
{
    DEFAULT_MAX_LOC
}

// ---------------------------------------------------------------------------
// Sections of a brief
// ---------------------------------------------------------------------------

/// A line (trimmed, lower-cased) at which a section stops.
pub open spec fn stops_section(l: Seq<char>) -> bool {
    ||| l.len() == 0
    ||| starts_with(l, "goals:"@)
    ||| starts_with(l, "non-"@)
    ||| starts_with(l, "out of scope"@)
    ||| starts_with(l, "slices:"@)
}

/// Where a section ends, in bytes: from line `j` of `ls` on, each line that
/// does not stop the section moves the end `e` past its UTF-8 bytes and one
/// byte for its newline. A line that ended in `"\r\n"` is counted without
/// its `'\r'`, so each such line leaves the end one byte short.
pub open spec fn section_end(ls: Seq<Seq<char>>, j: int, e: int) -> int
    decreases ls.len() - j,
{
    if j >= ls.len() {
        e
    } else if stops_section(lower(trim(ls[j]))) {
        e
    } else {
        section_end(ls, j + 1, e + utf8_len(ls[j]) + 1)
    }
}

/// The section of `orig` that starts at `start`: the rest of its line and
/// the following lines up to one that stops it, cut at the byte where
/// `section_end` puts the end, and trimmed; none where that byte falls
/// inside a character.
pub open spec fn section_text(orig: Seq<char>, start: int) -> Option<Seq<char>> {
    let rest = orig.subrange(start, orig.len() as int);
    match find(rest, seq!['\n']) {
        None => Some(trim(rest)),
        Some(i) => match byte_index(
            rest,
            section_end(lines(rest.subrange(i, rest.len() as int)), 1, utf8_len(rest.subrange(0, i)) as int),
        ) {
            Some(p) => Some(trim(rest.subrange(0, p))),
            None => None,
        },
    }
}

/// The first non-empty section after one of the markers `ms[i..]`, tried
/// in order, each found (in lower case) at its first occurrence:
/// `Some(Some(text))`, `Some(None)` where there is none, and `None` where a
/// section tried is cut inside a character.
pub open spec fn section_from(orig: Seq<char>, ms: Seq<Seq<char>>, i: int) -> Option<Option<Seq<char>>>
    decreases ms.len() - i,
{
    if i < 0 || i >= ms.len() {
        Some(None)
    } else {
        match find(lower(orig), ms[i]) {
            Some(pos) => match section_text(orig, pos + ms[i].len()) {
                Some(t) => if t.len() > 0 {
                    Some(Some(t))
                } else {
                    section_from(orig, ms, i + 1)
                },
                None => None,
            },
            None => section_from(orig, ms, i + 1),
        }
    }
}

/// The markers of a goals section.
pub open spec fn goal_markers() -> Seq<Seq<char>> {
    seq!["goals:"@, "goal:"@]
}

/// The markers of a non-goals section.
pub open spec fn non_goal_markers() -> Seq<Seq<char>> {
    seq!["non-goals:"@, "non_goals:"@, "nongoals:"@, "out of scope:"@, "non goals:"@]
}

/// Whether a trimmed, lower-cased line stops a section.
fn stops_section_exec(l: &Vec<char>) -> (r: bool)
    ensures
        r == stops_section(l@),
{
    l.len() == 0 || has_prefix(l, &chars_of("goals:")) || has_prefix(l, &chars_of("non-"))
        || has_prefix(l, &chars_of("out of scope")) || has_prefix(l, &chars_of("slices:"))
}

/// The section of `orig` that starts at `start` (see `section_text`).
fn section_text_exec(orig: &Vec<char>, start: usize) -> (r: Option<Vec<char>>)
    requires
        start <= orig.len(),
    ensures
        match section_text(orig@, start as int) {
            Some(t) => r matches Some(v) && v@ == t,
            None => r is None,
        },
{
    let rest = slice_chars(orig, start, orig.len());
    let mut nl: Vec<char> = Vec::new();
    nl.push('\n');
    assert(nl@ == seq!['\n']);
    match find_chars(&rest, &nl) {
        None => Some(trim_chars(&rest)),
        Some(i) => {
            proof {
                lemma_find_from_bounds(rest@, seq!['\n'], 0);
            }
            let after = slice_chars(&rest, i, rest.len());
            let ghost ls = lines(after@);
            proof {
                assert(after@.subrange(0, 1) == seq!['\n']);
                assert(crate::util::occurs_at(after@, seq!['\n'], 0));
                crate::util::lemma_lines_step(after@);
                assert(after@.subrange(0, 0) =~= Seq::<char>::empty());
                assert(ls[0] == crate::util::strip_cr(Seq::<char>::empty()));
                assert(lines_span(ls, 0) == 0);
                assert(lines_span(ls, 1) == 1);
            }
            let lv = lines_of(&after);
            let e0 = utf8_prefix_len(&rest, i);
            let mut j: usize = 1;
            let mut e: u128 = e0;
            let mut stop = false;
            while j < lv.len() && !stop
                invariant
                    1 <= j <= lv.len(),
                    lv@.len() == ls.len(),
                    forall|k: int| 0 <= k < lv@.len() ==> #[trigger] lv@[k]@ == ls[k],
                    ls == lines(after@),
                    after@ == rest@.subrange(i as int, rest@.len() as int),
                    i < rest.len(),
                    lines_span(ls, j as int) <= after@.len() + 1,
                    e <= 4 * (i + lines_span(ls, j as int)),
                    stop ==> section_end(ls, j as int, e as int) == e,
                    section_end(ls, 1, e0 as int) == section_end(ls, j as int, e as int),
                decreases (lv.len() - j) * 2 + (if stop { 0int } else { 1int }),
            {
                let t = trim_chars(&lv[j]);
                let l = lower_chars(&t);
                if stops_section_exec(&l) {
                    stop = true;
                } else {
                    proof {
                        lemma_lines_span_bound(after@, j + 1);
                        assert(lines_span(ls, j + 1) == lines_span(ls, j as int) + ls[j as int].len()
                            + 1);
                    }
                    let w = utf8_prefix_len(&lv[j], lv[j].len());
                    assert(lv@[j as int]@.subrange(0, lv@[j as int]@.len() as int) == ls[j as int]);
                    e = e + w + 1;
                    j = j + 1;
                }
            }
            let head_end = byte_index_exec(&rest, e);
            proof {
                lemma_byte_index(rest@, e as int);
            }
            match head_end {
                Some(p) => {
                    let head = slice_chars(&rest, 0, p);
                    Some(trim_chars(&head))
                },
                None => None,
            }
        },
    }
}

/// The first non-empty section after one of `markers` (see `section_from`);
/// `lower` is `orig` in lower case.
fn section_after(lower_text: &Vec<char>, orig: &Vec<char>, markers: &Vec<Vec<char>>) -> (r: Option<
    Option<Vec<char>>,
>)
    requires
        lower_text@ == lower(orig@),
    ensures
        match section_from(orig@, markers@.map_values(|m: Vec<char>| m@), 0) {
            Some(Some(t)) => r matches Some(Some(v)) && v@ == t,
            Some(None) => r matches Some(None),
            None => r is None,
        },
{
    let ghost ms = markers@.map_values(|m: Vec<char>| m@);
    let mut i: usize = 0;
    while i < markers.len()
        invariant
            i <= markers.len(),
            ms == markers@.map_values(|m: Vec<char>| m@),
            lower_text@ == lower(orig@),
            section_from(orig@, ms, 0) == section_from(orig@, ms, i as int),
        decreases markers.len() - i,
    {
        assert(ms[i as int] == markers@[i as int]@);
        match find_chars(lower_text, &markers[i]) {
            Some(pos) => {
                proof {
                    lemma_find_from_bounds(lower_text@, markers@[i as int]@, 0);
                    assert(lower_text@.len() == orig@.len());
                    assert(crate::util::occurs_at(lower_text@, markers@[i as int]@, pos as int));
                    assert(pos + markers[i as int]@.len() <= orig@.len());
                }
                let m: &Vec<char> = &markers[i];
                assert(m@ == markers@[i as int]@);
                let mlen = m.len();
                let olen = orig.len();
                assert(pos + mlen <= olen);
                match section_text_exec(orig, pos + mlen) {
                    Some(t) => {
                        if t.len() > 0 {
                            return Some(Some(t));
                        }
                    },
                    None => {
                        return None;
                    },
                }
            },
            None => {},
        }
        i = i + 1;
    }
    Some(None)
}

// ---------------------------------------------------------------------------
// List items of a brief
// ---------------------------------------------------------------------------

/// The number of ASCII digits that `t` starts with.
pub open spec fn lead_digits(t: Seq<char>) -> nat
    decreases t.len(),
{
    if t.len() > 0 && '0' <= t[0] <= '9' {
        1 + lead_digits(t.drop_first())
    } else {
        0
    }
}

/// The title of a (trimmed) list line: after a leading `-` or `*`, or after
/// leading digits and a `.`, trimmed; `None` for any other line.
pub open spec fn item_title(t: Seq<char>) -> Option<Seq<char>> {
    if t.len() > 0 && (t[0] == '-' || t[0] == '*') {
        Some(trim(t.drop_first()))
    } else {
        let d = lead_digits(t);
        if d > 0 && d < t.len() && t[d as int] == '.' {
            Some(trim(t.subrange(d as int + 1, t.len() as int)))
        } else {
            None
        }
    }
}

/// The provisional id of the slice drafted from line `idx`.
pub open spec fn line_id(idx: int) -> Seq<char> {
    "scp"@ + dec_pad3((idx + 1) as nat)
}

/// The slice drafted from line `idx` of a brief, if the line is a list item
/// with a title of 1 to 200 bytes.
pub open spec fn line_draft(idx: int, line: Seq<char>) -> Option<DraftView> {
    match item_title(trim(line)) {
        Some(title) => if title.len() == 0 || utf8_len(title) > 200 {
            None
        } else {
            Some(
                DraftView {
                    id: line_id(idx),
                    title,
                    goal: title,
                    target_paths: Seq::empty(),
                    acceptance: Seq::empty(),
                    out_of_scope: Seq::empty(),
                    tests: Seq::empty(),
                    max_files: DEFAULT_MAX_FILES,
                    max_loc: DEFAULT_MAX_LOC,
                },
            )
        },
        None => None,
    }
}

/// The slices drafted from the first `n` lines `ls`, in order.
pub open spec fn drafts_from_lines(ls: Seq<Seq<char>>, n: int) -> Seq<DraftView>
    decreases n,
{
    if n <= 0 {
        Seq::empty()
    } else {
        let prev = drafts_from_lines(ls, n - 1);
        match line_draft(n - 1, ls[n - 1]) {
            Some(d) => prev.push(d),
            None => prev,
        }
    }
}

/// The number of ASCII digits that `t` starts with.
fn lead_digits_exec(t: &Vec<char>) -> (r: usize)
    ensures
        r == lead_digits(t@),
        r <= t.len(),
{
    let mut i: usize = 0;
    assert(t@.subrange(0, t@.len() as int) == t@);
    while i < t.len() && '0' <= t[i] && t[i] <= '9'
        invariant
            i <= t.len(),
            lead_digits(t@) == i + lead_digits(t@.subrange(i as int, t@.len() as int)),
        decreases t.len() - i,
    {
        assert(t@.subrange(i as int, t@.len() as int).drop_first() == t@.subrange(
            i + 1,
            t@.len() as int,
        ));
        i = i + 1;
    }
    i
}

/// The title of a trimmed list line (see `item_title`).
fn item_title_exec(t: &Vec<char>) -> (r: Option<Vec<char>>)
    ensures
        match item_title(t@) {
            Some(x) => r matches Some(v) && v@ == x,
            None => r is None,
        },
{
    if t.len() > 0 && (t[0] == '-' || t[0] == '*') {
        let rest = slice_chars(t, 1, t.len());
        assert(rest@ == t@.drop_first());
        Some(trim_chars(&rest))
    } else {
        let d = lead_digits_exec(t);
        if d > 0 && d < t.len() && t[d] == '.' {
            let rest = slice_chars(t, d + 1, t.len());
            Some(trim_chars(&rest))
        } else {
            None
        }
    }
}

/// A draft with only an id, a title and a goal, and default budgets.
fn bare_draft(id: Vec<char>, title: &Vec<char>) -> (d: ScopeSliceDraft)
    ensures
        d@ == (DraftView {
            id: id@,
            title: title@,
            goal: title@,
            target_paths: Seq::empty(),
            acceptance: Seq::empty(),
            out_of_scope: Seq::empty(),
            tests: Seq::empty(),
            max_files: DEFAULT_MAX_FILES,
            max_loc: DEFAULT_MAX_LOC,
        }),
{
    let tp: Vec<String> = Vec::new();
    let ts: Vec<String> = Vec::new();
    assert(strs(tp@) =~= Seq::<Seq<char>>::empty());
    assert(strs(ts@) =~= Seq::<Seq<char>>::empty());
    ScopeSliceDraft {
        id: string_of(&id),
        title: string_of(title),
        goal: string_of(title),
        target_paths: tp,
        acceptance: String::new(),
        out_of_scope: String::new(),
        tests: ts,
        max_files: DEFAULT_MAX_FILES,
        max_loc: DEFAULT_MAX_LOC,
    }
}

/// The slice drafted from line `idx` (see `line_draft`).
fn line_draft_exec(idx: usize, line: &Vec<char>) -> (r: Option<ScopeSliceDraft>)
    requires
        idx < usize::MAX,
    ensures
        match line_draft(idx as int, line@) {
            Some(d) => r matches Some(x) && x@ == d,
            None => r is None,
        },
{
    let t = trim_chars(line);
    match item_title_exec(&t) {
        Some(title) => {
            if title.len() == 0 || utf8_len_exceeds(&title, 200) {
                None
            } else {
                let mut id = chars_of("scp");
                let n = decimal_pad3((idx + 1) as u64);
                append_chars(&mut id, &n);
                Some(bare_draft(id, &title))
            }
        },
        None => None,
    }
}

// ---------------------------------------------------------------------------
// Paragraphs of a brief
// ---------------------------------------------------------------------------

/// The first paragraph (pieces between `"\n\n"`) that is not blank, trimmed.
pub open spec fn first_para(s: Seq<char>) -> Option<Seq<char>>
    decreases s.len(),
{
    proof {
        lemma_find_from_bounds(s, seq!['\n', '\n'], 0);
    }
    match find(s, seq!['\n', '\n']) {
        None => if trim(s).len() > 0 {
            Some(trim(s))
        } else {
            None
        },
        Some(k) => if trim(s.subrange(0, k)).len() > 0 {
            Some(trim(s.subrange(0, k)))
        } else {
            first_para(s.subrange(k + 2, s.len() as int))
        },
    }
}

/// The first non-blank paragraph of `s`, trimmed (see `first_para`).
fn first_para_exec(s: &Vec<char>) -> (r: Option<Vec<char>>)
    ensures
        match first_para(s@) {
            Some(p) => r matches Some(v) && v@ == p,
            None => r is None,
        },
{
    let mut sep: Vec<char> = Vec::new();
    sep.push('\n');
    sep.push('\n');
    assert(sep@ == seq!['\n', '\n']);
    let mut rest = slice_chars(s, 0, s.len());
    assert(rest@ == s@);
    loop
        invariant
            sep@ == seq!['\n', '\n'],
            first_para(s@) == first_para(rest@),
        decreases rest.len(),
    {
        proof {
            lemma_find_from_bounds(rest@, seq!['\n', '\n'], 0);
        }
        match find_chars(&rest, &sep) {
            None => {
                let t = trim_chars(&rest);
                if t.len() > 0 {
                    return Some(t);
                } else {
                    return None;
                }
            },
            Some(k) => {
                let piece = slice_chars(&rest, 0, k);
                let t = trim_chars(&piece);
                if t.len() > 0 {
                    return Some(t);
                }
                rest = slice_chars(&rest, k + 2, rest.len());
            },
        }
    }
}

// ---------------------------------------------------------------------------
// Parsing a brief
// ---------------------------------------------------------------------------

/// What a brief yields when nothing else was drafted.
pub ghost struct ParsedView {
    pub goals: Seq<char>,
    pub non_goals: Seq<char>,
    pub slices: Seq<DraftView>,
    pub clarifications: Seq<ClarificationView>,
}

/// The question asked about goals drafted from a brief.
pub open spec fn confirm_goals_question(goals: Seq<char>) -> Seq<char> {
    "Confirm or rewrite goals (drafted from brief): "@ + goals
}

/// What a brief yields: goals and non-goals from their marked sections
/// (goals otherwise from the first paragraph, at most 280 characters), a
/// provisional slice per list line, and the clarifications that these call
/// for.
pub open spec fn parsed_brief(brief: Seq<char>) -> ParsedView {
    let g0 = match section_from(brief, goal_markers(), 0) {
        Some(Some(g)) => g,
        _ => Seq::empty(),
    };
    let ng = match section_from(brief, non_goal_markers(), 0) {
        Some(Some(n)) => n,
        _ => Seq::empty(),
    };
    let ls = lines(brief);
    let slices = drafts_from_lines(ls, ls.len() as int);
    let goals = if g0.len() == 0 {
        truncate_spec(
            match first_para(brief) {
                Some(p) => p,
                None => trim(brief),
            },
            280,
        )
    } else {
        g0
    };
    let c1: Seq<ClarificationView> = if g0.len() == 0 && goals.len() > 0 {
        seq![ClarificationView { field: "goals"@, question: confirm_goals_question(goals) }]
    } else {
        Seq::empty()
    };
    let c2 = if ng.len() == 0 {
        c1.push(
            ClarificationView {
                field: "non_goals"@,
                question: "What should we explicitly not do (non-goals / out of scope for the epic)?"@,
            },
        )
    } else {
        c1
    };
    let c3 = if slices.len() > 0 {
        c2.push(
            ClarificationView {
                field: "slices"@,
                question: "Provisional slices were inferred from list lines. Confirm ids and fill acceptance, target_paths, and out_of_scope for each before commit."@,
            },
        )
    } else {
        c2
    };
    ParsedView { goals, non_goals: ng, slices, clarifications: c3 }
}

/// What a brief yields, as values.
struct ParsedBrief {
    goals: Vec<char>,
    non_goals: Vec<char>,
    slices: Vec<ScopeSliceDraft>,
    clarifications: Vec<Clarification>,
}

impl View for ParsedBrief {
    type V = ParsedView;

    closed spec fn view(&self) -> ParsedView {
        ParsedView {
            goals: self.goals@,
            non_goals: self.non_goals@,
            slices: draft_views(self.slices@),
            clarifications: clar_views(self.clarifications@),
        }
    }
}

/// A clarification with the given field and question.
fn clarification(field: &str, question: &Vec<char>) -> (c: Clarification)
    ensures
        c@ == (ClarificationView { field: field@, question: question@ }),
{
    Clarification { field: String::from_str(field), question: string_of(question) }
}

/// Appends a clarification to a list.
fn push_clar(cs: &mut Vec<Clarification>, c: Clarification)
    ensures
        clar_views(final(cs)@) == clar_views(old(cs)@).push(c@),
{
    cs.push(c);
    assert(clar_views(cs@) =~= clar_views(old(cs)@).push(c@));
}

/// Markers built from literals.
fn markers_of(a: &str, b: &str) -> (r: Vec<Vec<char>>)
    ensures
        r@.map_values(|m: Vec<char>| m@) == seq![a@, b@],
{
    let mut r: Vec<Vec<char>> = Vec::new();
    r.push(chars_of(a));
    r.push(chars_of(b));
    assert(r@.map_values(|m: Vec<char>| m@) =~= seq![a@, b@]);
    r
}

/// The markers of a non-goals section, as values.
fn non_goal_markers_exec() -> (r: Vec<Vec<char>>)
    ensures
        r@.map_values(|m: Vec<char>| m@) == non_goal_markers(),
{
    let mut r: Vec<Vec<char>> = Vec::new();
    r.push(chars_of("non-goals:"));
    r.push(chars_of("non_goals:"));
    r.push(chars_of("nongoals:"));
    r.push(chars_of("out of scope:"));
    r.push(chars_of("non goals:"));
    assert(r@.map_values(|m: Vec<char>| m@) =~= non_goal_markers());
    r
}

/// Whether the goals and non-goals sections of a brief are both cut at a
/// character boundary.
pub open spec fn brief_cuts_cleanly(brief: Seq<char>) -> bool {
    &&& section_from(brief, goal_markers(), 0) is Some
    &&& section_from(brief, non_goal_markers(), 0) is Some
}

/// The goals and non-goals sections of a brief (see `section_from`).
fn brief_sections(brief: &Vec<char>) -> (r: (Option<Option<Vec<char>>>, Option<Option<Vec<char>>>))
    ensures
        match section_from(brief@, goal_markers(), 0) {
            Some(Some(t)) => r.0 matches Some(Some(v)) && v@ == t,
            Some(None) => r.0 matches Some(None),
            None => r.0 is None,
        },
        match section_from(brief@, non_goal_markers(), 0) {
            Some(Some(t)) => r.1 matches Some(Some(v)) && v@ == t,
            Some(None) => r.1 matches Some(None),
            None => r.1 is None,
        },
{
    let lower_text = lower_chars(brief);
    let gm = markers_of("goals:", "goal:");
    let ngm = non_goal_markers_exec();
    (section_after(&lower_text, brief, &gm), section_after(&lower_text, brief, &ngm))
}

/// What a brief yields (see `parsed_brief`).
fn parse_brief(brief: &Vec<char>) -> (p: ParsedBrief)
    requires
        brief_cuts_cleanly(brief@),
    ensures
        p@ == parsed_brief(brief@),
{
    let (gs, ngs) = brief_sections(brief);
    let g0: Vec<char> = match gs {
        Some(Some(g)) => g,
        _ => Vec::new(),
    };
    let non_goals: Vec<char> = match ngs {
        Some(Some(n)) => n,
        _ => Vec::new(),
    };
    let lv = lines_of(brief);
    let ghost ls = lines(brief@);
    let mut slices: Vec<ScopeSliceDraft> = Vec::new();
    let mut idx: usize = 0;
    while idx < lv.len()
        invariant
            idx <= lv.len(),
            lv@.len() == ls.len(),
            ls == lines(brief@),
            forall|k: int| 0 <= k < lv@.len() ==> #[trigger] lv@[k]@ == ls[k],
            draft_views(slices@) == drafts_from_lines(ls, idx as int),
        decreases lv.len() - idx,
    {
        let d = line_draft_exec(idx, &lv[idx]);
        match d {
            Some(x) => {
                let ghost before = slices@;
                slices.push(x);
                assert(draft_views(slices@) =~= draft_views(before).push(x@));
            },
            None => {},
        }
        idx = idx + 1;
    }
    let mut clarifications: Vec<Clarification> = Vec::new();
    let goals: Vec<char> = if g0.len() == 0 {
        let para = match first_para_exec(brief) {
            Some(p) => p,
            None => trim_chars(brief),
        };
        let g = if para.len() <= 280 {
            para
        } else {
            slice_chars(&para, 0, 280)
        };
        if g.len() > 0 {
            let mut q = chars_of("Confirm or rewrite goals (drafted from brief): ");
            append_chars(&mut q, &g);
            push_clar(&mut clarifications, clarification("goals", &q));
        }
        g
    } else {
        g0
    };
    assert(clar_views(clarifications@) =~= (if g0@.len() == 0 && goals@.len() > 0 {
        seq![ClarificationView { field: "goals"@, question: confirm_goals_question(goals@) }]
    } else {
        Seq::<ClarificationView>::empty()
    }));
    if non_goals.len() == 0 {
        let q = chars_of(
            "What should we explicitly not do (non-goals / out of scope for the epic)?",
        );
        push_clar(&mut clarifications, clarification("non_goals", &q));
    }
    if slices.len() > 0 {
        let q = chars_of(
            "Provisional slices were inferred from list lines. Confirm ids and fill acceptance, target_paths, and out_of_scope for each before commit.",
        );
        push_clar(&mut clarifications, clarification("slices", &q));
    }
    ParsedBrief { goals, non_goals, slices, clarifications }
}

// ---------------------------------------------------------------------------
// Scoping an epic
// ---------------------------------------------------------------------------

/// Whether some clarification in `cs` concerns `f`.
pub open spec fn has_field(cs: Seq<ClarificationView>, f: Seq<char>) -> bool {
    exists|i: int| 0 <= i < cs.len() && (#[trigger] cs[i]).field == f
}

/// `cs` with only the first clarification of each field.
pub open spec fn dedup_fields(cs: Seq<ClarificationView>) -> Seq<ClarificationView>
    decreases cs.len(),
{
    if cs.len() == 0 {
        Seq::empty()
    } else {
        let d = dedup_fields(cs.drop_last());
        if has_field(cs.drop_last(), cs.last().field) {
            d
        } else {
            d.push(cs.last())
        }
    }
}

/// The field of the clarification about invalid slice `i`.
pub open spec fn invalid_field(i: int, id: Seq<char>) -> Seq<char> {
    "slices["@ + dec(i as nat) + "]."@ + id
}

/// The question about invalid slice `id`.
pub open spec fn invalid_question(id: Seq<char>, e: ValidationError) -> Seq<char> {
    "Slice `"@ + id + "` invalid: "@ + validation_message(e) + ". Fix acceptance, paths, out_of_scope."@
}

/// The clarifications about the invalid slices among the first `n`.
pub open spec fn invalid_clars(slices: Seq<SliceView>, n: int) -> Seq<ClarificationView>
    decreases n,
{
    if n <= 0 {
        Seq::empty()
    } else {
        let prev = invalid_clars(slices, n - 1);
        match slices[n - 1].validity() {
            Err(e) => prev.push(
                ClarificationView {
                    field: invalid_field(n - 1, slices[n - 1].id),
                    question: invalid_question(slices[n - 1].id, e),
                },
            ),
            Ok(_) => prev,
        }
    }
}

/// The scope gathered before the slices are checked: brief, goals and
/// non-goals trimmed, what is missing drafted from the brief, and the
/// clarifications asked so far.
pub ghost struct GatheredView {
    pub brief: Seq<char>,
    pub goals: Seq<char>,
    pub non_goals: Seq<char>,
    pub drafts: Seq<DraftView>,
    pub clarifications: Seq<ClarificationView>,
}

/// The scope gathered from a request (see `GatheredView`): a blank field
/// is drafted from the brief when any of goals, non-goals and slices is
/// missing; a clarification is asked for a missing brief, for what the
/// brief's parse asks, and for goals, non-goals or slices still missing.
pub open spec fn gathered(input: ScopeInputView) -> GatheredView {
    let brief = trim(input.brief);
    let goals0 = trim(input.goals);
    let ng0 = trim(input.non_goals);
    let d0 = input.slices;
    let c1: Seq<ClarificationView> = if brief.len() == 0 {
        seq![
            ClarificationView {
                field: "brief"@,
                question: "What should we build? Paste one epic prompt / outcome."@,
            },
        ]
    } else {
        Seq::empty()
    };
    let need = goals0.len() == 0 || ng0.len() == 0 || d0.len() == 0;
    let p = parsed_brief(brief);
    let goals = if need && goals0.len() == 0 {
        p.goals
    } else {
        goals0
    };
    let ng = if need && ng0.len() == 0 {
        p.non_goals
    } else {
        ng0
    };
    let drafts = if need && d0.len() == 0 {
        p.slices
    } else {
        d0
    };
    let c2 = if need {
        c1 + p.clarifications
    } else {
        c1
    };
    let c3 = if is_blank(goals) {
        c2.push(
            ClarificationView {
                field: "goals"@,
                question: "What are the concrete success goals for this epic?"@,
            },
        )
    } else {
        c2
    };
    let c4 = if is_blank(ng) {
        c3.push(
            ClarificationView {
                field: "non_goals"@,
                question: "What is explicitly out of scope / non-goals?"@,
            },
        )
    } else {
        c3
    };
    let c5 = if drafts.len() == 0 {
        c4.push(
            ClarificationView {
                field: "slices"@,
                question: "List micro-slices (id, acceptance, target_paths, out_of_scope) to execute in order."@,
            },
        )
    } else {
        c4
    };
    GatheredView { brief, goals, non_goals: ng, drafts, clarifications: c5 }
}

/// Whether scoping a request with the given brief, goals, non-goals and
/// number of drafted slices cuts every section of its brief at a character
/// boundary: the brief is parsed only when goals, non-goals or slices are
/// missing.
pub open spec fn sections_cut_cleanly(brief: Seq<char>, goals: Seq<char>, non_goals: Seq<char>, n_slices: nat) -> bool {
    let need = trim(goals).len() == 0 || trim(non_goals).len() == 0 || n_slices == 0;
    need ==> brief_cuts_cleanly(trim(brief))
}

/// Whether scoping a request cuts every section of its brief at a
/// character boundary.
pub open spec fn scope_cuts_cleanly(input: ScopeInputView) -> bool {
    sections_cut_cleanly(input.brief, input.goals, input.non_goals, input.slices.len())
}

/// Whether scoping a request with these texts and number of drafted slices
/// cuts every section of its brief at a character boundary (see
/// `sections_cut_cleanly`).
pub fn cuts_cleanly(brief: &str, goals: &str, non_goals: &str, n_slices: usize) -> (r: bool)
    ensures
        r == sections_cut_cleanly(brief@, goals@, non_goals@, n_slices as nat),
{
    let need = crate::util::trim_str(goals).len() == 0 || crate::util::trim_str(non_goals).len()
        == 0 || n_slices == 0;
    if !need {
        return true;
    }
    let b = crate::util::trim_str(brief);
    let (gs, ngs) = brief_sections(&b);
    gs.is_some() && ngs.is_some()
}

impl ScopeInput {
    /// Whether scoping this request cuts every section of its brief at a
    /// character boundary (see `scope_cuts_cleanly`).
    pub fn cuts_cleanly(&self) -> (r: bool)
        ensures
            r == scope_cuts_cleanly(self@),
    {
        cuts_cleanly(self.brief.as_str(), self.goals.as_str(), self.non_goals.as_str(), self.slices.len())
    }
}

/// The outcome of scoping an epic: the gathered scope's drafts become
/// slices, a clarification is added for each invalid one, and only the
/// first clarification of each field is kept; the scope is ready exactly
/// when no clarification remains.
pub open spec fn scope_spec(input: ScopeInputView) -> ScopeResultView {
    let g = gathered(input);
    let slices = g.drafts.map_values(|d: DraftView| draft_slice(d));
    let cs = dedup_fields(g.clarifications + invalid_clars(slices, slices.len() as int));
    let ok = cs.len() == 0;
    ScopeResultView {
        ok,
        status: if !ok {
            "needs_clarification"@
        } else if input.commit {
            "ready_to_commit"@
        } else {
            "preview"@
        },
        brief: g.brief,
        goals: g.goals,
        non_goals: g.non_goals,
        slices,
        clarifications: cs,
        committed: false,
        host_hint: SCOPE_HOST_HINT@,
        message: if !ok {
            "Ask the user the clarifications, then call scope_epic again (commit=true when ready)."@
        } else if input.commit {
            "Scope valid; caller should persist via store commit."@
        } else {
            "Scope looks valid. Re-call with commit=true to write the ledger."@
        },
    }
}

/// Keeps the first clarification of each field (see `dedup_fields`).
fn dedup_clarifications(cs: Vec<Clarification>) -> (r: Vec<Clarification>)
    ensures
        clar_views(r@) == dedup_fields(clar_views(cs@)),
{
    let ghost all = clar_views(cs@);
    let mut out: Vec<Clarification> = Vec::new();
    let mut i: usize = 0;
    while i < cs.len()
        invariant
            i <= cs.len(),
            all == clar_views(cs@),
            clar_views(out@) == dedup_fields(all.subrange(0, i as int)),
            forall|f: Seq<char>|
                has_field(clar_views(out@), f) <==> has_field(all.subrange(0, i as int), f),
        decreases cs.len() - i,
    {
        let c = &cs[i];
        let mut seen = false;
        let mut j: usize = 0;
        while j < out.len()
            invariant
                j <= out.len(),
                seen <==> exists|k: int| 0 <= k < j && out@[k].field@ == c.field@,
            decreases out.len() - j,
        {
            if out[j].field == c.field {
                seen = true;
            }
            j = j + 1;
        }
        let ghost prefix = all.subrange(0, i as int);
        let ghost next = all.subrange(0, i + 1);
        assert(next.drop_last() == prefix);
        assert(next.last() == c@);
        assert(seen == has_field(clar_views(out@), c.field@)) by {
            if seen {
                let k = choose|k: int| 0 <= k < j && out@[k].field@ == c.field@;
                assert(clar_views(out@)[k].field == c.field@);
            }
            if has_field(clar_views(out@), c.field@) {
                let k = choose|k: int|
                    0 <= k < clar_views(out@).len() && (#[trigger] clar_views(out@)[k]).field
                        == c.field@;
                assert(out@[k].field@ == c.field@);
            }
        }
        if !seen {
            let ghost before = out@;
            assert(forall|f: Seq<char>|
                has_field(clar_views(before), f) <==> has_field(prefix, f));
            out.push(Clarification { field: c.field.clone(), question: c.question.clone() });
            assert(clar_views(out@) =~= clar_views(before).push(c@));
            assert forall|f: Seq<char>| has_field(clar_views(out@), f) <==> has_field(next, f) by {
                if has_field(clar_views(out@), f) {
                    let k = choose|k: int|
                        0 <= k < clar_views(out@).len() && (#[trigger] clar_views(out@)[k]).field
                            == f;
                    if k < before.len() {
                        assert(clar_views(before)[k].field == f);
                        assert(has_field(prefix, f));
                        let m = choose|m: int| 0 <= m < prefix.len() && (#[trigger] prefix[m]).field == f;
                        assert(next[m] == prefix[m]);
                    } else {
                        assert(next[i as int].field == f);
                    }
                }
                if has_field(next, f) {
                    let m = choose|m: int| 0 <= m < next.len() && (#[trigger] next[m]).field == f;
                    if m < i {
                        assert(prefix[m] == next[m]);
                        assert(has_field(prefix, f));
                        assert(has_field(clar_views(before), f));
                        let k = choose|k: int|
                            0 <= k < clar_views(before).len() && (#[trigger] clar_views(
                                before,
                            )[k]).field == f;
                        assert(clar_views(out@)[k] == clar_views(before)[k]);
                    } else {
                        assert(clar_views(out@)[before.len() as int].field == f);
                    }
                }
            }
        } else {
            assert forall|f: Seq<char>| has_field(clar_views(out@), f) <==> has_field(next, f) by {
                if has_field(next, f) {
                    let m = choose|m: int| 0 <= m < next.len() && (#[trigger] next[m]).field == f;
                    if m < i {
                        assert(prefix[m] == next[m]);
                    }
                }
                if has_field(prefix, f) {
                    let m = choose|m: int| 0 <= m < prefix.len() && (#[trigger] prefix[m]).field == f;
                    assert(next[m] == prefix[m]);
                }
            }
        }
        i = i + 1;
    }
    assert(all.subrange(0, cs@.len() as int) == all);
    out
}

/// Trims a string.
fn trimmed(s: &String) -> (r: Vec<char>)
    ensures
        r@ == trim(s@),
{
    crate::util::trim_str(s.as_str())
}

/// The scope gathered from a request, as values.
struct Gathered {
    brief: Vec<char>,
    goals: Vec<char>,
    non_goals: Vec<char>,
    drafts: Option<Vec<ScopeSliceDraft>>,
    clarifications: Vec<Clarification>,
}

/// Copies a list of clarifications onto the end of another.
fn extend_clars(dst: &mut Vec<Clarification>, src: &Vec<Clarification>)
    ensures
        clar_views(final(dst)@) == clar_views(old(dst)@) + clar_views(src@),
{
    let ghost before = clar_views(dst@);
    let mut k: usize = 0;
    while k < src.len()
        invariant
            k <= src.len(),
            clar_views(dst@) == before + clar_views(src@).subrange(0, k as int),
        decreases src.len() - k,
    {
        let c = Clarification { field: src[k].field.clone(), question: src[k].question.clone() };
        push_clar(dst, c);
        assert(clar_views(src@).subrange(0, k + 1) =~= clar_views(src@).subrange(0, k as int).push(
            src@[k as int]@,
        ));
        k = k + 1;
    }
    assert(clar_views(src@).subrange(0, src@.len() as int) == clar_views(src@));
}

/// Gathers the scope of a request (see `gathered`); the drafts are the
/// request's own unless `drafts` holds the ones drafted from the brief.
fn gather(input: &ScopeInput) -> (g: Gathered)
    requires
        scope_cuts_cleanly(input@),
    ensures
        g.brief@ == gathered(input@).brief,
        g.goals@ == gathered(input@).goals,
        g.non_goals@ == gathered(input@).non_goals,
        match g.drafts {
            Some(d) => draft_views(d@) == gathered(input@).drafts,
            None => draft_views(input.slices@) == gathered(input@).drafts,
        },
        clar_views(g.clarifications@) == gathered(input@).clarifications,
{
    let ghost spec = gathered(input@);
    let brief = trimmed(&input.brief);
    let mut goals = trimmed(&input.goals);
    let mut non_goals = trimmed(&input.non_goals);
    let mut clarifications: Vec<Clarification> = Vec::new();
    if brief.len() == 0 {
        let q = chars_of("What should we build? Paste one epic prompt / outcome.");
        push_clar(&mut clarifications, clarification("brief", &q));
    }
    let need = goals.len() == 0 || non_goals.len() == 0 || input.slices.len() == 0;
    let mut drafts: Option<Vec<ScopeSliceDraft>> = None;
    if need {
        let parsed = parse_brief(&brief);
        if goals.len() == 0 {
            goals = parsed.goals;
        }
        if non_goals.len() == 0 {
            non_goals = parsed.non_goals;
        }
        if input.slices.len() == 0 {
            drafts = Some(parsed.slices);
        }
        extend_clars(&mut clarifications, &parsed.clarifications);
    }
    let n_drafts = match &drafts {
        Some(d) => d.len(),
        None => input.slices.len(),
    };
    if blank(&goals) {
        let q = chars_of("What are the concrete success goals for this epic?");
        push_clar(&mut clarifications, clarification("goals", &q));
    }
    if blank(&non_goals) {
        let q = chars_of("What is explicitly out of scope / non-goals?");
        push_clar(&mut clarifications, clarification("non_goals", &q));
    }
    if n_drafts == 0 {
        let q = chars_of(
            "List micro-slices (id, acceptance, target_paths, out_of_scope) to execute in order.",
        );
        push_clar(&mut clarifications, clarification("slices", &q));
    }
    Gathered { brief, goals, non_goals, drafts, clarifications }
}

/// The slices that drafts become, with a clarification appended for each
/// invalid one.
fn check_drafts(drafts: &Vec<ScopeSliceDraft>, clarifications: &mut Vec<Clarification>) -> (r: Vec<
    Slice,
>)
    ensures
        r@.map_values(|s: Slice| s@) == draft_views(drafts@).map_values(
            |d: DraftView| draft_slice(d),
        ),
        clar_views(final(clarifications)@) == clar_views(old(clarifications)@) + invalid_clars(
            draft_views(drafts@).map_values(|d: DraftView| draft_slice(d)),
            drafts@.len() as int,
        ),
{
    let ghost c5 = clar_views(clarifications@);
    let ghost slice_spec = draft_views(drafts@).map_values(|d: DraftView| draft_slice(d));
    let mut slices: Vec<Slice> = Vec::new();
    let mut i: usize = 0;
    while i < drafts.len()
        invariant
            i <= drafts.len(),
            slice_spec == draft_views(drafts@).map_values(|d: DraftView| draft_slice(d)),
            slices@.map_values(|s: Slice| s@) == slice_spec.subrange(0, i as int),
            clar_views(clarifications@) == c5 + invalid_clars(slice_spec, i as int),
        decreases drafts.len() - i,
    {
        let slice = Slice::from_draft(&drafts[i]);
        assert(slice@ == slice_spec[i as int]);
        match slice.validate() {
            Err(e) => {
                let mut field = chars_of("slices[");
                append_chars(&mut field, &decimal(i as u64));
                append_str(&mut field, "].");
                append_str(&mut field, slice.id.as_str());
                let mut q = chars_of("Slice `");
                append_str(&mut q, slice.id.as_str());
                append_str(&mut q, "` invalid: ");
                append_str(&mut q, e.message());
                append_str(&mut q, ". Fix acceptance, paths, out_of_scope.");
                let c = Clarification { field: string_of(&field), question: string_of(&q) };
                assert(c@.field == invalid_field(i as int, slice_spec[i as int].id));
                assert(c@.question == invalid_question(slice_spec[i as int].id, e));
                push_clar(clarifications, c);
            },
            Ok(_) => {},
        }
        let ghost before = slices@;
        let ghost sv = slice@;
        slices.push(slice);
        assert(slices@.map_values(|s: Slice| s@) =~= before.map_values(|s: Slice| s@).push(sv));
        assert(slice_spec.subrange(0, i + 1) =~= slice_spec.subrange(0, i as int).push(sv));
        i = i + 1;
    }
    assert(slice_spec.subrange(0, drafts@.len() as int) == slice_spec);
    slices
}

/// Scopes an epic from one prompt (see `scope_spec`): drafts what is
/// missing from the brief, validates the slices and lists the questions to
/// ask before the scope can be committed. The brief's sections must be cut
/// at character boundaries (`cuts_cleanly` tells).
pub fn scope_epic(input: ScopeInput) -> (r: ScopeResult)
    requires
        scope_cuts_cleanly(input@),
    ensures
        r@ == scope_spec(input@),
{
    let g = gather(&input);
    let mut clarifications = g.clarifications;
    let slices = match &g.drafts {
        Some(d) => check_drafts(d, &mut clarifications),
        None => check_drafts(&input.slices, &mut clarifications),
    };
    let clarifications = dedup_clarifications(clarifications);
    let ready = clarifications.len() == 0;
    let (status, message) = if !ready {
        (
            "needs_clarification",
            "Ask the user the clarifications, then call scope_epic again (commit=true when ready).",
        )
    } else if input.commit {
        ("ready_to_commit", "Scope valid; caller should persist via store commit.")
    } else {
        ("preview", "Scope looks valid. Re-call with commit=true to write the ledger.")
    };
    let r = ScopeResult {
        ok: ready,
        status: String::from_str(status),
        brief: string_of(&g.brief),
        goals: string_of(&g.goals),
        non_goals: string_of(&g.non_goals),
        slices,
        clarifications,
        committed: false,
        host_hint: String::from_str(SCOPE_HOST_HINT),
        message: String::from_str(message),
    };
    assert(r@.slices == scope_spec(input@).slices);
    r
}

/// The project that a scope describes: its goals and non-goals, active.
pub fn project_from_scope(r: &ScopeResult) -> (p: Project)
    ensures
        p@ == (ProjectView { goals: r.goals@, non_goals: r.non_goals@, status: "active"@ }),
{
    Project {
        goals: r.goals.clone(),
        non_goals: r.non_goals.clone(),
        status: String::from_str("active"),
    }
}


// ---------------------------------------------------------------------------
// Laws
// ---------------------------------------------------------------------------

/// A field is asked about after dropping repeats exactly when it was asked
/// about before.
pub proof fn lemma_dedup_has_field(cs: Seq<ClarificationView>, f: Seq<char>)
    ensures
        has_field(dedup_fields(cs), f) <==> has_field(cs, f),
    decreases cs.len(),
{
    if cs.len() > 0 {
        let pre = cs.drop_last();
        lemma_dedup_has_field(pre, f);
        let d = dedup_fields(pre);
        if has_field(pre, f) {
            let i = choose|i: int| 0 <= i < pre.len() && (#[trigger] pre[i]).field == f;
            assert(cs[i] == pre[i]);
            if !has_field(pre, cs.last().field) {
                let k = choose|k: int| 0 <= k < d.len() && (#[trigger] d[k]).field == f;
                assert(d.push(cs.last())[k] == d[k]);
            }
        }
        if has_field(cs, f) {
            let i = choose|i: int| 0 <= i < cs.len() && (#[trigger] cs[i]).field == f;
            if i < pre.len() {
                assert(pre[i] == cs[i]);
            } else if !has_field(pre, cs.last().field) {
                assert(d.push(cs.last())[d.len() as int].field == f);
            } else {
                lemma_dedup_has_field(pre, cs.last().field);
            }
        }
        if !has_field(pre, cs.last().field) && has_field(d.push(cs.last()), f) {
            let k = choose|k: int| 0 <= k < d.len() + 1 && (#[trigger] d.push(cs.last())[k]).field
                == f;
            if k < d.len() {
                assert(d[k] == d.push(cs.last())[k]);
            } else {
                assert(cs[cs.len() - 1].field == f);
            }
        }
    }
}

/// After dropping repeats, no two clarifications concern the same field.
pub proof fn lemma_dedup_distinct(cs: Seq<ClarificationView>)
    ensures
        forall|i: int, j: int|
            0 <= i < j < dedup_fields(cs).len() ==> dedup_fields(cs)[i].field != dedup_fields(
                cs,
            )[j].field,
    decreases cs.len(),
{
    if cs.len() > 0 {
        let pre = cs.drop_last();
        lemma_dedup_distinct(pre);
        lemma_dedup_has_field(pre, cs.last().field);
        let d = dedup_fields(pre);
        if !has_field(pre, cs.last().field) {
            let e = d.push(cs.last());
            assert forall|i: int, j: int| 0 <= i < j < e.len() implies e[i].field != e[j].field by {
                if j == d.len() {
                    assert(e[i] == d[i]);
                    if e[i].field == e[j].field {
                        assert(has_field(d, cs.last().field));
                    }
                } else {
                    assert(e[i] == d[i]);
                    assert(e[j] == d[j]);
                }
            }
        }
    }
}

/// Dropping repeats leaves a non-empty list non-empty.
pub proof fn lemma_dedup_nonempty(cs: Seq<ClarificationView>)
    ensures
        cs.len() > 0 ==> dedup_fields(cs).len() > 0,
{
    if cs.len() > 0 {
        lemma_dedup_has_field(cs, cs[0].field);
        assert(has_field(cs, cs[0].field));
    }
}

/// With no clarification about invalid slices, every slice is valid.
pub proof fn lemma_no_invalid_clars(slices: Seq<SliceView>, n: int)
    requires
        0 <= n <= slices.len(),
        invalid_clars(slices, n).len() == 0,
    ensures
        forall|i: int| 0 <= i < n ==> (#[trigger] slices[i].validity()) is Ok,
    decreases n,
{
    if n > 0 {
        if slices[n - 1].validity() is Err {
            assert(invalid_clars(slices, n).len() == invalid_clars(slices, n - 1).len() + 1);
        } else {
            lemma_no_invalid_clars(slices, n - 1);
        }
    }
}

/// A scope is ready exactly when no question remains, and then every one
/// of its slices is valid; scoping never commits by itself, and no two of
/// its questions concern the same field.
pub proof fn lemma_ready_scope_is_valid(input: ScopeInputView)
    ensures
        ({
            let r = scope_spec(input);
            &&& r.ok <==> r.clarifications.len() == 0
            &&& !r.committed
            &&& r.ok ==> forall|i: int| 0 <= i < r.slices.len() ==> (#[trigger] r.slices[i].validity()) is Ok
            &&& forall|i: int, j: int|
                0 <= i < j < r.clarifications.len() ==> r.clarifications[i].field
                    != r.clarifications[j].field
        }),
{
    let g = gathered(input);
    let slices = g.drafts.map_values(|d: DraftView| draft_slice(d));
    let all = g.clarifications + invalid_clars(slices, slices.len() as int);
    lemma_dedup_nonempty(all);
    lemma_dedup_distinct(all);
    if dedup_fields(all).len() == 0 {
        assert(all.len() == 0);
        assert(invalid_clars(slices, slices.len() as int).len() == 0);
        lemma_no_invalid_clars(slices, slices.len() as int);
    }
}

/// Whether `s` holds no carriage return.
pub open spec fn no_cr(s: Seq<char>) -> bool {
    forall|k: int| 0 <= k < s.len() ==> s[k] != '\r'
}

/// The end `section_end` reaches is where it starts plus the byte span of
/// the lines it passes, up to some line `jj`.
proof fn lemma_section_end_span(ls: Seq<Seq<char>>, j: int, e: int) -> (jj: int)
    requires
        0 <= j <= ls.len(),
    ensures
        j <= jj <= ls.len(),
        section_end(ls, j, e) == e + bytes_span(ls, jj) - bytes_span(ls, j),
        forall|k: int| j <= k < jj ==> !stops_section(lower(trim(#[trigger] ls[k]))),
        jj < ls.len() ==> stops_section(lower(trim(ls[jj]))),
    decreases ls.len() - j,
{
    if j >= ls.len() {
        j
    } else if stops_section(lower(trim(ls[j]))) {
        j
    } else {
        lemma_section_end_span(ls, j + 1, e + utf8_len(ls[j]) + 1)
    }
}

/// A section of a text without carriage returns is cut at a character
/// boundary.
proof fn lemma_section_text_clean(orig: Seq<char>, start: int)
    requires
        0 <= start <= orig.len(),
        no_cr(orig),
    ensures
        section_text(orig, start) is Some,
{
    let rest = orig.subrange(start, orig.len() as int);
    lemma_find_from_bounds(rest, seq!['\n'], 0);
    match find(rest, seq!['\n']) {
        None => {},
        Some(i) => {
            let after = rest.subrange(i, rest.len() as int);
            let rest2 = rest.subrange(i + 1, rest.len() as int);
            assert(rest.subrange(i, i + 1)[0] == rest[i]);
            assert(after =~= seq!['\n'] + rest2);
            assert(occurs_at(after, seq!['\n'], 0)) by {
                assert(after.subrange(0, 1) =~= seq!['\n']);
            }
            lemma_lines_step(after);
            assert(find(after, seq!['\n']) == Some(0int));
            assert(after.subrange(0, 0) =~= Seq::<char>::empty());
            assert(after.subrange(1, after.len() as int) =~= rest2);
            let la = lines(after);
            let l = lines(rest2);
            assert(la == seq![Seq::<char>::empty()] + l);
            let ib = utf8_len(rest.subrange(0, i)) as int;
            let jj = lemma_section_end_span(la, 1, ib);
            lemma_bytes_span_shift(la, l, 1);
            lemma_bytes_span_shift(la, l, jj);
            assert(bytes_span(l, 0) == 0);
            assert(utf8_len(la[0]) == 0);
            assert(no_cr(rest2)) by {
                assert forall|k: int| 0 <= k < rest2.len() implies rest2[k] != '\r' by {
                    assert(rest2[k] == orig[start + i + 1 + k]);
                }
            }
            lemma_lines_bytes(rest2, jj - 1);
            let m = lines_span(l, jj - 1);
            lemma_spans_nonneg(l, jj - 1);
            assert(rest.subrange(0, i + m) =~= rest.subrange(0, i) + after.subrange(0, m));
            lemma_utf8_len_concat(rest.subrange(0, i), after.subrange(0, m));
            lemma_byte_index_prefix(rest, i + m);
        },
    }
}

/// A section of an ASCII text is cut at a character boundary, since every
/// byte starts a character and the cut never passes the text's end.
proof fn lemma_section_text_ascii(orig: Seq<char>, start: int)
    requires
        0 <= start <= orig.len(),
        is_ascii_text(orig),
    ensures
        section_text(orig, start) is Some,
{
    let rest = orig.subrange(start, orig.len() as int);
    lemma_find_from_bounds(rest, seq!['\n'], 0);
    match find(rest, seq!['\n']) {
        None => {},
        Some(i) => {
            let after = rest.subrange(i, rest.len() as int);
            assert(is_ascii_text(rest)) by {
                assert forall|k: int| 0 <= k < rest.len() implies (rest[k] as u32) < 0x80 by {
                    assert(rest[k] == orig[start + k]);
                }
            }
            assert(is_ascii_text(after)) by {
                assert forall|k: int| 0 <= k < after.len() implies (after[k] as u32) < 0x80 by {
                    assert(after[k] == rest[i + k]);
                }
            }
            assert(is_ascii_text(rest.subrange(0, i))) by {
                assert forall|k: int| 0 <= k < i implies (rest.subrange(0, i)[k] as u32) < 0x80 by {
                    assert(rest.subrange(0, i)[k] == rest[k]);
                }
            }
            assert(occurs_at(after, seq!['\n'], 0)) by {
                assert(rest.subrange(i, i + 1)[0] == rest[i]);
                assert(after.subrange(0, 1) =~= seq!['\n']);
            }
            lemma_lines_step(after);
            assert(find(after, seq!['\n']) == Some(0int));
            assert(after.subrange(0, 0) =~= Seq::<char>::empty());
            let la = lines(after);
            assert(la[0] == Seq::<char>::empty());
            lemma_utf8_len_ascii(rest.subrange(0, i));
            let jj = lemma_section_end_span(la, 1, i);
            lemma_lines_ascii(after);
            lemma_bytes_span_ascii(la, jj);
            lemma_bytes_span_ascii(la, 1);
            assert(lines_span(la, 0) == 0);
            lemma_lines_span_bound(after, jj);
            let e = i + lines_span(la, jj) - 1;
            lemma_spans_nonneg(la, jj);
            assert(lines_span(la, jj) >= lines_span(la, 1)) by {
                lemma_lines_span_mono(la, 1, jj);
            }
            assert(rest.subrange(0, e).len() == e);
            assert(is_ascii_text(rest.subrange(0, e))) by {
                assert forall|k: int| 0 <= k < e implies (rest.subrange(0, e)[k] as u32) < 0x80 by {
                    assert(rest.subrange(0, e)[k] == rest[k]);
                }
            }
            lemma_utf8_len_ascii(rest.subrange(0, e));
            lemma_byte_index_prefix(rest, e);
        },
    }
}

/// Character spans grow with the number of lines.
proof fn lemma_lines_span_mono(ls: Seq<Seq<char>>, a: int, b: int)
    requires
        0 <= a <= b,
    ensures
        lines_span(ls, a) <= lines_span(ls, b),
    decreases b - a,
{
    if a < b {
        lemma_lines_span_mono(ls, a, b - 1);
    }
}

/// A section found is never empty, is trimmed, and is a stretch of the
/// text it was found in; and in a text without carriage returns, or in an
/// ASCII text, every section tried is cut at a character boundary.
pub proof fn lemma_section_from(orig: Seq<char>, ms: Seq<Seq<char>>, i: int)
    requires
        0 <= i,
    ensures
        section_from(orig, ms, i) matches Some(Some(t)) ==> {
            &&& t.len() > 0
            &&& trim(t) == t
            &&& exists|a: int| 0 <= a && a + t.len() <= orig.len() && #[trigger] orig.subrange(a, a + t.len()) == t
        },
        no_cr(orig) || is_ascii_text(orig) ==> section_from(orig, ms, i) is Some,
    decreases ms.len() - i,
{
    if i >= ms.len() {
    } else {
        lemma_find_from_bounds(lower(orig), ms[i], 0);
        match find(lower(orig), ms[i]) {
            Some(pos) => {
                let start = pos + ms[i].len();
                if no_cr(orig) {
                    lemma_section_text_clean(orig, start);
                }
                if is_ascii_text(orig) {
                    lemma_section_text_ascii(orig, start);
                }
                let rest = orig.subrange(start, orig.len() as int);
                lemma_find_from_bounds(rest, seq!['\n'], 0);
                match section_text(orig, start) {
                    Some(t) => {
                        if t.len() > 0 {
                            let piece = match find(rest, seq!['\n']) {
                                None => rest,
                                Some(k) => {
                                    let p = byte_index(
                                        rest,
                                        section_end(
                                            lines(rest.subrange(k, rest.len() as int)),
                                            1,
                                            utf8_len(rest.subrange(0, k)) as int,
                                        ),
                                    )->0;
                                    lemma_byte_index(
                                        rest,
                                        section_end(
                                            lines(rest.subrange(k, rest.len() as int)),
                                            1,
                                            utf8_len(rest.subrange(0, k)) as int,
                                        ),
                                    );
                                    rest.subrange(0, p)
                                },
                            };
                            assert(t == trim(piece));
                            lemma_trim_idempotent(piece);
                            let (a, b) = crate::util::lemma_trim_range(piece);
                            assert(orig.subrange(start + a, start + a + t.len()) =~= t);
                        } else {
                            lemma_section_from(orig, ms, i + 1);
                        }
                    },
                    None => {},
                }
            },
            None => {
                lemma_section_from(orig, ms, i + 1);
            },
        }
    }
}

/// A brief without carriage returns, or an ASCII brief, always has its
/// sections cut at character boundaries, so scoping a request with such a
/// brief never meets a cut inside a character.
pub proof fn lemma_plain_briefs_cut_cleanly(input: ScopeInputView)
    requires
        no_cr(input.brief) || is_ascii_text(input.brief),
    ensures
        brief_cuts_cleanly(trim(input.brief)),
        scope_cuts_cleanly(input),
{
    let (a, b) = crate::util::lemma_trim_range(input.brief);
    let t = trim(input.brief);
    assert forall|k: int| 0 <= k < t.len() implies t[k] == input.brief[a + k] by {}
    if no_cr(input.brief) {
        assert(no_cr(t));
    }
    if is_ascii_text(input.brief) {
        assert(is_ascii_text(t));
    }
    lemma_section_from(t, goal_markers(), 0);
    lemma_section_from(t, non_goal_markers(), 0);
}

/// The numbers of the lines among the first `n` that give a draft, in
/// order.
pub open spec fn draft_lines(ls: Seq<Seq<char>>, n: int) -> Seq<int>
    decreases n,
{
    if n <= 0 {
        Seq::empty()
    } else {
        let prev = draft_lines(ls, n - 1);
        match line_draft(n - 1, ls[n - 1]) {
            Some(_) => prev.push(n - 1),
            None => prev,
        }
    }
}

/// The drafts from the first `n` lines are those of the lines `draft_lines`
/// names, one per line that gives a draft, in the order of the lines.
proof fn lemma_draft_lines(ls: Seq<Seq<char>>, n: int)
    requires
        0 <= n <= ls.len(),
    ensures
        draft_lines(ls, n).len() == drafts_from_lines(ls, n).len(),
        forall|m: int|
            #![trigger draft_lines(ls, n)[m]]
            0 <= m < draft_lines(ls, n).len() ==> 0 <= draft_lines(ls, n)[m] < n && line_draft(
                draft_lines(ls, n)[m],
                ls[draft_lines(ls, n)[m]],
            ) == Some(drafts_from_lines(ls, n)[m]),
        forall|m1: int, m2: int|
            0 <= m1 < m2 < draft_lines(ls, n).len() ==> draft_lines(ls, n)[m1] < draft_lines(
                ls,
                n,
            )[m2],
        forall|k: int|
            0 <= k < n && (#[trigger] line_draft(k, ls[k])) is Some ==> draft_lines(ls, n).contains(k),
    decreases n,
{
    if n > 0 {
        lemma_draft_lines(ls, n - 1);
        let prev = draft_lines(ls, n - 1);
        let cur = draft_lines(ls, n);
        assert forall|k: int| 0 <= k < n && (#[trigger] line_draft(k, ls[k])) is Some implies cur.contains(k) by {
            if k < n - 1 {
                assert(prev.contains(k));
                let m = choose|m: int| 0 <= m < prev.len() && prev[m] == k;
                assert(cur[m] == prev[m]);
            } else {
                assert(cur[prev.len() as int] == k);
            }
        }
    }
}

/// A parsed brief asks about its slices exactly when it drafted some, and
/// it drafts one slice per line of the brief that is a list item (after
/// `-`, `*` or digits and `.`) whose title has 1 to 200 bytes, in the order
/// of the lines: with id `scp` and the line's number, the title as its
/// goal, no acceptance, paths or out-of-scope, and the default budgets.
pub proof fn lemma_parsed_brief_slices(brief: Seq<char>)
    ensures
        ({
            let p = parsed_brief(brief);
            let ls = lines(brief);
            let dl = draft_lines(ls, ls.len() as int);
            &&& has_field(p.clarifications, "slices"@) <==> p.slices.len() > 0
            &&& dl.len() == p.slices.len()
            &&& forall|m1: int, m2: int| 0 <= m1 < m2 < dl.len() ==> dl[m1] < dl[m2]
            &&& forall|k: int|
                0 <= k < ls.len() && (#[trigger] line_draft(k, ls[k])) is Some ==> dl.contains(k)
            &&& forall|m: int|
                #![trigger p.slices[m]]
                0 <= m < p.slices.len() ==> {
                    let k = dl[m];
                    &&& 0 <= k < ls.len()
                    &&& line_draft(k, ls[k]) == Some(p.slices[m])
                    &&& item_title(trim(ls[k])) == Some(p.slices[m].title)
                    &&& p.slices[m].id == line_id(k)
                    &&& p.slices[m].goal == p.slices[m].title
                    &&& 0 < p.slices[m].title.len() && utf8_len(p.slices[m].title) <= 200
                    &&& p.slices[m].acceptance.len() == 0 && p.slices[m].target_paths.len() == 0
                    &&& p.slices[m].out_of_scope.len() == 0
                    &&& p.slices[m].max_files == DEFAULT_MAX_FILES
                    &&& p.slices[m].max_loc == DEFAULT_MAX_LOC
                }
        }),
{
    reveal_strlit("slices");
    reveal_strlit("goals");
    reveal_strlit("non_goals");
    let p = parsed_brief(brief);
    let ls = lines(brief);
    let dl = draft_lines(ls, ls.len() as int);
    lemma_draft_lines(ls, ls.len() as int);
    assert forall|m: int| #![trigger p.slices[m]] 0 <= m < p.slices.len() implies {
        let k = dl[m];
        &&& 0 <= k < ls.len()
        &&& line_draft(k, ls[k]) == Some(p.slices[m])
        &&& item_title(trim(ls[k])) == Some(p.slices[m].title)
        &&& p.slices[m].id == line_id(k)
        &&& p.slices[m].goal == p.slices[m].title
        &&& 0 < p.slices[m].title.len() && utf8_len(p.slices[m].title) <= 200
        &&& p.slices[m].acceptance.len() == 0 && p.slices[m].target_paths.len() == 0
        &&& p.slices[m].out_of_scope.len() == 0
        &&& p.slices[m].max_files == DEFAULT_MAX_FILES
        &&& p.slices[m].max_loc == DEFAULT_MAX_LOC
    } by {
        assert(dl[m] == draft_lines(ls, ls.len() as int)[m]);
        assert(line_draft(dl[m], ls[dl[m]]) == Some(p.slices[m]));
    }
    let g0 = match section_from(brief, goal_markers(), 0) {
        Some(Some(g)) => g,
        _ => Seq::empty(),
    };
    let ng = match section_from(brief, non_goal_markers(), 0) {
        Some(Some(n)) => n,
        _ => Seq::empty(),
    };
    let goals = p.goals;
    let c1: Seq<ClarificationView> = if g0.len() == 0 && goals.len() > 0 {
        seq![ClarificationView { field: "goals"@, question: confirm_goals_question(goals) }]
    } else {
        Seq::empty()
    };
    let c2 = if ng.len() == 0 {
        c1.push(
            ClarificationView {
                field: "non_goals"@,
                question: "What should we explicitly not do (non-goals / out of scope for the epic)?"@,
            },
        )
    } else {
        c1
    };
    assert("slices"@.len() == 6 && "goals"@.len() == 5 && "non_goals"@.len() == 9);
    assert(!has_field(c2, "slices"@)) by {
        if has_field(c2, "slices"@) {
            let j = choose|j: int| 0 <= j < c2.len() && (#[trigger] c2[j]).field == "slices"@;
            assert(c2[j].field == "goals"@ || c2[j].field == "non_goals"@);
            assert(c2[j].field.len() != 6);
        }
    }
    if p.slices.len() > 0 {
        assert(p.clarifications == c2.push(
            ClarificationView {
                field: "slices"@,
                question: "Provisional slices were inferred from list lines. Confirm ids and fill acceptance, target_paths, and out_of_scope for each before commit."@,
            },
        ));
        assert(p.clarifications[c2.len() as int].field == "slices"@);
    } else {
        assert(p.clarifications == c2);
    }
}

/// A section runs from its marker to the end of the marker's line and on
/// over the following lines up to the first one that, trimmed and in lower
/// case, is blank or starts with `goals:`, `non-`, `out of scope` or
/// `slices:`; it never takes in that line or any after it. (For a text
/// without carriage returns; `lines` of the text after the marker's line.)
pub proof fn lemma_section_stops_at_marker(orig: Seq<char>, start: int)
    requires
        0 <= start <= orig.len(),
        no_cr(orig),
    ensures
        ({
            let rest = orig.subrange(start, orig.len() as int);
            let stops = |l: Seq<char>|
                l.len() == 0 || starts_with(l, "goals:"@) || starts_with(l, "non-"@) || starts_with(
                    l,
                    "out of scope"@,
                ) || starts_with(l, "slices:"@);
            match find(rest, seq!['\n']) {
                None => section_text(orig, start) == Some(trim(rest)),
                Some(i) => {
                    let ls = lines(rest.subrange(i + 1, rest.len() as int));
                    exists|n: int|
                        0 <= n <= ls.len() && section_text(orig, start) == Some(
                            trim(rest.subrange(0, i + lines_span(ls, n))),
                        ) && (forall|k: int| 0 <= k < n ==> !stops(lower(trim(#[trigger] ls[k]))))
                            && (n < ls.len() ==> stops(lower(trim(ls[n]))))
                },
            }
        }),
{
    let rest = orig.subrange(start, orig.len() as int);
    let stops = |l: Seq<char>|
        l.len() == 0 || starts_with(l, "goals:"@) || starts_with(l, "non-"@) || starts_with(
            l,
            "out of scope"@,
        ) || starts_with(l, "slices:"@);
    lemma_find_from_bounds(rest, seq!['\n'], 0);
    match find(rest, seq!['\n']) {
        None => {},
        Some(i) => {
            let after = rest.subrange(i, rest.len() as int);
            let rest2 = rest.subrange(i + 1, rest.len() as int);
            assert(rest.subrange(i, i + 1)[0] == rest[i]);
            assert(after =~= seq!['\n'] + rest2);
            assert(occurs_at(after, seq!['\n'], 0)) by {
                assert(after.subrange(0, 1) =~= seq!['\n']);
            }
            lemma_lines_step(after);
            assert(find(after, seq!['\n']) == Some(0int));
            assert(after.subrange(0, 0) =~= Seq::<char>::empty());
            assert(after.subrange(1, after.len() as int) =~= rest2);
            let la = lines(after);
            let l = lines(rest2);
            assert(la == seq![Seq::<char>::empty()] + l);
            let ib = utf8_len(rest.subrange(0, i)) as int;
            let jj = lemma_section_end_span(la, 1, ib);
            lemma_bytes_span_shift(la, l, 1);
            lemma_bytes_span_shift(la, l, jj);
            assert(bytes_span(l, 0) == 0);
            assert(utf8_len(la[0]) == 0);
            assert(no_cr(rest2)) by {
                assert forall|k: int| 0 <= k < rest2.len() implies rest2[k] != '\r' by {
                    assert(rest2[k] == orig[start + i + 1 + k]);
                }
            }
            lemma_lines_bytes(rest2, jj - 1);
            let n = jj - 1;
            let m = lines_span(l, n);
            lemma_spans_nonneg(l, n);
            assert(rest.subrange(0, i + m) =~= rest.subrange(0, i) + after.subrange(0, m));
            lemma_utf8_len_concat(rest.subrange(0, i), after.subrange(0, m));
            lemma_byte_index_prefix(rest, i + m);
            assert(section_text(orig, start) == Some(trim(rest.subrange(0, i + m))));
            assert forall|k: int| 0 <= k < n implies !stops(lower(trim(#[trigger] l[k]))) by {
                assert(la[k + 1] == l[k]);
                assert(!stops_section(lower(trim(la[k + 1]))));
            }
            if n < l.len() {
                assert(la[n + 1] == l[n]);
                assert(stops_section(lower(trim(la[jj]))));
                assert(stops(lower(trim(l[n]))));
            }
        },
    }
}

/// A draft becomes an open slice with no blockers and its fields as
/// drafted, but a blank title is replaced by the id and a blank goal by the
/// title.
pub proof fn lemma_draft_slice(d: DraftView)
    ensures
        ({
            let x = draft_slice(d);
            let title = if trim(d.title).len() == 0 {
                d.id
            } else {
                d.title
            };
            &&& x.id == d.id
            &&& x.title == title
            &&& x.goal == (if trim(d.goal).len() == 0 {
                title
            } else {
                d.goal
            })
            &&& x.target_paths == d.target_paths
            &&& x.acceptance == d.acceptance
            &&& x.out_of_scope == d.out_of_scope
            &&& x.tests == d.tests
            &&& x.max_files == d.max_files
            &&& x.max_loc == d.max_loc
            &&& x.status == SliceStatus::Open
            &&& x.blockers.len() == 0
        }),
{
    crate::util::lemma_trim(d.title);
    crate::util::lemma_trim(d.goal);
}

/// Dropping repeated fields keeps, in order, the first question about each
/// field: every question kept is one asked, earlier than any other about
/// its field, and kept questions come in the order they were asked.
pub proof fn lemma_dedup_keeps_first(cs: Seq<ClarificationView>)
    ensures
        ({
            let d = dedup_fields(cs);
            &&& forall|m: int|
                #![trigger d[m]]
                0 <= m < d.len() ==> exists|k: int|
                    0 <= k < cs.len() && #[trigger] cs[k] == d[m] && (forall|j: int|
                        0 <= j < k ==> cs[j].field != cs[k].field)
            &&& forall|f: Seq<char>| has_field(d, f) <==> has_field(cs, f)
        }),
    decreases cs.len(),
{
    assert forall|f: Seq<char>| has_field(dedup_fields(cs), f) <==> has_field(cs, f) by {
        lemma_dedup_has_field(cs, f);
    }
    if cs.len() > 0 {
        let pre = cs.drop_last();
        lemma_dedup_keeps_first(pre);
        let dp = dedup_fields(pre);
        let d = dedup_fields(cs);
        assert forall|m: int| #![trigger d[m]] 0 <= m < d.len() implies exists|k: int|
            0 <= k < cs.len() && #[trigger] cs[k] == d[m] && (forall|j: int|
                0 <= j < k ==> cs[j].field != cs[k].field) by {
            if m < dp.len() {
                assert(d[m] == dp[m]);
                let k = choose|k: int|
                    0 <= k < pre.len() && #[trigger] pre[k] == dp[m] && (forall|j: int|
                        0 <= j < k ==> pre[j].field != pre[k].field);
                assert(cs[k] == pre[k]);
                assert forall|j: int| 0 <= j < k implies cs[j].field != cs[k].field by {
                    assert(cs[j] == pre[j]);
                }
            } else {
                let k = cs.len() - 1;
                assert(d[m] == cs[k]);
                assert(!has_field(pre, cs.last().field));
                assert forall|j: int| 0 <= j < k implies cs[j].field != cs[k].field by {
                    assert(cs[j] == pre[j]);
                    if cs[j].field == cs[k].field {
                        assert(has_field(pre, cs.last().field));
                    }
                }
            }
        }
    }
}

/// A ready scope has a brief, goals, non-goals and at least one slice, none
/// of them blank; the brief is the given one trimmed, and goals and
/// non-goals given (not blank) are kept, trimmed.
pub proof fn lemma_ready_scope_complete(input: ScopeInputView)
    ensures
        ({
            let r = scope_spec(input);
            &&& r.brief == trim(input.brief)
            &&& trim(input.goals).len() > 0 ==> r.goals == trim(input.goals)
            &&& trim(input.non_goals).len() > 0 ==> r.non_goals == trim(input.non_goals)
            &&& r.ok ==> r.brief.len() > 0 && trim(r.goals).len() > 0 && trim(r.non_goals).len() > 0
                && r.slices.len() > 0
        }),
{
    let g = gathered(input);
    let slices = g.drafts.map_values(|d: DraftView| draft_slice(d));
    let all = g.clarifications + invalid_clars(slices, slices.len() as int);
    lemma_dedup_nonempty(all);
    crate::util::lemma_trim(g.goals);
    crate::util::lemma_trim(g.non_goals);
    crate::util::lemma_trim(input.brief);
    if scope_spec(input).ok {
        assert(all.len() == 0);
        assert(g.clarifications.len() == 0);
    }
}

} // verus!
