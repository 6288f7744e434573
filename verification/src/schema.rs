//! Project and slice schema with budget validation.

use vstd::prelude::*;
use crate::util::{
    chars_of, is_blank, lower, lower_chars, str_blank, trim, trim_end, trim_start, trim_str,
};

verus! {

/// Default ceiling on the number of files a slice may touch.
pub const DEFAULT_MAX_FILES: u32 = 3;

/// Default ceiling on the lines of code a slice may change.
pub const DEFAULT_MAX_LOC: u32 = 120;

/// The state of a slice in the backlog.
#[derive(Debug, Clone, Copy, PartialEq, Eq, Structural)]
pub enum SliceStatus {
    Open,
    Blocked,
    Done,
}

impl Default for SliceStatus {
    fn default() -> (r: Self)
        ensures
            r == SliceStatus::Open,
    {
        SliceStatus::Open
    }
}

/// Whether two character sequences are equal.
pub fn same_chars(a: &Vec<char>, b: &Vec<char>) -> (r: bool)
    ensures
        r == (a@ == b@),
{
    if a.len() != b.len() {
        return false;
    }
    let mut i: usize = 0;
    while i < a.len()
        invariant
            a.len() == b.len(),
            i <= a.len(),
            forall|j: int| 0 <= j < i ==> a@[j] == b@[j],
        decreases a.len() - i,
    {
        if a[i] != b[i] {
            return false;
        }
        i = i + 1;
    }
    assert(a@ =~= b@);
    true
}

/// Whether the characters `a` spell the string `b`.
pub fn chars_eq_str(a: &Vec<char>, b: &str) -> (r: bool)
    ensures
        r == (a@ == b@),
{
    let v = chars_of(b);
    same_chars(a, &v)
}

/// The case-folded, trimmed form in which status and shape names are read.
pub open spec fn keyword(t: Seq<char>) -> Seq<char> {
    lower(trim(t))
}

/// The slice status that a text names, if any: `open`, `blocked` or `done`,
/// in any ASCII case, with surrounding whitespace ignored.
pub open spec fn status_from_text(t: Seq<char>) -> Option<SliceStatus> {
    let k = keyword(t);
    if k == "open"@ {
        Some(SliceStatus::Open)
    } else if k == "blocked"@ {
        Some(SliceStatus::Blocked)
    } else if k == "done"@ {
        Some(SliceStatus::Done)
    } else {
        None
    }
}

impl SliceStatus {
    /// Reads a status name (`FromStr`): `Err(())` for any other text.
    pub fn from_text(s: &str) -> (r: Result<SliceStatus, ()>)
        ensures
            match status_from_text(s@) {
                Some(st) => r == Ok::<SliceStatus, ()>(st),
                None => r is Err,
            },
    {
        let t = trim_str(s);
        let k = lower_chars(&t);
        if chars_eq_str(&k, "open") {
            Ok(SliceStatus::Open)
        } else if chars_eq_str(&k, "blocked") {
            Ok(SliceStatus::Blocked)
        } else if chars_eq_str(&k, "done") {
            Ok(SliceStatus::Done)
        } else {
            Err(())
        }
    }
}

impl std::str::FromStr for SliceStatus {
    type Err = ();

    fn from_str(s: &str) -> (r: Result<Self, ()>)
        ensures
            match status_from_text(s@) {
                Some(st) => r == Ok::<SliceStatus, ()>(st),
                None => r is Err,
            },
    {
        SliceStatus::from_text(s)
    }
}

/// A project's goals, non-goals and status.
#[derive(Debug, PartialEq, Eq)]
pub struct Project {
    pub goals: String,
    pub non_goals: String,
    pub status: String,
}

/// What a project holds.
pub ghost struct ProjectView {
    pub goals: Seq<char>,
    pub non_goals: Seq<char>,
    pub status: Seq<char>,
}

impl View for Project {
    type V = ProjectView;

    open spec fn view(&self) -> ProjectView {
        ProjectView { goals: self.goals@, non_goals: self.non_goals@, status: self.status@ }
    }
}

impl Clone for Project {
    fn clone(&self) -> (r: Self)
        ensures
            r == *self,
    {
        Project {
            goals: self.goals.clone(),
            non_goals: self.non_goals.clone(),
            status: self.status.clone(),
        }
    }
}

impl Default for Project {
    /// Empty goals and non-goals, status `active`.
    fn default() -> (r: Self)
        ensures
            r.goals@ == Seq::<char>::empty(),
            r.non_goals@ == Seq::<char>::empty(),
            r.status@ == "active"@,
    {
        Project {
            goals: String::new(),
            non_goals: String::new(),
            status: String::from_str("active"),
        }
    }
}

/// A budgeted micro-slice of work.
#[derive(Debug, PartialEq, Eq)]
pub struct Slice {
    pub id: String,
    pub title: String,
    pub goal: String,
    pub target_paths: Vec<String>,
    pub acceptance: String,
    pub out_of_scope: String,
    pub tests: Vec<String>,
    pub max_files: u32,
    pub max_loc: u32,
    pub status: SliceStatus,
    pub blockers: String,
}

/// A copy of a list of strings.
pub fn clone_strings(v: &Vec<String>) -> (r: Vec<String>)
    ensures
        r@ == v@,
{
    let mut r: Vec<String> = Vec::new();
    let mut i: usize = 0;
    while i < v.len()
        invariant
            i <= v.len(),
            r@ == v@.subrange(0, i as int),
        decreases v.len() - i,
    {
        r.push(v[i].clone());
        i = i + 1;
    }
    assert(v@.subrange(0, v@.len() as int) == v@);
    r
}

/// The texts of a list of strings.
pub open spec fn strs(v: Seq<String>) -> Seq<Seq<char>> {
    v.map_values(|x: String| x@)
}

/// What a slice holds.
pub ghost struct SliceView {
    pub id: Seq<char>,
    pub title: Seq<char>,
    pub goal: Seq<char>,
    pub target_paths: Seq<Seq<char>>,
    pub acceptance: Seq<char>,
    pub out_of_scope: Seq<char>,
    pub tests: Seq<Seq<char>>,
    pub max_files: u32,
    pub max_loc: u32,
    pub status: SliceStatus,
    pub blockers: Seq<char>,
}

impl View for Slice {
    type V = SliceView;

    open spec fn view(&self) -> SliceView {
        SliceView {
            id: self.id@,
            title: self.title@,
            goal: self.goal@,
            target_paths: strs(self.target_paths@),
            acceptance: self.acceptance@,
            out_of_scope: self.out_of_scope@,
            tests: strs(self.tests@),
            max_files: self.max_files,
            max_loc: self.max_loc,
            status: self.status,
            blockers: self.blockers@,
        }
    }
}

/// The views of a sequence of slices.
pub open spec fn slice_views(s: Seq<Slice>) -> Seq<SliceView> {
    s.map_values(|x: Slice| x@)
}

impl SliceView {
    /// The outcome of validating a slice: the first missing field among
    /// id, acceptance, target paths and out-of-scope, in that order.
    pub open spec fn validity(self) -> Result<(), ValidationError> {
        if is_blank(self.id) {
            Err(ValidationError::MissingId)
        } else if is_blank(self.acceptance) {
            Err(ValidationError::MissingAcceptance)
        } else if no_target_path(self.target_paths) {
            Err(ValidationError::MissingTargetPaths)
        } else if is_blank(self.out_of_scope) {
            Err(ValidationError::MissingOutOfScope)
        } else {
            Ok(())
        }
    }
}

impl Clone for Slice {
    fn clone(&self) -> (r: Self)
        ensures
            r@ == self@,
    {
        Slice {
            id: self.id.clone(),
            title: self.title.clone(),
            goal: self.goal.clone(),
            target_paths: clone_strings(&self.target_paths),
            acceptance: self.acceptance.clone(),
            out_of_scope: self.out_of_scope.clone(),
            tests: clone_strings(&self.tests),
            max_files: self.max_files,
            max_loc: self.max_loc,
            status: self.status,
            blockers: self.blockers.clone(),
        }
    }
}

/// The default for a slice's `max_files`.
pub fn default_max_files() -> (r: u32)
    ensures
        r == DEFAULT_MAX_FILES,
{
    DEFAULT_MAX_FILES
}

/// The default for a slice's `max_loc`.
pub fn default_max_loc() -> (r: u32)
    ensures
        r == DEFAULT_MAX_LOC,
{
    DEFAULT_MAX_LOC
}

/// Why a slice is not ready to work on.
#[derive(Debug, Clone, Copy, PartialEq, Eq, Structural)]
pub enum ValidationError {
    MissingId,
    MissingAcceptance,
    MissingTargetPaths,
    MissingOutOfScope,
}

/// The message that describes a validation error.
pub open spec fn validation_message(e: ValidationError) -> Seq<char> {
    match e {
        ValidationError::MissingId => "slice id is required"@,
        ValidationError::MissingAcceptance => "acceptance is required"@,
        ValidationError::MissingTargetPaths => "target_paths must be non-empty"@,
        ValidationError::MissingOutOfScope => "out_of_scope is required"@,
    }
}

impl ValidationError {
    /// The error's message (its `Display` text).
    pub fn message(&self) -> (r: &'static str)
        ensures
            r@ == validation_message(*self),
    {
        match self {
            ValidationError::MissingId => "slice id is required",
            ValidationError::MissingAcceptance => "acceptance is required",
            ValidationError::MissingTargetPaths => "target_paths must be non-empty",
            ValidationError::MissingOutOfScope => "out_of_scope is required",
        }
    }
}

/// No target path holds anything but whitespace (true of an empty list).
pub open spec fn no_target_path(paths: Seq<Seq<char>>) -> bool {
    forall|i: int| 0 <= i < paths.len() ==> is_blank(#[trigger] paths[i])
}

impl Slice {
    /// The outcome of validating this slice (see `SliceView::validity`).
    pub open spec fn validity(self) -> Result<(), ValidationError> {
        self@.validity()
    }
    /// Checks that the slice names an id, an acceptance criterion, at least
    /// one target path and what is out of scope.
    pub fn validate(&self) -> (r: Result<(), ValidationError>)
        ensures
            r == self.validity(),
    {
        if str_blank(self.id.as_str()) {
            return Err(ValidationError::MissingId);
        }
        if str_blank(self.acceptance.as_str()) {
            return Err(ValidationError::MissingAcceptance);
        }
        let mut i: usize = 0;
        let mut any = false;
        while i < self.target_paths.len()
            invariant
                i <= self.target_paths.len(),
                any == exists|j: int| 0 <= j < i && !is_blank(#[trigger] self.target_paths@[j]@),
                strs(self.target_paths@).len() == self.target_paths@.len(),
            decreases self.target_paths.len() - i,
        {
            if !str_blank(self.target_paths[i].as_str()) {
                any = true;
            }
            i = i + 1;
        }
        assert(any == !no_target_path(strs(self.target_paths@))) by {
            if any {
                let j = choose|j: int| 0 <= j < i && !is_blank(#[trigger] self.target_paths@[j]@);
                assert(strs(self.target_paths@)[j] == self.target_paths@[j]@);
            } else {
                assert forall|j: int| 0 <= j < strs(self.target_paths@).len() implies is_blank(
                    #[trigger] strs(self.target_paths@)[j],
                ) by {
                    assert(strs(self.target_paths@)[j] == self.target_paths@[j]@);
                }
            }
        }
        if !any {
            return Err(ValidationError::MissingTargetPaths);
        }
        if str_blank(self.out_of_scope.as_str()) {
            return Err(ValidationError::MissingOutOfScope);
        }
        Ok(())
    }
}

/// The kind of session a context packet is assembled for.
#[derive(Debug, Clone, Copy, PartialEq, Eq, Structural)]
pub enum SessionShape {
    Feature,
    Steward,
}

/// The session shape that a text names, if any: `feature` or `steward`, in
/// any ASCII case, with surrounding whitespace ignored.
pub open spec fn shape_from_text(t: Seq<char>) -> Option<SessionShape> {
    let k = keyword(t);
    if k == "feature"@ {
        Some(SessionShape::Feature)
    } else if k == "steward"@ {
        Some(SessionShape::Steward)
    } else {
        None
    }
}

/// The name of a session shape.
pub open spec fn shape_name(s: SessionShape) -> Seq<char> {
    match s {
        SessionShape::Feature => "feature"@,
        SessionShape::Steward => "steward"@,
    }
}

/// The guidance text of a session shape.
pub open spec fn shape_description(s: SessionShape) -> Seq<char> {
    match s {
        SessionShape::Feature => "Feature micro-slice: implement one slice with TARGET_PATHS, ACCEPTANCE, OUT OF SCOPE; stop at DoD."@,
        SessionShape::Steward => "Steward cleanup priority (do not reorder):\n1. Dual SSOT / domain correctness\n2. Security / GET writes / fail-closed\n3. Contract sync (delete dead clients same day)\n4. Tests locking the fix\n5. Encode the lesson in a rule/ADR\n6. Oversized-file splits only if ceilings fail\nOut of scope: aesthetic rewrites, unrelated renames, new features."@,
    }
}

impl SessionShape {
    /// Reads a shape name (`FromStr`): `Err(())` for any other text.
    pub fn from_text(s: &str) -> (r: Result<SessionShape, ()>)
        ensures
            match shape_from_text(s@) {
                Some(sh) => r == Ok::<SessionShape, ()>(sh),
                None => r is Err,
            },
    {
        let t = trim_str(s);
        let k = lower_chars(&t);
        if chars_eq_str(&k, "feature") {
            Ok(SessionShape::Feature)
        } else if chars_eq_str(&k, "steward") {
            Ok(SessionShape::Steward)
        } else {
            Err(())
        }
    }

    /// The shape's name.
    pub fn as_str(&self) -> (r: &'static str)
        ensures
            r@ == shape_name(*self),
    {
        match self {
            SessionShape::Feature => "feature",
            SessionShape::Steward => "steward",
        }
    }

    /// The shape's guidance text.
    pub fn description(&self) -> (r: &'static str)
        ensures
            r@ == shape_description(*self),
    {
        match self {
            SessionShape::Feature => "Feature micro-slice: implement one slice with TARGET_PATHS, ACCEPTANCE, OUT OF SCOPE; stop at DoD.",
            SessionShape::Steward => "Steward cleanup priority (do not reorder):\n1. Dual SSOT / domain correctness\n2. Security / GET writes / fail-closed\n3. Contract sync (delete dead clients same day)\n4. Tests locking the fix\n5. Encode the lesson in a rule/ADR\n6. Oversized-file splits only if ceilings fail\nOut of scope: aesthetic rewrites, unrelated renames, new features.",
        }
    }
}

impl std::str::FromStr for SessionShape {
    type Err = ();

    fn from_str(s: &str) -> (r: Result<Self, ()>)
        ensures
            match shape_from_text(s@) {
                Some(sh) => r == Ok::<SessionShape, ()>(sh),
                None => r is Err,
            },
    {
        SessionShape::from_text(s)
    }
}

/// Reading a shape's own name gives the shape back.
pub proof fn lemma_shape_name_roundtrip(s: SessionShape)
    ensures
        shape_from_text(shape_name(s)) == Some(s),
{
    reveal_strlit("feature");
    reveal_strlit("steward");
    let n = shape_name(s);
    assert(trim_start(n) == n);
    assert(trim_end(n) == n);
    assert(lower(n) =~= n);
    match s {
        SessionShape::Feature => {
            assert(keyword(n) == "feature"@);
        },
        SessionShape::Steward => {
            assert(keyword(n) == "steward"@);
            assert("steward"@ != "feature"@);
        },
    }
}

/// A slice is valid exactly when its id, acceptance and out-of-scope are
/// not blank and some target path is not blank; otherwise validation names
/// the first of id, acceptance, target paths and out-of-scope that is
/// missing.
pub proof fn lemma_validity(v: SliceView)
    ensures
        ({
            let id = trim(v.id).len() > 0;
            let acc = trim(v.acceptance).len() > 0;
            let paths = exists|j: int|
                0 <= j < v.target_paths.len() && trim(#[trigger] v.target_paths[j]).len() > 0;
            let oos = trim(v.out_of_scope).len() > 0;
            &&& v.validity() is Ok <==> id && acc && paths && oos
            &&& v.validity() == Err::<(), ValidationError>(ValidationError::MissingId) <==> !id
            &&& v.validity() == Err::<(), ValidationError>(ValidationError::MissingAcceptance)
                <==> id && !acc
            &&& v.validity() == Err::<(), ValidationError>(ValidationError::MissingTargetPaths)
                <==> id && acc && !paths
            &&& v.validity() == Err::<(), ValidationError>(ValidationError::MissingOutOfScope)
                <==> id && acc && paths && !oos
        }),
{
    crate::util::lemma_trim(v.id);
    crate::util::lemma_trim(v.acceptance);
    crate::util::lemma_trim(v.out_of_scope);
    assert forall|j: int| 0 <= j < v.target_paths.len() implies (trim(
        #[trigger] v.target_paths[j],
    ).len() == 0 <==> is_blank(v.target_paths[j])) by {
        crate::util::lemma_trim(v.target_paths[j]);
    }
}

} // verus!
