use ledgernomics::schema::SliceStatus;
use ledgernomics::scope::ScopeSliceDraft;
use ledgernomics::service::{
    default_budget, default_feature, default_files, default_loc, default_status, AdrIdArgs,
    AttemptAppendArgs, ProjectSetArgs, RecoverArgs, ResourceBody, ScopeEpicArgs, ServiceError,
    SliceIdArgs, SliceUpsertArgs,
};
use ledgernomics::LedgerService;

fn upsert_args(id: &str, status: &str) -> SliceUpsertArgs {
    SliceUpsertArgs {
        id: id.into(),
        title: "t".into(),
        goal: "g".into(),
        target_paths: vec!["a.rs".into()],
        acceptance: "ok".into(),
        out_of_scope: "ui".into(),
        tests: vec![],
        max_files: default_files(),
        max_loc: default_loc(),
        blockers: String::new(),
        status: status.into(),
    }
}

fn recover_args(shape: &str) -> RecoverArgs {
    RecoverArgs { budget_chars: default_budget(), shape: shape.into() }
}

#[test]
fn defaults() {
    assert_eq!(default_status(), "active");
    assert_eq!(default_feature(), "feature");
    assert_eq!(default_budget(), 4000);
    assert_eq!(default_files(), 3);
    assert_eq!(default_loc(), 120);
}

#[test]
fn project_set_then_get() {
    let mut svc = LedgerService::new("root".into());
    let p = svc.project_set(ProjectSetArgs {
        goals: "g".into(),
        non_goals: "n".into(),
        status: default_status(),
    });
    assert_eq!(p.goals, "g");
    let (got, stats) = svc.project_get();
    assert_eq!(got.non_goals, "n");
    assert_eq!(stats.total_slices, 0);
}

#[test]
fn slice_upsert_rejects_bad_status() {
    let mut svc = LedgerService::new("root".into());
    let err = svc.slice_upsert(upsert_args("a", " maybe ")).unwrap_err();
    assert_eq!(
        err,
        ServiceError::InvalidParams("status must be open|blocked|done, got maybe".into())
    );
    assert!(svc.slice_next().is_none());
}

#[test]
fn slice_upsert_rejects_invalid_slice() {
    let mut svc = LedgerService::new("root".into());
    let mut a = upsert_args("a", "");
    a.out_of_scope = " ".into();
    let err = svc.slice_upsert(a).unwrap_err();
    assert!(matches!(err, ServiceError::InvalidParams(_)));
    let mut b = upsert_args("b", "");
    b.target_paths.clear();
    assert!(matches!(svc.slice_upsert(b), Err(ServiceError::InvalidParams(_))));
    assert!(svc.slice_next().is_none());
}

#[test]
fn slice_upsert_status_explicit_or_kept() {
    let mut svc = LedgerService::new("root".into());
    svc.slice_upsert(upsert_args("a", "")).unwrap();
    svc.slice_complete(SliceIdArgs { id: "a".into() }).unwrap();
    // no status given: the stored status stays
    let kept = svc.slice_upsert(upsert_args("a", "")).unwrap();
    assert_eq!(kept.status, SliceStatus::Done);
    // an explicit status replaces it
    let reopened = svc.slice_upsert(upsert_args("a", "Open")).unwrap();
    assert_eq!(reopened.status, SliceStatus::Open);
    assert_eq!(svc.slice_next().unwrap().id, "a");
}

#[test]
fn slice_complete_unknown() {
    let mut svc = LedgerService::new("root".into());
    let err = svc.slice_complete(SliceIdArgs { id: "nope".into() }).unwrap_err();
    assert_eq!(err, ServiceError::Internal("slice not found: nope".into()));
}

#[test]
fn attempts_and_adrs_through_service() {
    let mut svc = LedgerService::new("root".into());
    let a = svc.attempt_append(AttemptAppendArgs {
        slice_id: "s1".into(),
        summary: "tried X".into(),
        failure_mode: "compile_fail".into(),
        do_not_retry_without: "fix deps".into(),
    });
    assert!(a.id.starts_with("att-"));
    assert_eq!(svc.attempt_list().len(), 1);
    assert!(svc.adr_list().is_empty());
    let err = svc.adr_get(&AdrIdArgs { id: "001.md".into() }).unwrap_err();
    assert_eq!(err, ServiceError::Internal("slice not found: 001".into()));
}

#[test]
fn context_packet_for_ledger() {
    let mut svc = LedgerService::new("root".into());
    svc.slice_upsert(upsert_args("a", "")).unwrap();
    let pkt = svc.assemble_context(&recover_args("steward"));
    assert!(pkt.ok);
    assert_eq!(pkt.shape, "steward");
    assert_eq!(pkt.stable.current_slice.as_ref().unwrap().id, "a");
    assert_eq!(
        pkt.volatile.progress_excerpt,
        "current_slice: a\nstatus: tracking open slice\nblockers: none\n"
    );
    assert_eq!(pkt.volatile.stats.as_ref().unwrap().open, 1);
    let again = svc.recover_context(&recover_args("steward"));
    assert_eq!(again.fingerprint, pkt.fingerprint);
    let fp = svc.prefix_fingerprint(&recover_args("steward"));
    assert_eq!(fp.fingerprint, pkt.fingerprint);
    assert_eq!(fp.shape, "steward");
    // an unknown shape is a feature session
    let f = svc.prefix_fingerprint(&recover_args("nonsense"));
    assert_eq!(f.shape, "feature");
    assert_eq!(f.fingerprint, svc.prefix_fingerprint(&recover_args("feature")).fingerprint);
}

#[test]
fn fingerprint_stable_across_attempts() {
    let mut svc = LedgerService::new("root".into());
    svc.slice_upsert(upsert_args("a", "")).unwrap();
    let before = svc.prefix_fingerprint(&recover_args("feature")).fingerprint;
    svc.attempt_append(AttemptAppendArgs {
        slice_id: "a".into(),
        summary: "s".into(),
        failure_mode: "f".into(),
        do_not_retry_without: "d".into(),
    });
    let pkt = svc.assemble_context(&recover_args("feature"));
    assert_eq!(pkt.fingerprint, before);
    assert_eq!(pkt.volatile.latest_attempt.as_ref().unwrap().summary, "s");
}

#[test]
fn resources() {
    let mut svc = LedgerService::new("root".into());
    svc.slice_upsert(upsert_args("a", "")).unwrap();
    match svc.read_resource("ledger://project").unwrap() {
        ResourceBody::Project(p) => assert_eq!(p.status, "active"),
        _ => panic!("expected the project"),
    }
    match svc.read_resource("ledger://slice/current").unwrap() {
        ResourceBody::CurrentSlice(s) => assert_eq!(s.unwrap().id, "a"),
        _ => panic!("expected the current slice"),
    }
    let err = svc.read_resource("ledger://other").unwrap_err();
    assert_eq!(err, ServiceError::ResourceNotFound("unknown resource ledger://other".into()));
}

fn scope_args(commit: bool, non_goals: &str) -> ScopeEpicArgs {
    ScopeEpicArgs {
        brief: "Ship scope_epic".into(),
        goals: "scope from one prompt".into(),
        non_goals: non_goals.into(),
        slices: vec![ScopeSliceDraft {
            id: "s1".into(),
            title: "tool".into(),
            goal: "wire tool".into(),
            target_paths: vec!["src/scope.rs".into()],
            acceptance: "tests green".into(),
            out_of_scope: "SDK".into(),
            tests: vec![],
            max_files: 3,
            max_loc: 120,
        }],
        commit,
    }
}

#[test]
fn scope_epic_commit_writes_ledger() {
    let mut svc = LedgerService::new("root".into());
    let r = svc.scope_epic(scope_args(true, "LLM inside MCP"));
    assert!(r.ok);
    assert!(r.committed);
    assert_eq!(r.status, "committed");
    let (p, stats) = svc.project_get();
    assert_eq!(p.goals, "scope from one prompt");
    assert_eq!(p.non_goals, "LLM inside MCP");
    assert_eq!(stats.total_slices, 1);
    assert_eq!(svc.slice_next().unwrap().id, "s1");
}

#[test]
fn scope_epic_commit_ignored_when_unclear() {
    let mut svc = LedgerService::new("root".into());
    let r = svc.scope_epic(scope_args(true, ""));
    assert!(!r.ok);
    assert!(!r.committed);
    assert_eq!(
        r.message,
        "commit=true ignored: resolve clarifications (ask the user) then retry."
    );
    assert_eq!(svc.project_get().1.total_slices, 0);
    let preview = svc.scope_epic(scope_args(false, "LLM inside MCP"));
    assert!(preview.ok);
    assert!(!preview.committed);
    assert!(svc.slice_next().is_none());
}

#[test]
fn slice_upsert_keeps_project_and_moves_pointer() {
    let mut svc = LedgerService::new("root".into());
    svc.project_set(ProjectSetArgs { goals: "g".into(), non_goals: "n".into(), status: "active".into() });
    svc.slice_upsert(upsert_args("a", "")).unwrap();
    let (p, _) = svc.project_get();
    assert_eq!(p.goals, "g");
    assert_eq!(p.non_goals, "n");
    let store = svc.into_store();
    let progress = store.load_progress();
    assert_eq!(progress.current_slice, "a");
    assert_eq!(progress.status, "tracking open slice");
}

#[test]
fn scope_commit_points_at_first_slice() {
    let mut svc = LedgerService::new("root".into());
    let r = svc.scope_epic(scope_args(true, "LLM inside MCP"));
    assert!(r.committed);
    let store = svc.into_store();
    assert_eq!(store.load_progress().current_slice, "s1");
    assert_eq!(
        store.read_progress().unwrap(),
        "current_slice: s1\nstatus: tracking open slice\nblockers: none\n"
    );
}
