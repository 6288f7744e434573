use ledgernomics::recover::{
    assemble_context, build_stable, fingerprint_stable, recover_context, VolatileInputs, HOST_HINT,
};
use ledgernomics::schema::{Project, SessionShape, Slice, SliceStatus};
use ledgernomics::store::{Attempt, LedgerStats};
use std::hash::{Hash, Hasher};

fn slice() -> Slice {
    Slice {
        id: "led001".into(),
        title: "t".into(),
        goal: "g".into(),
        target_paths: vec!["a.rs".into()],
        acceptance: "ok".into(),
        out_of_scope: "ui".into(),
        tests: vec![],
        max_files: 3,
        max_loc: 120,
        status: SliceStatus::Open,
        blockers: "none".into(),
    }
}

fn project() -> Project {
    Project {
        goals: "x".into(),
        non_goals: "y".into(),
        status: "active".into(),
    }
}

fn attempt() -> Attempt {
    Attempt {
        id: "att-1-2".into(),
        slice_id: "led001".into(),
        summary: "tried X".into(),
        failure_mode: "compile_fail".into(),
        do_not_retry_without: "fix deps".into(),
        created_unix: 1,
    }
}

fn stats() -> LedgerStats {
    LedgerStats {
        total_slices: 1,
        open: 1,
        done: 0,
        blocked: 0,
        median_max_files_on_done_x2: None,
        note: "n".into(),
    }
}

#[test]
fn recover_includes_out_of_scope() {
    let p = project();
    let s = slice();
    let pkt = recover_context(&p, Some(&s), "progress", SessionShape::Feature, 8000);
    assert!(pkt.ok);
    assert_eq!(
        pkt.stable.current_slice.as_ref().unwrap().out_of_scope,
        "ui"
    );
    assert_eq!(pkt.stable.goals, "x");
    assert!(pkt.fingerprint.starts_with("fp-"));
    assert!(!pkt.host_hint.is_empty());
}

#[test]
fn fingerprint_ignores_volatile_progress() {
    let p = project();
    let s = slice();
    let a = recover_context(&p, Some(&s), "progress-a", SessionShape::Feature, 8000);
    let b = recover_context(
        &p,
        Some(&s),
        "progress-b-changed",
        SessionShape::Feature,
        8000,
    );
    assert_eq!(a.fingerprint, b.fingerprint);
    assert_ne!(a.volatile.progress_excerpt, b.volatile.progress_excerpt);
}

#[test]
fn fingerprint_changes_when_goals_change() {
    let mut p = project();
    let s = slice();
    let a = recover_context(&p, Some(&s), "p", SessionShape::Feature, 8000);
    p.goals = "changed".into();
    let b = recover_context(&p, Some(&s), "p", SessionShape::Feature, 8000);
    assert_ne!(a.fingerprint, b.fingerprint);
}

#[test]
fn tiny_budget_exceeded_still_returns_critical() {
    let p = Project::default();
    let s = slice();
    let pkt = recover_context(&p, Some(&s), "progress text", SessionShape::Feature, 10);
    assert!(!pkt.ok);
    assert_eq!(pkt.status, "BUDGET_EXCEEDED");
    assert_eq!(
        pkt.stable.current_slice.as_ref().unwrap().out_of_scope,
        "ui"
    );
}

#[test]
fn budget_exceeded_reports_critical_size() {
    let pkt = recover_context(&project(), Some(&slice()), "p", SessionShape::Feature, 10);
    assert_eq!(pkt.omissions.len(), 1);
    let expected = format!("critical_packet_chars={}", pkt.used_chars);
    assert_eq!(pkt.omissions[0], expected);
    assert_eq!(
        pkt.message,
        format!("BUDGET_EXCEEDED: critical context is {} chars > budget 10", pkt.used_chars)
    );
    assert!(pkt.used_chars > 10);
    assert_eq!(pkt.volatile.progress_excerpt, "");
}

#[test]
fn fingerprint_is_fp_and_sixteen_hex_digits() {
    let pkt = recover_context(&project(), Some(&slice()), "p", SessionShape::Feature, 8000);
    assert_eq!(pkt.fingerprint.len(), 19);
    assert!(pkt.fingerprint[3..]
        .chars()
        .all(|c| c.is_ascii_digit() || ('a'..='f').contains(&c)));
    let stable = build_stable(&project(), Some(&slice()), SessionShape::Feature);
    assert_eq!(fingerprint_stable(&stable), pkt.fingerprint);
}

#[test]
fn fingerprint_changes_with_slice_and_shape() {
    let p = project();
    let s = slice();
    let a = recover_context(&p, Some(&s), "p", SessionShape::Feature, 8000);
    let b = recover_context(&p, Some(&s), "p", SessionShape::Steward, 8000);
    let c = recover_context(&p, None, "p", SessionShape::Feature, 8000);
    assert_ne!(a.fingerprint, b.fingerprint);
    assert_ne!(a.fingerprint, c.fingerprint);
}

#[test]
fn fingerprint_ignores_budget_attempt_and_stats() {
    let p = project();
    let s = slice();
    let a = recover_context(&p, Some(&s), "p", SessionShape::Feature, 8000);
    let at = attempt();
    let st = stats();
    let b = assemble_context(
        &p,
        Some(&s),
        SessionShape::Feature,
        100000,
        VolatileInputs { progress: "other", latest_attempt: Some(&at), stats: Some(&st) },
    );
    assert_eq!(a.fingerprint, b.fingerprint);
}

#[test]
fn steward_carries_priority() {
    let pkt = recover_context(&project(), None, "p", SessionShape::Steward, 8000);
    assert!(pkt.ok);
    assert_eq!(pkt.shape, "steward");
    assert!(pkt.stable.steward_priority.is_some());
    let f = recover_context(&project(), None, "p", SessionShape::Feature, 8000);
    assert_eq!(f.shape, "feature");
    assert!(f.stable.steward_priority.is_none());
}

#[test]
fn ok_packet_fields() {
    let pkt = recover_context(&project(), Some(&slice()), "progress", SessionShape::Feature, 8000);
    assert_eq!(pkt.status, "ok");
    assert_eq!(pkt.budget_chars, 8000);
    assert_eq!(pkt.host_hint, HOST_HINT);
    assert_eq!(pkt.message, "assembled cache-aware context");
    assert!(pkt.omissions.is_empty());
    assert_eq!(pkt.volatile.progress_excerpt, "progress");
    assert!(pkt.used_chars > 0 && pkt.used_chars <= 8000);
}

#[test]
fn progress_excerpt_is_first_400_chars() {
    let long: String = "é".repeat(450);
    let pkt = recover_context(&project(), None, &long, SessionShape::Feature, 100000);
    assert!(pkt.ok);
    assert_eq!(pkt.volatile.progress_excerpt.chars().count(), 400);
    assert_eq!(pkt.volatile.progress_excerpt, "é".repeat(400));
}

#[test]
fn volatile_parts_dropped_for_budget_are_listed() {
    let p = project();
    let s = slice();
    let base = recover_context(&p, Some(&s), "", SessionShape::Feature, 100000);
    let core = base.used_chars;
    let progress = "z".repeat(300);
    let at = attempt();
    let st = stats();
    // room for the critical part only
    let pkt = assemble_context(
        &p,
        Some(&s),
        SessionShape::Feature,
        core + 5,
        VolatileInputs { progress: &progress, latest_attempt: Some(&at), stats: Some(&st) },
    );
    assert!(pkt.ok);
    assert_eq!(pkt.volatile.progress_excerpt, "");
    assert!(pkt.volatile.latest_attempt.is_none());
    assert!(pkt.volatile.stats.is_none());
    assert_eq!(pkt.omissions, vec!["progress_excerpt", "latest_attempt", "stats"]);
}

#[test]
fn volatile_parts_kept_when_they_fit() {
    let at = attempt();
    let st = stats();
    let pkt = assemble_context(
        &project(),
        Some(&slice()),
        SessionShape::Feature,
        100000,
        VolatileInputs { progress: "p", latest_attempt: Some(&at), stats: Some(&st) },
    );
    assert!(pkt.ok);
    let head = pkt.volatile.latest_attempt.as_ref().unwrap();
    assert_eq!(head.id, "att-1-2");
    assert_eq!(head.failure_mode, "compile_fail");
    assert_eq!(pkt.volatile.stats.as_ref().unwrap().open, 1);
    assert!(pkt.omissions.is_empty());
}

#[test]
fn json_escaping_counts_in_used_chars() {
    // A quote in the goals is written as two characters in the packet's JSON.
    let mut plain = project();
    plain.goals = "abc".into();
    let mut quoted = project();
    quoted.goals = "a\"c".into();
    let a = recover_context(&plain, None, "", SessionShape::Feature, 100000);
    let b = recover_context(&quoted, None, "", SessionShape::Feature, 100000);
    assert_eq!(b.used_chars, a.used_chars + 1);
    let mut nl = project();
    nl.goals = "a\u{1}c".into();
    let c = recover_context(&nl, None, "", SessionShape::Feature, 100000);
    assert_eq!(c.used_chars, a.used_chars + 5);
}

#[test]
fn fingerprint_hashes_stable_json() {
    let body = "{\"project_status\":\"active\",\"goals\":\"x\",\"non_goals\":\"y\",\"current_slice\":{\"id\":\"led001\",\"title\":\"t\",\"goal\":\"g\",\"acceptance\":\"ok\",\"out_of_scope\":\"ui\",\"target_paths\":[\"a.rs\"],\"max_files\":3,\"max_loc\":120,\"status\":\"open\",\"blockers\":\"none\"}}";
    let mut h = std::collections::hash_map::DefaultHasher::new();
    body.to_string().hash(&mut h);
    let expected = format!("fp-{:016x}", h.finish());
    let pkt = recover_context(&project(), Some(&slice()), "p", SessionShape::Feature, 8000);
    assert_eq!(pkt.fingerprint, expected);
}

#[test]
fn used_chars_counts_packet_json() {
    let pkt = recover_context(&Project::default(), None, "", SessionShape::Feature, 100000);
    let text = format!(
        "{{\"ok\":true,\"budget_chars\":100000,\"used_chars\":0,\"status\":\"ok\",\"shape\":\"feature\",\"fingerprint\":\"{}\",\"host_hint\":\"{}\",\"stable\":{{\"project_status\":\"active\",\"goals\":\"\",\"non_goals\":\"\",\"current_slice\":null}},\"volatile\":{{\"progress_excerpt\":\"\"}},\"omissions\":[],\"message\":\"assembled cache-aware context\"}}",
        pkt.fingerprint, HOST_HINT
    );
    assert_eq!(pkt.used_chars, text.chars().count());
}

#[test]
fn stats_median_in_packet_json() {
    // the median 4.5 is written as `4.5`, an even one as `3.0`
    let mut st = stats();
    let base = assemble_context(
        &project(),
        None,
        SessionShape::Feature,
        100000,
        VolatileInputs { progress: "", latest_attempt: None, stats: Some(&st) },
    );
    st.median_max_files_on_done_x2 = Some(9);
    let half = assemble_context(
        &project(),
        None,
        SessionShape::Feature,
        100000,
        VolatileInputs { progress: "", latest_attempt: None, stats: Some(&st) },
    );
    st.median_max_files_on_done_x2 = Some(6);
    let whole = assemble_context(
        &project(),
        None,
        SessionShape::Feature,
        100000,
        VolatileInputs { progress: "", latest_attempt: None, stats: Some(&st) },
    );
    // `null` has four characters, `4.5` and `3.0` three
    assert_eq!(half.used_chars + 1, base.used_chars);
    assert_eq!(whole.used_chars + 1, base.used_chars);
    assert_eq!(serde_json::to_string(&4.5f64).unwrap(), "4.5");
    assert_eq!(serde_json::to_string(&3.0f64).unwrap(), "3.0");
    let big = serde_json::to_string(&(u32::MAX as f64)).unwrap();
    st.median_max_files_on_done_x2 = Some(2 * u32::MAX as u64);
    let top = assemble_context(
        &project(),
        None,
        SessionShape::Feature,
        100000,
        VolatileInputs { progress: "", latest_attempt: None, stats: Some(&st) },
    );
    assert_eq!(top.used_chars + 4, base.used_chars + big.len());
}
