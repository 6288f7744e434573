use ledgernomics::scope::{cuts_cleanly, project_from_scope, scope_epic, ScopeInput, ScopeSliceDraft};
use ledgernomics::schema::SliceStatus;

fn draft(id: &str, out_of_scope: &str) -> ScopeSliceDraft {
    ScopeSliceDraft {
        id: id.into(),
        title: "t".into(),
        goal: "g".into(),
        target_paths: vec!["a.rs".into()],
        acceptance: "ok".into(),
        out_of_scope: out_of_scope.into(),
        tests: vec![],
        max_files: 3,
        max_loc: 120,
    }
}

#[test]
fn brief_only_needs_clarification() {
    let r = scope_epic(ScopeInput {
        brief: "Build a cache-aware ledger for agents.".into(),
        goals: String::new(),
        non_goals: String::new(),
        slices: vec![],
        commit: false,
    });
    assert!(!r.ok);
    assert_eq!(r.status, "needs_clarification");
    assert!(!r.goals.is_empty());
    assert!(r.clarifications.iter().any(|c| c.field == "non_goals"));
    assert!(!r.committed);
}

#[test]
fn full_draft_preview_ok() {
    let r = scope_epic(ScopeInput {
        brief: "Ship scope_epic".into(),
        goals: "scope from one prompt".into(),
        non_goals: "LLM inside MCP".into(),
        slices: vec![ScopeSliceDraft {
            id: "s1".into(),
            title: "tool".into(),
            goal: "wire tool".into(),
            target_paths: vec!["src/scope.rs".into()],
            acceptance: "tests green".into(),
            out_of_scope: "SDK".into(),
            tests: vec![],
            max_files: 3,
            max_loc: 120,
        }],
        commit: false,
    });
    assert!(r.ok);
    assert_eq!(r.status, "preview");
    assert_eq!(r.slices.len(), 1);
}

#[test]
fn invalid_slice_clarifies() {
    let r = scope_epic(ScopeInput {
        brief: "x".into(),
        goals: "g".into(),
        non_goals: "n".into(),
        slices: vec![ScopeSliceDraft {
            id: "s1".into(),
            title: "t".into(),
            goal: "g".into(),
            target_paths: vec!["a.rs".into()],
            acceptance: "ok".into(),
            out_of_scope: String::new(),
            tests: vec![],
            max_files: 3,
            max_loc: 120,
        }],
        commit: true,
    });
    assert!(!r.ok);
    assert!(r.clarifications.iter().any(|c| c.field.contains("s1")));
}

#[test]
fn invalid_slice_field_and_question() {
    let r = scope_epic(ScopeInput {
        brief: "x".into(),
        goals: "g".into(),
        non_goals: "n".into(),
        slices: vec![draft("ok1", "ui"), draft("s2", " ")],
        commit: false,
    });
    assert_eq!(r.clarifications.len(), 1);
    assert_eq!(r.clarifications[0].field, "slices[1].s2");
    assert_eq!(
        r.clarifications[0].question,
        "Slice `s2` invalid: out_of_scope is required. Fix acceptance, paths, out_of_scope."
    );
    assert_eq!(r.status, "needs_clarification");
}

#[test]
fn ready_to_commit_when_asked() {
    let r = scope_epic(ScopeInput {
        brief: "  b  ".into(),
        goals: " g ".into(),
        non_goals: "n".into(),
        slices: vec![draft("s1", "ui")],
        commit: true,
    });
    assert!(r.ok);
    assert_eq!(r.status, "ready_to_commit");
    assert_eq!(r.brief, "b");
    assert_eq!(r.goals, "g");
    assert_eq!(r.message, "Scope valid; caller should persist via store commit.");
    assert!(r.host_hint.starts_with("On a single epic prompt"));
}

#[test]
fn empty_brief_is_asked_for_once() {
    let r = scope_epic(ScopeInput {
        brief: "   ".into(),
        goals: String::new(),
        non_goals: String::new(),
        slices: vec![],
        commit: false,
    });
    let fields: Vec<&str> = r.clarifications.iter().map(|c| c.field.as_str()).collect();
    assert_eq!(fields, vec!["brief", "non_goals", "goals", "slices"]);
    assert_eq!(
        r.clarifications[1].question,
        "What should we explicitly not do (non-goals / out of scope for the epic)?"
    );
}

#[test]
fn brief_sections_and_list_items() {
    let brief = "Epic title\n\nGoals: ship the ledger\nkeep it small\n\nNon-goals: no UI\n- first item\n* second item\n3. third item\n-\n12x. not an item";
    let r = scope_epic(ScopeInput {
        brief: brief.into(),
        goals: String::new(),
        non_goals: String::new(),
        slices: vec![],
        commit: false,
    });
    assert_eq!(r.goals, "ship the ledger\nkeep it small");
    // a section runs on to the next blank line or section marker
    assert_eq!(
        r.non_goals,
        "no UI\n- first item\n* second item\n3. third item\n-\n12x. not an item"
    );
    let ids: Vec<&str> = r.slices.iter().map(|s| s.id.as_str()).collect();
    assert_eq!(ids, vec!["scp007", "scp008", "scp009"]);
    assert_eq!(r.slices[0].title, "first item");
    assert_eq!(r.slices[0].goal, "first item");
    assert_eq!(r.slices[2].title, "third item");
    assert_eq!(r.slices[0].status, SliceStatus::Open);
    assert_eq!(r.slices[0].max_files, 3);
    assert_eq!(r.slices[0].max_loc, 120);
    // provisional slices lack acceptance, so each is asked about
    assert!(r.clarifications.iter().any(|c| c.field == "slices"));
    assert!(r.clarifications.iter().any(|c| c.field == "slices[0].scp007"));
    assert!(!r.ok);
}

#[test]
fn goals_drafted_from_first_paragraph() {
    let r = scope_epic(ScopeInput {
        brief: "\n\n  First para line.  \n\nSecond para.".into(),
        goals: String::new(),
        non_goals: "n".into(),
        slices: vec![draft("s1", "ui")],
        commit: false,
    });
    assert_eq!(r.goals, "First para line.");
    assert_eq!(
        r.clarifications[0].question,
        "Confirm or rewrite goals (drafted from brief): First para line."
    );
    assert_eq!(r.clarifications[0].field, "goals");
}

#[test]
fn long_list_item_is_skipped() {
    let long = "x".repeat(201);
    let r = scope_epic(ScopeInput {
        brief: format!("- {long}\n- é{}", "y".repeat(198)),
        goals: "g".into(),
        non_goals: "n".into(),
        slices: vec![],
        commit: false,
    });
    // the second item is 199 characters but 200 bytes: kept
    assert_eq!(r.slices.len(), 1);
    assert_eq!(r.slices[0].id, "scp002");
}

#[test]
fn blank_title_and_goal_are_filled() {
    let mut d = draft("s9", "ui");
    d.title = " ".into();
    d.goal = String::new();
    let r = scope_epic(ScopeInput {
        brief: "b".into(),
        goals: "g".into(),
        non_goals: "n".into(),
        slices: vec![d],
        commit: false,
    });
    assert_eq!(r.slices[0].title, "s9");
    assert_eq!(r.slices[0].goal, "s9");
    assert!(r.slices[0].blockers.is_empty());
}

#[test]
fn project_from_scope_is_active() {
    let r = scope_epic(ScopeInput {
        brief: "b".into(),
        goals: "g".into(),
        non_goals: "n".into(),
        slices: vec![draft("s1", "ui")],
        commit: false,
    });
    let p = project_from_scope(&r);
    assert_eq!(p.goals, "g");
    assert_eq!(p.non_goals, "n");
    assert_eq!(p.status, "active");
}

#[test]
fn sections_stop_at_markers() {
    let r = scope_epic(ScopeInput {
        brief: "Goals: a\nb\nnon-goals: c\nd\nSlices:\n- x".into(),
        goals: String::new(),
        non_goals: String::new(),
        slices: vec![],
        commit: false,
    });
    assert_eq!(r.goals, "a\nb");
    assert_eq!(r.non_goals, "c\nd");
    let ids: Vec<&str> = r.slices.iter().map(|s| s.id.as_str()).collect();
    assert_eq!(ids, vec!["scp006"]);
}

#[test]
fn crlf_section_end_counts_bytes() {
    // Each "\r\n" line before the last leaves the end one byte short, so the
    // cut falls two bytes (here the two-byte 'é') before the end.
    let input = ScopeInput {
        brief: "Goals: a\r\nb\r\nc\r\nxyé".into(),
        goals: String::new(),
        non_goals: "n".into(),
        slices: vec![draft("s1", "ui")],
        commit: false,
    };
    assert!(input.cuts_cleanly());
    let r = scope_epic(input);
    assert_eq!(r.goals, "a\r\nb\r\nc\r\nxy");
}

#[test]
fn crlf_cut_inside_character_is_refused() {
    let input = ScopeInput {
        brief: "Goals: a\r\nb\r\ncé".into(),
        goals: String::new(),
        non_goals: "n".into(),
        slices: vec![draft("s1", "ui")],
        commit: false,
    };
    assert!(!input.cuts_cleanly());
    assert!(!cuts_cleanly("Goals: a\r\nb\r\ncé", "", "n", 1));
    // nothing is parsed from the brief when goals, non-goals and slices are given
    assert!(cuts_cleanly("Goals: a\r\nb\r\ncé", "g", "n", 1));
    // a brief with plain newlines always cuts cleanly
    assert!(cuts_cleanly("Goals: a\nb\ncé\n\nNon-goals: é", "", "", 0));
}
