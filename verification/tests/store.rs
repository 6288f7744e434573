use ledgernomics::schema::{Project, Slice, SliceStatus};
use ledgernomics::store::{median_u32, AdrDoc, LedgerStore, StoreError};

fn sample(status: SliceStatus) -> Slice {
    Slice {
        id: "led001".into(),
        title: "t".into(),
        goal: "g".into(),
        target_paths: vec!["a.rs".into()],
        acceptance: "ok".into(),
        out_of_scope: "ui".into(),
        tests: vec![],
        max_files: 3,
        max_loc: 120,
        status,
        blockers: String::new(),
    }
}

fn with_id(id: &str, status: SliceStatus, max_files: u32) -> Slice {
    let mut s = sample(status);
    s.id = id.into();
    s.max_files = max_files;
    s
}

fn store_with_adrs(adrs: Vec<AdrDoc>) -> LedgerStore {
    let base = LedgerStore::new("root".into());
    LedgerStore::from_parts(
        "root".into(),
        base.load_project().unwrap(),
        base.load_slices().unwrap(),
        base.load_progress(),
        Vec::new(),
        adrs,
    )
}

#[test]
fn roundtrip_and_progress_on_upsert() {
    let mut store = LedgerStore::new("root".into());
    store
        .save_project(&Project {
            goals: "ship ledger".into(),
            non_goals: "maker".into(),
            status: "active".into(),
        })
        .unwrap();
    assert_eq!(store.load_project().unwrap().goals, "ship ledger");
    store.upsert_slice(sample(SliceStatus::Open)).unwrap();
    let cur = store.current_slice().unwrap().unwrap();
    assert_eq!(cur.id, "led001");
    store.complete_slice("led001").unwrap();
    assert!(store.next_open_slice().unwrap().is_none());
}

#[test]
fn upsert_preserves_done_status() {
    let mut store = LedgerStore::new("root".into());
    store.upsert_slice(sample(SliceStatus::Open)).unwrap();
    store.complete_slice("led001").unwrap();
    let mut again = sample(SliceStatus::Open);
    again.title = "retitled".into();
    let saved = store.upsert_slice_ex(again, false).unwrap();
    assert_eq!(saved.status, SliceStatus::Done);
    assert_eq!(saved.title, "retitled");
    let reopened = store
        .upsert_slice_ex(sample(SliceStatus::Open), true)
        .unwrap();
    assert_eq!(reopened.status, SliceStatus::Open);
}

#[test]
fn fresh_ledger_is_idle() {
    let store = LedgerStore::new("root".into());
    assert_eq!(
        store.read_progress().unwrap(),
        "current_slice: (none)\nstatus: idle\nblockers: none\n"
    );
    assert!(store.current_slice().unwrap().is_none());
    assert!(store.load_slices().unwrap().is_empty());
    assert_eq!(store.load_project().unwrap().status, "active");
}

#[test]
fn ledger_dir_joins_root() {
    assert_eq!(LedgerStore::new("root".into()).ledger_dir(), "root/.ledgernomics");
    assert_eq!(LedgerStore::new("root/".into()).ledger_dir(), "root/.ledgernomics");
    assert_eq!(LedgerStore::new(String::new()).ledger_dir(), ".ledgernomics");
}

#[test]
fn upsert_moves_pointer_to_first_open() {
    let mut store = LedgerStore::new("root".into());
    store.upsert_slice(with_id("a", SliceStatus::Blocked, 1)).unwrap();
    assert_eq!(store.load_progress().current_slice, "(none)");
    store.upsert_slice(with_id("b", SliceStatus::Open, 1)).unwrap();
    let p = store.load_progress();
    assert_eq!(p.current_slice, "b");
    assert_eq!(p.status, "tracking open slice");
    // a second open slice leaves the pointer where it is
    store.upsert_slice(with_id("c", SliceStatus::Open, 1)).unwrap();
    assert_eq!(store.load_progress().current_slice, "b");
    assert_eq!(store.load_slices().unwrap().len(), 3);
}

#[test]
fn complete_advances_pointer() {
    let mut store = LedgerStore::new("root".into());
    store.upsert_slice(with_id("a", SliceStatus::Open, 1)).unwrap();
    store.upsert_slice(with_id("b", SliceStatus::Open, 1)).unwrap();
    let done = store.complete_slice("a").unwrap();
    assert_eq!(done.status, SliceStatus::Done);
    let p = store.load_progress();
    assert_eq!(p.current_slice, "b");
    assert_eq!(p.status, "advanced after completing `a`");
    assert_eq!(p.blockers, "none");
    assert_eq!(store.current_slice().unwrap().unwrap().id, "b");
    store.complete_slice("b").unwrap();
    assert_eq!(store.load_progress().current_slice, "(none)");
}

#[test]
fn complete_unknown_is_not_found() {
    let mut store = LedgerStore::new("root".into());
    store.upsert_slice(with_id("a", SliceStatus::Open, 1)).unwrap();
    let before = store.read_progress().unwrap();
    let err = store.complete_slice("zzz").unwrap_err();
    assert_eq!(err, StoreError::NotFound("zzz".into()));
    assert_eq!(err.message(), "slice not found: zzz");
    assert_eq!(store.read_progress().unwrap(), before);
}

#[test]
fn store_error_messages() {
    assert_eq!(StoreError::Io("disk".into()).message(), "io: disk");
    assert_eq!(StoreError::Yaml("bad".into()).message(), "yaml: bad");
}

#[test]
fn attempts_listed_newest_first() {
    let mut store = LedgerStore::new("root".into());
    let a = store.record_attempt("s1", "one", "f", "d", 5, 7);
    assert_eq!(a.id, "att-5-7");
    assert_eq!(a.created_unix, 5);
    store.record_attempt("s1", "two", "f", "d", 9, 0);
    store.record_attempt("s1", "three", "f", "d", 5, 8);
    let list = store.list_attempts().unwrap();
    let ids: Vec<&str> = list.iter().map(|a| a.id.as_str()).collect();
    assert_eq!(ids, vec!["att-9-0", "att-5-7", "att-5-8"]);
    assert_eq!(store.attempts().len(), 3);
}

#[test]
fn appended_attempt_has_time_id() {
    let mut store = LedgerStore::new("root".into());
    let a = store.append_attempt("s1", "tried X", "compile_fail", "fix deps").unwrap();
    assert!(a.id.starts_with("att-"));
    assert!(a.id.starts_with(&format!("att-{}-", a.created_unix)));
    assert!(a.created_unix > 1_600_000_000);
    assert_eq!(a.slice_id, "s1");
    assert_eq!(a.do_not_retry_without, "fix deps");
    assert_eq!(store.list_attempts().unwrap().len(), 1);
}

#[test]
fn adrs_sorted_and_summarised() {
    let store = store_with_adrs(vec![
        AdrDoc { id: "002-b".into(), text: "no heading here\n".into() },
        AdrDoc { id: "001-a".into(), text: "intro\n#  Alpha Title  \nbody".into() },
    ]);
    let list = store.list_adrs().unwrap();
    assert_eq!(list.len(), 2);
    assert_eq!(list[0].id, "001-a");
    assert_eq!(list[0].title, "Alpha Title");
    assert_eq!(list[0].path, ".ledgernomics/adr/001-a.md");
    assert_eq!(list[1].id, "002-b");
    assert_eq!(list[1].title, "002-b");
    assert_eq!(list[1].excerpt, "no heading here\n");
}

#[test]
fn adr_excerpt_limits() {
    let long = "x".repeat(1000);
    let store = store_with_adrs(vec![AdrDoc { id: "003".into(), text: long.clone() }]);
    assert_eq!(store.list_adrs().unwrap()[0].excerpt.len(), 400);
    assert_eq!(store.get_adr("003").unwrap().excerpt.len(), 800);
}

#[test]
fn get_adr_trims_and_strips_md() {
    let store = store_with_adrs(vec![AdrDoc {
        id: "001-demo".into(),
        text: "# Demo ADR\n\nBody here.\n".into(),
    }]);
    let a = store.get_adr("  001-demo.md ").unwrap();
    assert_eq!(a.id, "001-demo");
    assert_eq!(a.title, "Demo ADR");
    let err = store.get_adr("missing.md.md").unwrap_err();
    assert_eq!(err, StoreError::NotFound("missing".into()));
}

#[test]
fn stats_counts_and_median() {
    let mut store = LedgerStore::new("root".into());
    store.upsert_slice(with_id("a", SliceStatus::Done, 2)).unwrap();
    store.upsert_slice(with_id("b", SliceStatus::Done, 7)).unwrap();
    store.upsert_slice(with_id("c", SliceStatus::Open, 1)).unwrap();
    store.upsert_slice(with_id("d", SliceStatus::Blocked, 1)).unwrap();
    let st = store.stats().unwrap();
    assert_eq!(st.total_slices, 4);
    assert_eq!(st.done, 2);
    assert_eq!(st.open, 1);
    assert_eq!(st.blocked, 1);
    // median of 2 and 7 is 4.5
    assert_eq!(st.median_max_files_on_done_x2, Some(9));
    assert_eq!(
        st.note,
        "median_max_files_on_done uses declared max_files, not measured diff."
    );
    let empty = LedgerStore::new("root".into()).stats().unwrap();
    assert_eq!(empty.median_max_files_on_done_x2, None);
}

#[test]
fn median_odd_and_even() {
    assert_eq!(median_u32(&vec![5, 1, 3]), Some(6));
    assert_eq!(median_u32(&vec![4, 1, 3, 2]), Some(5));
    assert_eq!(median_u32(&vec![]), None);
    assert_eq!(median_u32(&vec![u32::MAX, u32::MAX]), Some(2 * u32::MAX as u64));
}

#[test]
fn adr_key_trims_and_strips_md() {
    assert_eq!(ledgernomics::store::adr_key("  sub/x.md.md "), "sub/x");
    assert_eq!(ledgernomics::store::adr_key("001"), "001");
    // an ADR below `adr/` is found by its relative id
    let store = store_with_adrs(vec![AdrDoc { id: "sub/x".into(), text: "# Nested\n".into() }]);
    assert_eq!(store.get_adr("sub/x.md").unwrap().title, "Nested");
    assert_eq!(store.get_adr("sub/x").unwrap().path, ".ledgernomics/adr/sub/x.md");
}
