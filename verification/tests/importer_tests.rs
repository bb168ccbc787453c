use github_importer::github::{CreatedIssue, GithubError, Issue};
use github_importer::importer::{
    cache_issue_ids, has_links, issue_action, issue_log, label_log, labels_to_create, link_result, project_action,
    project_failure, record_created, record_db_lookup, record_link, record_node_lookup, record_project_item,
    relationship_links, skipped_issue, unresolved_link, would_create_issue, first_line_of, ImportEvent, ImportOptions,
    ImportSummary, IssueAction, LinkKind, LinkResult, NullSink, Phase, ProgressSink, ProjectAction, TaskStatus, VecSink,
    project_dry_run, project_phase_start, relationship_phase_start, relationship_step, PhaseStart, RelationshipStep,
};
use github_importer::state::ImportState;
use github_importer::strmap::StrMap;
use github_importer::tasks::{RelationshipErrors, Settings};

fn settings() -> Settings {
    Settings {
        relationship_errors: RelationshipErrors::Strict,
        relationship_errors_source: "default".into(),
        skip_relationships: false,
        skip_relationships_source: "default".into(),
        warnings: Vec::new(),
    }
}

fn summary_with(applied: usize, already: usize, failed: usize, created: usize, total: usize) -> ImportSummary {
    ImportSummary {
        created,
        tracked_count: total,
        relationships_applied: applied,
        relationships_already: already,
        relationships_failed: failed,
        already_ids: vec!["A-001 (parent)".into()],
        failed_ids: if failed > 0 { vec!["B-001 (blocked-by)".into()] } else { vec![] },
        ..Default::default()
    }
}

fn map(pairs: &[(&str, u64)]) -> StrMap<u64> {
    let mut m = StrMap::new();
    for (k, v) in pairs {
        m.insert(k.to_string(), *v);
    }
    m
}

#[test]
fn summary_matches_the_cli_closing_lines() {
    let s = summary_with(84, 5, 0, 3, 89);
    let text = s.to_cli_output(false);
    assert!(text.contains("Already set (5): A-001 (parent)"));
    assert!(text.contains("Relationships: 84 applied, 5 already set, 0 failed."));
    assert!(text.contains("Done. Created 3; tracked 89 tasks."));
    assert!(!text.contains("Failed ("));
}

#[test]
fn summary_reports_failures_when_there_are_any() {
    let s = summary_with(10, 1, 2, 1, 12);
    let text = s.to_cli_output(false);
    assert!(text.contains("Failed (2): B-001 (blocked-by)"));
}

#[test]
fn summary_says_none_when_nothing_was_already_set() {
    let mut s = summary_with(10, 0, 0, 1, 12);
    s.already_ids.clear();
    assert!(s.to_cli_output(false).contains("Already set (0): none"));
}

#[test]
fn skipped_relationships_replace_the_report() {
    let s = summary_with(0, 0, 0, 1, 12);
    let text = s.to_cli_output(true);
    assert!(text.contains("Relationships skipped (SKIP_RELATIONSHIPS=true)."));
    assert!(!text.contains("Relationships: 0 applied"));
}

#[test]
fn phase_labels_are_human_readable() {
    assert_eq!(Phase::Issues.label(), "Creating issues");
    assert_eq!(Phase::Project.label(), "Adding to the project board");
}

#[test]
fn dry_run_defaults_are_off() {
    let o = ImportOptions::default();
    assert!(!o.dry_run);
    assert!(!o.skip_relationships);
    assert!(!o.skip_project);
}

#[test]
fn vec_sink_collects_logs_and_summary() {
    let mut sink = VecSink::default();
    sink.emit(ImportEvent::Log { message: "+ label backend".into() });
    sink.emit(ImportEvent::Done { summary: Box::new(summary_with(1, 0, 0, 1, 1)) });
    assert_eq!(sink.logs(), vec!["+ label backend"]);
    assert_eq!(sink.summary().unwrap().created, 1);
}

#[test]
fn default_settings_are_strict_and_run_relationships() {
    let s = settings();
    assert_eq!(s.relationship_errors, RelationshipErrors::Strict);
    assert!(!s.skip_relationships);
}

// ---------------------------------------------------------------------------

#[test]
fn the_whole_closing_report_is_exact() {
    let s = summary_with(84, 5, 0, 3, 89);
    assert_eq!(
        s.to_cli_output(false),
        "\nAlready set (5): A-001 (parent)\nRelationships: 84 applied, 5 already set, 0 failed.\n\nDone. Created 3; tracked 89 tasks.\n"
    );
}

#[test]
fn a_null_sink_discards_and_a_vec_sink_finds_the_first_summary() {
    let mut null = NullSink;
    null.emit(ImportEvent::Log { message: "x".into() });
    let mut sink = VecSink::default();
    assert!(sink.summary().is_none());
    sink.emit(ImportEvent::Done { summary: Box::new(summary_with(0, 0, 0, 7, 7)) });
    sink.emit(ImportEvent::Done { summary: Box::new(summary_with(0, 0, 0, 9, 9)) });
    assert_eq!(sink.summary().unwrap().created, 7);
    assert!(sink.logs().is_empty());
}

#[test]
fn only_missing_labels_are_created() {
    let needed = vec!["P0".to_string(), "backend".to_string(), "ui".to_string()];
    let have = vec!["backend".to_string()];
    assert_eq!(labels_to_create(&needed, &have), vec!["P0", "ui"]);
    assert_eq!(label_log("ui", true), "+ label ui (dry run)");
    assert_eq!(label_log("ui", false), "+ label ui");
}

#[test]
fn a_rerun_skips_what_was_created() {
    let mut state = ImportState::default();
    let mut imap = map(&[]);
    let mut out = ImportSummary::default();
    assert_eq!(issue_action(&imap, "A-001", false), IssueAction::Create);
    assert_eq!(issue_action(&imap, "A-001", true), IssueAction::WouldCreate);
    let created = CreatedIssue { number: 12, id: 1200, node_id: "I_abc".into() };
    let e = record_created(&mut state, &mut imap, &mut out, "A-001", &created, 0, 1);
    assert!(matches!(e, ImportEvent::Task { status: TaskStatus::Created, detail: Some(ref d), .. } if d == "#12"));
    assert_eq!(out.created, 1);
    assert_eq!(state.issues.get("A-001"), Some(&12));
    assert_eq!(state.issue_ids.get("A-001"), Some(&1200));
    assert_eq!(state.node_ids.get("A-001").map(String::as_str), Some("I_abc"));
    assert_eq!(issue_action(&imap, "A-001", false), IssueAction::Skip(12));
    assert_eq!(issue_log("A-001", IssueAction::Skip(12)), "= A-001 -> #12");
    assert_eq!(issue_log("A-001", IssueAction::WouldCreate), "+ creating A-001 (dry run)");
    let e = skipped_issue(&mut out, "A-001", 12, 0, 1);
    assert!(matches!(e, ImportEvent::Task { status: TaskStatus::Skipped, .. }));
    assert_eq!(out.skipped, 1);
    would_create_issue(&mut out, "B-001", 1, 2);
    assert_eq!(out.created, 2);
}

#[test]
fn the_board_step_is_resumable() {
    let mut state = ImportState::default();
    let mut out = ImportSummary::default();
    let imap = map(&[("A-001", 12)]);
    assert!(matches!(project_action(&state, &imap, "B-001"), ProjectAction::NotTracked));
    assert!(matches!(project_action(&state, &imap, "A-001"), ProjectAction::NeedNodeId(12)));
    let fetched = Issue { number: 12, id: 1200, node_id: Some("I_abc".into()), title: "[A-001] t".into(), body: None, pull_request: None };
    assert_eq!(record_node_lookup(&mut state, "A-001", &fetched).unwrap(), "I_abc");
    assert!(matches!(project_action(&state, &imap, "A-001"), ProjectAction::Ready(ref n) if n == "I_abc"));
    record_project_item(&mut state, &mut out, "A-001", "PVTI_1".into(), 0, 1);
    assert_eq!(out.project_items_added, 1);
    assert!(matches!(project_action(&state, &imap, "A-001"), ProjectAction::OnBoard));
    let bare = Issue { number: 13, id: 1300, node_id: None, title: "t".into(), body: None, pull_request: None };
    assert_eq!(record_node_lookup(&mut state, "B-001", &bare).unwrap_err().message(), "issue has no node_id");
    assert_eq!(record_db_lookup(&mut state, "B-001", &bare), 1300);
    let e = project_failure(&mut out, "C-001", &GithubError::Other("boom".into()), 2, 3);
    assert_eq!(out.warnings, vec!["C-001: could not add to the project: boom"]);
    assert!(matches!(e, ImportEvent::Task { status: TaskStatus::Failed, .. }));
}

#[test]
fn listing_ids_are_cached_for_managed_titles() {
    let mut state = ImportState::default();
    let issues = vec![
        Issue { number: 1, id: 100, node_id: Some("I_1".into()), title: "[A-001] One".into(), body: None, pull_request: None },
        Issue { number: 2, id: 200, node_id: None, title: "Unmanaged".into(), body: None, pull_request: None },
        Issue { number: 3, id: 300, node_id: None, title: "[B-002] Two".into(), body: None, pull_request: None },
    ];
    cache_issue_ids(&mut state, &issues);
    assert_eq!(state.issue_ids.get("A-001"), Some(&100));
    assert_eq!(state.issue_ids.get("B-002"), Some(&300));
    assert_eq!(state.issue_ids.len(), 2);
    assert_eq!(state.node_ids.len(), 1);
    assert_eq!(state.issues.len(), 0);
}

#[test]
fn links_are_planned_parent_first() {
    let imap = map(&[("A-001", 12), ("P-001", 5), ("D-001", 7)]);
    let parent = "P-001".to_string();
    let deps = vec!["D-001".to_string(), "X-404".to_string()];
    let plan = relationship_links("A-001", 12, Some(&parent), &deps, &imap);
    assert_eq!(plan.len(), 2);
    assert_eq!(plan[0].kind, LinkKind::Parent);
    assert_eq!((plan[0].subject.as_str(), plan[0].subject_number, plan[0].target_number), ("A-001", 12, 5));
    assert_eq!(plan[1].kind, LinkKind::BlockedBy);
    assert_eq!((plan[1].subject.as_str(), plan[1].subject_number, plan[1].target_number), ("D-001", 7, 12));
    assert!(has_links(Some(&parent), &[]));
    assert!(!has_links(None, &[]));
}

#[test]
fn link_outcomes_are_tallied() {
    let mut out = ImportSummary::default();
    assert!(matches!(link_result(Ok(())), LinkResult::Applied));
    let taken = GithubError::Api { status: 422, message: "Target has already been taken".into(), rate_limited: false };
    match link_result(Err(taken)) {
        LinkResult::Already(m) => assert_eq!(m, "GitHub returned 422: Target has already been taken"),
        other => panic!("unexpected {other:?}"),
    }
    let r = record_link(&mut out, "A-001", LinkKind::Parent, LinkResult::Applied, true, 0, 1).unwrap();
    assert!(r.log.is_none());
    let r = record_link(&mut out, "A-001", LinkKind::BlockedBy, LinkResult::Already("taken".into()), false, 0, 1).unwrap();
    assert!(r.log.is_none());
    assert_eq!(out.already_ids, vec!["A-001 (blocked-by)"]);
    let r = record_link(&mut out, "B-001", LinkKind::Parent, LinkResult::Failed("nope\r\nmore".into()), false, 1, 2).unwrap();
    assert_eq!(r.log.as_deref(), Some("! B-001 parent failed: nope"));
    assert_eq!(out.failed_ids, vec!["B-001 (parent)"]);
    assert_eq!((out.relationships_applied, out.relationships_already, out.relationships_failed), (1, 1, 1));
}

#[test]
fn strict_mode_stops_at_the_first_failure_and_leaves_the_totals() {
    let mut out = ImportSummary::default();
    let err = record_link(&mut out, "B-001", LinkKind::BlockedBy, unresolved_link(LinkKind::BlockedBy), true, 0, 1).unwrap_err();
    assert_eq!(err.message(), "B-001 blocked-by failed: could not resolve the blocker's database id");
    assert_eq!(out.relationships_failed, 0);
    assert!(out.failed_ids.is_empty());
}

#[test]
fn strict_mode_stops_at_a_link_already_taken() {
    let mut out = ImportSummary::default();
    let taken = GithubError::Api { status: 422, message: "Target has already been taken\nmore".into(), rate_limited: false };
    let result = link_result(Err(taken));
    let err = record_link(&mut out, "A-001", LinkKind::BlockedBy, result, true, 0, 1).unwrap_err();
    assert_eq!(err.message(), "A-001 blocked-by failed: GitHub returned 422: Target has already been taken");
    assert_eq!(out.relationships_already, 0);
    assert!(out.already_ids.is_empty());
}

#[test]
fn the_first_line_is_what_lines_gives() {
    assert_eq!(first_line_of("a\r\nb"), "a");
    assert_eq!(first_line_of("a\nb"), "a");
    assert_eq!(first_line_of("single"), "single");
    assert_eq!(first_line_of(""), "");
    assert_eq!(first_line_of("\nb"), "");
    for text in ["x\r", "x\r\ny", "\r\n", "abc\n\n"] {
        assert_eq!(first_line_of(text), text.lines().next().unwrap_or(text), "{text:?}");
    }
}

#[test]
fn the_project_phase_is_skipped_by_option_or_for_want_of_a_board() {
    let mut options = ImportOptions::default();
    assert!(matches!(project_phase_start(&options, true), PhaseStart::Run));
    assert!(matches!(project_phase_start(&options, false), PhaseStart::Skipped(None)));
    options.skip_project = true;
    match project_phase_start(&options, true) {
        PhaseStart::Skipped(Some(line)) => assert_eq!(line, "Project board step skipped."),
        other => panic!("unexpected {other:?}"),
    }
}

#[test]
fn the_relationship_phase_is_skipped_by_the_settings() {
    let mut s = settings();
    assert!(matches!(relationship_phase_start(&s), PhaseStart::Run));
    s.skip_relationships = true;
    match relationship_phase_start(&s) {
        PhaseStart::Skipped(Some(line)) => assert_eq!(line, "\nRelationships skipped (SKIP_RELATIONSHIPS=true)."),
        other => panic!("unexpected {other:?}"),
    }
}

#[test]
fn a_dry_run_only_reports_what_would_go_on_the_board() {
    assert!(project_dry_run(false, "A-001", 0, 2).is_none());
    match project_dry_run(true, "A-001", 1, 2) {
        Some(ImportEvent::Task { phase, index, total, id, status, detail }) => {
            assert_eq!((phase, index, total, id.as_str(), status, detail), (Phase::Project, 1, 2, "A-001", TaskStatus::WouldAdd, None));
        }
        other => panic!("unexpected {other:?}"),
    }
}

#[test]
fn the_relationship_step_per_task() {
    let mut imap = StrMap::new();
    imap.insert("A-001".to_string(), 5);
    imap.insert("B-001".to_string(), 12);
    let parent = "A-001".to_string();
    let deps = vec!["A-001".to_string()];
    assert!(matches!(relationship_step(&imap, "C-001", Some(&parent), &deps, false, 0, 3), RelationshipStep::NotTracked));
    match relationship_step(&imap, "B-001", Some(&parent), &deps, true, 1, 3) {
        RelationshipStep::Report(Some(ImportEvent::Task { phase, id, status, .. })) => {
            assert_eq!((phase, id.as_str(), status), (Phase::Relationships, "B-001", TaskStatus::WouldAdd));
        }
        other => panic!("unexpected {other:?}"),
    }
    assert!(matches!(relationship_step(&imap, "A-001", None, &[], true, 0, 3), RelationshipStep::Report(None)));
    match relationship_step(&imap, "B-001", Some(&parent), &deps, false, 1, 3) {
        RelationshipStep::Apply(plan) => {
            assert_eq!(plan.len(), 2);
            assert_eq!((plan[0].kind, plan[0].subject.as_str(), plan[0].subject_number, plan[0].target_number), (LinkKind::Parent, "B-001", 12, 5));
            assert_eq!((plan[1].kind, plan[1].subject.as_str(), plan[1].subject_number, plan[1].target_number), (LinkKind::BlockedBy, "A-001", 5, 12));
        }
        other => panic!("unexpected {other:?}"),
    }
}
