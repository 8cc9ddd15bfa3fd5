//! The commands.

use over::cli::commit::{
    checkout_entries, failure as commit_failure, message_source, resolve_message, MessageSource,
    Params as CommitParams,
};
use over::cli::diff::overlay_lines as diff_lines;
use over::cli::doctor::{
    count_findings, failure as doctor_failure, section_lines, summary, Finding, Severity,
};
use over::cli::lint::{lint_outcome, Outcome as LintOutcome};
use over::cli::list::{build_tree, root_label};
use over::cli::log::{
    checkout_scope, civil_from_days, format_git_time, guess_overlay, not_checked_out,
    resolve_scope, LogEntry, LogList, Scope,
};
use over::cli::report::ReportEntry;
use over::cli::select::{check_choices, select_many, select_one, Selection};
use over::cli::show::show_lines;
use over::cli::status::overlay_lines as status_lines;
use over::cli::sync::{
    failure as sync_failure, overlay_lines as sync_lines, summarize, Params as SyncParams,
    SyncOutcome,
};
use over::cli::unapply::{failure as unapply_failure, Outcome as UnapplyOutcome};
use over::cli::CLI;
use over::commit::{
    commit, concluded, default_message, CheckoutState, CommitOptions, CommitOutcome, CommitStep,
    Conclusion, VirtualCheckoutRecord,
};
use over::actions::git::config::{AllGitRepoForms, GitRepoConfig};
use over::desired::entry::{DesiredEntry, MaterializationIntent, Provenance};
use over::overlays::{Defaults, Overlay, Rule};

fn s(t: &str) -> String {
    t.to_string()
}

fn list(l: &[&str]) -> Vec<String> {
    l.iter().map(|t| s(t)).collect()
}

fn cli(home: Option<&str>) -> CLI {
    CLI { home: home.map(s), debug: false, verbose: false, cmd: None }
}

#[test]
fn resolve_home_with_flag() {
    let home = cli(Some("/tmp/test-home")).resolve_home(&Some(s("/home/user"))).unwrap();
    assert_eq!(home, "/tmp/test-home");
}

#[test]
fn resolve_home_with_short_flag() {
    assert_eq!(cli(Some("/tmp/short-home")).resolve_home(&None).unwrap(), "/tmp/short-home");
}

#[test]
fn resolve_home_default_uses_home_dir() {
    assert_eq!(cli(None).resolve_home(&Some(s("/home/user"))).unwrap(), "/home/user/.over");
    assert_eq!(
        cli(None).resolve_home(&None).unwrap_err(),
        "could not determine home directory"
    );
}

fn shown(label: &str, names: &[&str]) -> String {
    build_tree(label, &list(names)).to_string()
}

#[test]
fn build_tree_flat_overlays() {
    let expected = "\
.over
├── git
├── shell
└── vim
";
    assert_eq!(shown(".over", &["git", "shell", "vim"]), expected);
}

#[test]
fn build_tree_nested_overlays() {
    let expected = "\
.over
├── git
├── shell
│   ├── bash
│   └── zsh
└── vim
";
    assert_eq!(shown(".over", &["git", "shell/bash", "shell/zsh", "vim"]), expected);
}

#[test]
fn build_tree_deeply_nested() {
    let expected = "\
.over
└── apps
    ├── browser
    └── dev
        ├── editor
        └── terminal
";
    assert_eq!(
        shown(".over", &["apps/dev/editor", "apps/dev/terminal", "apps/browser"]),
        expected
    );
}

#[test]
fn build_tree_empty() {
    assert_eq!(shown(".over", &[]), ".over\n");
}

#[test]
fn build_tree_single_overlay() {
    let expected = "\
.over
└── solo
";
    assert_eq!(shown(".over", &["solo"]), expected);
}

#[test]
fn root_label_uses_directory_name() {
    assert_eq!(root_label("/home/user/.over"), ".over");
}

#[test]
fn root_label_falls_back_to_full_path() {
    assert_eq!(root_label("/"), "/");
}

fn sync_params() -> SyncParams {
    SyncParams {
        name: None,
        root: Some(s("/tmp")),
        no_uses: false,
        pull_only: false,
        push_only: false,
        continue_: false,
        abort: false,
        dry_run: false,
    }
}

#[test]
fn options_default_syncs_both_directions() {
    let opts = sync_params().options();
    assert!(opts.pull);
    assert!(opts.push);
    assert!(!opts.abort);
    assert!(!opts.dry_run);
}

#[test]
fn options_pull_only_disables_push() {
    let mut p = sync_params();
    p.pull_only = true;
    let opts = p.options();
    assert!(opts.pull);
    assert!(!opts.push);
}

#[test]
fn options_push_only_disables_pull() {
    let mut p = sync_params();
    p.push_only = true;
    let opts = p.options();
    assert!(!opts.pull);
    assert!(opts.push);
}

#[test]
fn summarize_lists_only_non_zero_counts() {
    let outcomes = vec![
        SyncOutcome::UpToDate { path: s("/a") },
        SyncOutcome::UpToDate { path: s("/b") },
        SyncOutcome::Pushed { path: s("/c") },
    ];
    assert_eq!(summarize(&outcomes), "2 up to date, 1 pushed");
    assert_eq!(sync_failure(&outcomes), None);
}

#[test]
fn summarize_empty_outcomes_is_empty_string() {
    assert_eq!(summarize(&vec![]), "");
}

#[test]
fn summaries_name_every_outcome_in_order() {
    let p = || s("/p");
    let outcomes = vec![
        SyncOutcome::Aborted { path: p() },
        SyncOutcome::Blocked { path: p() },
        SyncOutcome::Conflict { path: p() },
        SyncOutcome::Pushed { path: p() },
        SyncOutcome::Merged { path: p() },
        SyncOutcome::FastForwarded { path: p() },
        SyncOutcome::UpToDate { path: p() },
    ];
    assert_eq!(
        summarize(&outcomes),
        "1 up to date, 1 fast-forwarded, 1 merged, 1 pushed, 1 conflict(s), 1 blocked, 1 aborted"
    );
    assert!(sync_failure(&outcomes).is_some());
    let attention: Vec<bool> = outcomes.iter().map(|o| o.needs_attention()).collect();
    assert_eq!(attention, vec![false, true, true, false, false, false, false]);
    assert!(!outcomes[6].is_shown(false));
    assert!(outcomes[6].is_shown(true));
}

fn finding(severity: Severity, text: &str) -> Finding {
    Finding { severity, text: s(text) }
}

#[test]
fn findings_are_shown_and_counted() {
    let findings = vec![
        finding(Severity::Fine, "ok"),
        finding(Severity::Error, "bad"),
        finding(Severity::Warning, "odd"),
        finding(Severity::Error, "worse"),
    ];
    assert_eq!(section_lines(&findings, false), list(&["bad", "odd", "worse"]));
    assert_eq!(section_lines(&findings, true), list(&["ok", "bad", "odd", "worse"]));
    assert_eq!(
        section_lines(&vec![finding(Severity::Fine, "ok")], false),
        list(&["No issues found"])
    );
    assert_eq!(count_findings(&findings, Severity::Error), 2);
    assert_eq!(
        lint_outcome(&findings),
        LintOutcome {
            summary: s("2 errors, 1 warning found"),
            failure: Some(s("lint found 2 errors"))
        }
    );
    assert_eq!(
        lint_outcome(&vec![]),
        LintOutcome { summary: s("No issues found"), failure: None }
    );
}

#[test]
fn summaries_leave_out_what_is_not_there() {
    assert_eq!(summary(0, 0), "No issues found");
    assert_eq!(summary(1, 0), "1 error found");
    assert_eq!(summary(0, 3), "3 warnings found");
    assert_eq!(doctor_failure("doctor", 0), None);
    assert_eq!(doctor_failure("doctor", 1), Some(s("doctor found 1 error")));
}

#[test]
fn days_have_dates() {
    assert_eq!(civil_from_days(0), (1970, 1, 1));
    assert_eq!(civil_from_days(-1), (1969, 12, 31));
    assert_eq!(civil_from_days(11_016), (2000, 2, 29));
    assert_eq!(civil_from_days(-719_468), (0, 3, 1));
    assert_eq!(civil_from_days(19_723), (2024, 1, 1));
}

#[test]
fn moments_are_written_in_their_own_zone() {
    assert_eq!(format_git_time(0, 0), "1970-01-01 00:00");
    assert_eq!(format_git_time(0, -60), "1969-12-31 23:00");
    assert_eq!(format_git_time(1_700_000_000, 120), "2023-11-15 00:13");
    assert_eq!(format_git_time(-62_167_219_200, 0), "0000-01-01 00:00");
}

fn log_entry(id: &str) -> LogEntry {
    LogEntry::from_commit(Some(s(id)), s("whole"), Some(s("text")), Some(s("me")), s("then"))
}

#[test]
fn commits_are_listed_in_lines() {
    assert_eq!(log_entry("abc").line(), "abc text — (me, then)");
    assert_eq!(
        LogEntry::from_commit(None, s("whole"), None, None, s("then")).line(),
        "whole <no message> — (unknown, then)"
    );
}

#[test]
fn log_skips_commits_that_never_touch_the_managed_path() {
    let mut log = LogList::new(s("ov"), 10);
    assert!(!log.offer(log_entry("a"), false));
    assert!(!log.offer(log_entry("b"), true));
    assert_eq!(log.entries, vec![log_entry("b")]);
    let mut all = LogList::new(s(""), 10);
    assert!(!all.offer(log_entry("a"), false));
    assert_eq!(all.entries.len(), 1);
}

#[test]
fn log_limit_caps_the_number_of_commits_shown() {
    let mut log = LogList::new(s("ov"), 2);
    assert!(!log.offer(log_entry("a"), true));
    assert!(log.offer(log_entry("b"), true));
    assert_eq!(log.entries.len(), 2);
    assert!(log.is_full());
    assert!(log.offer(log_entry("c"), true));
    assert_eq!(log.entries, vec![log_entry("a"), log_entry("b")]);
}

#[test]
fn log_with_a_limit_of_zero_lists_nothing() {
    let mut log = LogList::new(s(""), 0);
    assert!(log.is_full());
    assert!(log.offer(log_entry("a"), true));
    assert!(log.entries.is_empty());
}

#[test]
fn log_lists_the_first_commits_that_touch_the_path() {
    let mut log = LogList::new(s("ov"), 2);
    assert!(!log.offer(log_entry("a"), true));
    assert!(!log.offer(log_entry("b"), false));
    assert!(log.offer(log_entry("c"), true));
    assert!(log.offer(log_entry("d"), true));
    assert_eq!(log.entries, vec![log_entry("a"), log_entry("c")]);
}

#[test]
fn log_no_name_guesses_the_overlay_from_the_current_directory() {
    let targets = vec![
        Some(s("/home/user")),
        None,
        Some(s("/home/user/.config")),
        Some(s("/home/user/.config/")),
        Some(s("/home/user/.configuration/deep")),
    ];
    assert_eq!(guess_overlay(&targets, "/home/user/.config/nvim"), Some(2));
    assert_eq!(guess_overlay(&targets, "/home/user/x"), Some(0));
    assert_eq!(guess_overlay(&targets, "/tmp"), None);
}

fn entry(intent: MaterializationIntent) -> DesiredEntry {
    DesiredEntry {
        target: s("/home/user/x"),
        provenance: Provenance::Overlay { overlay: s("ov"), source: s("/repo/ov") },
        intent,
        permissions: None,
    }
}

#[test]
fn log_named_non_checkout_overlay_errors() {
    assert_eq!(
        checkout_scope(&vec![entry(MaterializationIntent::Directory)]).unwrap_err(),
        "no `checkout` materialization rule applies to this overlay"
    );
    assert_eq!(
        checkout_scope(&vec![
            entry(MaterializationIntent::Directory),
            entry(MaterializationIntent::VirtualCheckout)
        ])
        .unwrap(),
        "/repo/ov"
    );
    assert_eq!(not_checked_out("ov"), "overlay 'ov' is not checkout-materialized");
}

#[test]
fn overlays_are_selected() {
    let name = Some(s("a"));
    let default = Some(s("d"));
    assert_eq!(select_many(&name, true, &default), Selection::Named(s("a")));
    assert_eq!(select_many(&None, true, &default), Selection::All);
    assert_eq!(select_many(&None, false, &default), Selection::Named(s("d")));
    assert_eq!(select_many(&None, false, &None), Selection::All);
    assert_eq!(select_one(&name, &default), Selection::Named(s("a")));
    assert_eq!(select_one(&None, &default), Selection::Named(s("d")));
    assert_eq!(select_one(&None, &None), Selection::Ask);
    assert_eq!(check_choices(0).unwrap_err(), "no overlays found in repository");
    assert!(check_choices(1).is_ok());
}

#[test]
fn overlays_are_shown_in_lines() {
    let mut o = Overlay {
        name: s("ov"),
        root: s("/over/ov"),
        target: s("~/x"),
        description: None,
        uses: None,
        link_dirs: None,
        defaults: None,
        rules: None,
        git: None,
        install: None,
    };
    assert_eq!(
        show_lines(&o, "~/.over/ov"),
        list(&["ov", "  root:   ~/.over/ov", "  target: ~/x"])
    );
    o.description = Some(s("mine"));
    o.uses = Some(list(&["a", "b"]));
    o.link_dirs = Some(list(&["d"]));
    o.defaults = Some(Defaults { materialization: s("symlink") });
    o.rules = Some(vec![Rule { path: s("p"), materialization: s("m") }]);
    o.git = Some(vec![(s("."), GitRepoConfig::from(AllGitRepoForms::Simple(s("url"))))]);
    assert_eq!(
        show_lines(&o, "r"),
        list(&[
            "ov",
            "  root:   r",
            "  target: ~/x",
            "  desc:   mine",
            "  uses:   a, b",
            "  link_dirs: d",
            "  defaults: materialization = symlink",
            "  rules:",
            "    p: m",
            "  git repositories:",
            "    .: url",
        ])
    );
}

#[test]
fn commit_outcome_display_covers_every_variant() {
    assert!(CommitOutcome::NotVirtualCheckout.describe().contains("not checkout"));
    assert!(CommitOutcome::NothingToCommit.describe().contains("nothing to commit"));
    assert!(!CommitOutcome::NothingToCommit.needs_attention());
    let blocked = CommitOutcome::Blocked { conflicting_files: list(&["a.txt", "b.txt"]) };
    let text = blocked.describe();
    assert!(text.contains("a.txt"));
    assert!(text.contains("b.txt"));
    assert!(blocked.needs_attention());
    let committed = CommitOutcome::Committed { oid: s("deadbeefdeadbeefdeadbeef"), files: 3 };
    let text = committed.describe();
    assert!(text.contains("3 files"));
    assert!(text.contains("deadbeefde"));
    assert!(!committed.needs_attention());
    assert_eq!(text, "committed 3 files (deadbeefde)");
    assert_eq!(
        commit_failure(&vec![blocked]),
        Some(s("one or more virtual checkouts have conflicting files — resolve them manually, then re-run `over commit`"))
    );
    assert_eq!(commit_failure(&vec![committed]), None);
}

fn state(conflicting: &[&str], changed_files: usize, recorded: bool) -> CheckoutState {
    CheckoutState { conflicting_files: list(conflicting), changed_files, recorded }
}

fn commit_of(state: CheckoutState, message: Option<&str>) -> Result<CommitStep, String> {
    commit(
        &entry(MaterializationIntent::VirtualCheckout),
        &state,
        &CommitOptions { message: message.map(s) },
    )
}

#[test]
fn non_virtual_checkout_entry_is_refused() {
    let r = commit(
        &entry(MaterializationIntent::Directory),
        &state(&[], 0, true),
        &CommitOptions { message: None },
    );
    assert_eq!(r, Ok(CommitStep::Done(CommitOutcome::NotVirtualCheckout)));
}

#[test]
fn no_local_changes_is_nothing_to_commit() {
    assert_eq!(
        commit_of(state(&[], 0, true), None),
        Ok(CommitStep::Done(CommitOutcome::NothingToCommit))
    );
}

#[test]
fn modified_file_is_committed_into_the_source_repository() {
    assert_eq!(
        commit_of(state(&[], 1, true), Some("update a.txt")),
        Ok(CommitStep::Commit { source: s("/repo/ov"), message: s("update a.txt") })
    );
    assert_eq!(
        commit_of(state(&[], 2, true), None),
        Ok(CommitStep::Commit { source: s("/repo/ov"), message: default_message(2) })
    );
    assert_eq!(default_message(2), "over commit: 2 files changed");
    let mut record = VirtualCheckoutRecord {
        overlay: s("ov"),
        managed_path: s("ov"),
        base_oid: s("old"),
        created_at: 1,
        last_commit_at: None,
    };
    record.committed(s("new"), 7);
    assert_eq!((record.base_oid.as_str(), record.last_commit_at), ("new", Some(7)));
    assert_eq!(record.created_at, 1);
    let checkout = entry(MaterializationIntent::VirtualCheckout);
    let made = Conclusion::with_commit(&checkout, &state(&[], 2, true), record, s("newer"), 9);
    assert_eq!(made.outcome, CommitOutcome::Committed { oid: s("newer"), files: 2 });
    assert_eq!(made.outcome, concluded(&state(&[], 2, true), s("newer")));
    let (target, kept) = made.record.unwrap();
    assert_eq!(target, "/home/user/x");
    assert_eq!((kept.base_oid.as_str(), kept.last_commit_at), ("newer", Some(9)));
    assert_eq!((kept.overlay.as_str(), kept.created_at), ("ov", 1));
}

#[test]
fn nothing_is_recorded_without_a_commit() {
    let stopped = Conclusion::without_commit(CommitOutcome::NothingToCommit);
    assert_eq!(stopped.outcome, CommitOutcome::NothingToCommit);
    assert_eq!(stopped.record, None);
}

#[test]
fn commit_blocked_on_a_conflicting_file() {
    assert_eq!(
        commit_of(state(&["a.txt"], 1, true), None),
        Ok(CommitStep::Done(CommitOutcome::Blocked { conflicting_files: list(&["a.txt"]) }))
    );
}

#[test]
fn commit_needs_a_record() {
    assert_eq!(
        commit_of(state(&[], 1, false), None),
        Err(s("no virtual checkout association recorded for '/home/user/x' — was it materialized by `over apply`?"))
    );
}

#[test]
fn commit_non_checkout_overlay_errors() {
    assert_eq!(
        checkout_entries(&vec![entry(MaterializationIntent::Checkout)], "ov").unwrap_err(),
        "overlay 'ov' is not checkout-materialized (no `checkout` materialization rule applies) — nothing for `over commit` to do"
    );
    assert_eq!(
        checkout_entries(
            &vec![
                entry(MaterializationIntent::Directory),
                entry(MaterializationIntent::VirtualCheckout)
            ],
            "ov"
        ),
        Ok(vec![1])
    );
}

fn commit_params(message: Option<&str>, no_prompt: bool) -> CommitParams {
    CommitParams { name: None, root: None, message: message.map(s), no_prompt }
}

#[test]
fn messages_are_given_asked_for_or_left_out() {
    assert_eq!(
        message_source(&commit_params(Some("m"), true)),
        MessageSource::Given(s("m"))
    );
    assert_eq!(message_source(&commit_params(None, true)), MessageSource::Default);
    assert_eq!(message_source(&commit_params(None, false)), MessageSource::Ask);
    let answer = |a: &str| resolve_message(&commit_params(None, false), Some(s(a)));
    assert_eq!(answer(" keep "), Some(s(" keep ")));
    assert_eq!(answer(" \t"), None);
    assert_eq!(resolve_message(&commit_params(Some("m"), false), None), Some(s("m")));
}

#[test]
fn skipped_entries_fail_the_command() {
    assert_eq!(
        unapply_failure(&vec![UnapplyOutcome::Removed, UnapplyOutcome::Skipped]),
        Some(s("one or more entries were left untouched — see `skip:` lines above"))
    );
    assert_eq!(
        unapply_failure(&vec![UnapplyOutcome::Removed, UnapplyOutcome::AlreadyAbsent]),
        None
    );
    assert!(!UnapplyOutcome::AlreadyAbsent.is_shown(false));
    assert!(UnapplyOutcome::Removed.is_shown(false));
}

fn report_entries() -> Vec<ReportEntry> {
    vec![
        ReportEntry { text: s("a: fine"), notable: false },
        ReportEntry { text: s("b: missing"), notable: true },
    ]
}

#[test]
fn overlays_are_reported_in_lines() {
    assert_eq!(
        status_lines("ov", "~", s("2 entries"), &report_entries(), false),
        list(&["Overlay ov -> ~", "  2 entries", "  b: missing", ""])
    );
    assert_eq!(
        status_lines("ov", "~", s("2 entries"), &report_entries(), true),
        list(&["Overlay ov -> ~", "  2 entries", "  a: fine", "  b: missing", ""])
    );
    assert_eq!(
        diff_lines("ov", "~", &report_entries(), false),
        list(&["Overlay ov -> ~", "  b: missing", ""])
    );
    let mut fine = report_entries();
    fine.truncate(1);
    assert_eq!(
        diff_lines("ov", "~", &fine, false),
        list(&["Overlay ov -> ~", "  no differences", ""])
    );
    assert_eq!(
        diff_lines("ov", "~", &fine, true),
        list(&["Overlay ov -> ~", "  no differences", "  a: fine", ""])
    );
}

#[test]
fn synced_overlays_are_reported_in_lines() {
    let outcomes =
        vec![SyncOutcome::UpToDate { path: s("/a") }, SyncOutcome::Merged { path: s("/b") }];
    let texts = list(&["up to date /a", "merged /b"]);
    assert_eq!(
        sync_lines("ov", "~", &outcomes, &texts, false),
        list(&["Overlay ov -> ~", "  1 up to date, 1 merged", "  merged /b", ""])
    );
    assert_eq!(sync_lines("ov", "~", &outcomes, &texts, true).len(), 5);
    assert_eq!(sync_lines("ov", "~", &vec![], &vec![], false), list(&[]));
    assert_eq!(
        sync_lines("ov", "~", &vec![], &vec![], true),
        list(&["Overlay ov has no checkout-materialized root entry"])
    );
}

#[test]
fn history_is_that_of_the_closest_checkout() {
    let names = list(&["a", "b"]);
    let targets = vec![Some(s("/home")), Some(s("/home/b"))];
    let scope = |named, checked_out: Vec<bool>, cwd| {
        resolve_scope(named, &names, &targets, &checked_out, cwd)
    };
    assert_eq!(scope(Some(0), vec![true, true], "/home/b"), Scope::Overlay(0));
    assert_eq!(
        scope(Some(1), vec![true, false], "/"),
        Scope::Refused(s("overlay 'b' is not checkout-materialized"))
    );
    assert_eq!(scope(None, vec![true, true], "/home/b/c"), Scope::Overlay(1));
    assert_eq!(scope(None, vec![true, true], "/home/c"), Scope::Overlay(0));
    assert_eq!(scope(None, vec![true, false], "/home/b"), Scope::Whole);
    assert_eq!(scope(None, vec![true, true], "/etc"), Scope::Whole);
}
