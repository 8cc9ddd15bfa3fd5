//! Managed blocks.

use over::actions::partial::{
    append_block, discover_partials, find_block, remove_block, replace_block,
    resolve_block_conflict, resolve_structural_conflict, BlockChoice, BlockState,
    EnsurePartialBlock, PartialConfig, PartialStep, Resolution, StructuralChoice, TargetState,
};
use over::exec::Context;
use over::overlays::FileMode;

fn s(t: &str) -> String {
    t.to_string()
}

fn ctx(force: bool, no_prompt: bool, dry_run: bool) -> Context {
    Context {
        dry_run,
        debug: false,
        verbose: false,
        force,
        no_prompt,
        no_uses: false,
        overlay: None,
    }
}

fn action(target: &str) -> EnsurePartialBlock {
    EnsurePartialBlock::new(s(target), s("m"), s("alias x=y"))
}

#[test]
fn find_block_absent_in_empty_text() {
    assert_eq!(find_block("", "m"), BlockState::Absent);
}

#[test]
fn find_block_absent_when_unrelated_content_present() {
    assert_eq!(
        find_block("just some file\ncontent\n", "m"),
        BlockState::Absent
    );
}

#[test]
fn find_block_found_returns_exact_content() {
    let text = "before\n# >>> over: m >>>\nalias x=y\n# <<< over: m <<<\nafter\n";
    assert_eq!(find_block(text, "m"), BlockState::Found("alias x=y"));
}

#[test]
fn find_block_found_with_multiline_content() {
    let text = "# >>> over: m >>>\nline1\nline2\n# <<< over: m <<<\n";
    assert_eq!(find_block(text, "m"), BlockState::Found("line1\nline2"));
}

#[test]
fn find_block_found_empty_content() {
    let text = "# >>> over: m >>>\n# <<< over: m <<<\n";
    assert_eq!(find_block(text, "m"), BlockState::Found(""));
}

#[test]
fn find_block_malformed_begin_without_end() {
    let text = "# >>> over: m >>>\nalias x=y\n";
    assert_eq!(find_block(text, "m"), BlockState::Malformed);
}

#[test]
fn find_block_malformed_end_without_begin() {
    let text = "alias x=y\n# <<< over: m <<<\n";
    assert_eq!(find_block(text, "m"), BlockState::Malformed);
}

#[test]
fn find_block_distinguishes_different_markers() {
    let text = "# >>> over: a >>>\nfor-a\n# <<< over: a <<<\n# >>> over: b >>>\nfor-b\n# <<< over: b <<<\n";
    assert_eq!(find_block(text, "a"), BlockState::Found("for-a"));
    assert_eq!(find_block(text, "b"), BlockState::Found("for-b"));
}

#[test]
fn append_block_to_empty_text() {
    let out = append_block("", "m", "alias x=y");
    assert_eq!(out, "# >>> over: m >>>\nalias x=y\n# <<< over: m <<<\n");
}

#[test]
fn append_block_adds_separating_newline() {
    let out = append_block("existing content", "m", "alias x=y");
    assert_eq!(
        out,
        "existing content\n# >>> over: m >>>\nalias x=y\n# <<< over: m <<<\n"
    );
}

#[test]
fn append_block_does_not_duplicate_trailing_newline() {
    let out = append_block("existing content\n", "m", "alias x=y");
    assert_eq!(
        out,
        "existing content\n# >>> over: m >>>\nalias x=y\n# <<< over: m <<<\n"
    );
}

#[test]
fn append_block_with_empty_content() {
    let out = append_block("", "m", "");
    assert_eq!(out, "# >>> over: m >>>\n# <<< over: m <<<\n");
}

#[test]
fn replace_block_preserves_surrounding_content() {
    let text = "before\n# >>> over: m >>>\nold\n# <<< over: m <<<\nafter\n";
    let out = replace_block(text, "m", "new");
    assert_eq!(
        out,
        "before\n# >>> over: m >>>\nnew\n# <<< over: m <<<\nafter\n"
    );
}

#[test]
fn replace_block_no_op_when_markers_absent() {
    let text = "no markers here\n";
    assert_eq!(replace_block(text, "m", "new"), text);
}

#[test]
fn replace_block_no_op_when_end_marker_missing() {
    let text = "before\n# >>> over: m >>>\nold, no end marker\n";
    assert_eq!(replace_block(text, "m", "new"), text);
}

#[test]
fn replace_block_with_empty_content() {
    let text = "before\n# >>> over: m >>>\nold\n# <<< over: m <<<\nafter\n";
    let out = replace_block(text, "m", "");
    assert_eq!(out, "before\n# >>> over: m >>>\n# <<< over: m <<<\nafter\n");
}

#[test]
fn remove_block_strips_markers_and_content() {
    let text = "before\n# >>> over: m >>>\nold\n# <<< over: m <<<\nafter\n";
    assert_eq!(remove_block(text, "m"), "before\nafter\n");
}

#[test]
fn remove_block_leaves_only_content_when_block_is_everything() {
    let text = "# >>> over: m >>>\nold\n# <<< over: m <<<\n";
    assert_eq!(remove_block(text, "m"), "");
}

#[test]
fn remove_block_no_op_when_markers_absent() {
    let text = "no markers here\n";
    assert_eq!(remove_block(text, "m"), text);
}

#[test]
fn remove_block_no_op_when_end_marker_missing() {
    let text = "before\n# >>> over: m >>>\nold, no end marker\n";
    assert_eq!(remove_block(text, "m"), text);
}

#[test]
fn removing_a_block_undoes_appending_it() {
    let text = "# one\nexport A=ü\n";
    assert_eq!(remove_block(&append_block(text, "m", "x\ny"), "m"), text);
    assert_eq!(replace_block(&append_block(text, "m", "x"), "m", "z"), append_block(text, "m", "z"));
}

fn partial(target: &str, content: &str) -> PartialConfig {
    PartialConfig { target: s(target), content: s(content), marker: None }
}

#[test]
fn discover_partials_finds_files() {
    let results = discover_partials(vec![(
        s("aliases.partial.toml"),
        partial("/home/user/.zshrc", "alias x=y"),
    )])
    .unwrap();
    assert_eq!(results.len(), 1);
    assert_eq!(results[0].0, "aliases");
    assert_eq!(results[0].1.target, "/home/user/.zshrc");
    assert_eq!(results[0].1.content, "alias x=y");
}

#[test]
fn discover_partials_yaml_also_found() {
    let results = discover_partials(vec![(
        s("aliases.partial.yaml"),
        partial("/home/user/.zshrc", "alias x=y"),
    )])
    .unwrap();
    assert_eq!(results.len(), 1);
    assert_eq!(results[0].0, "aliases");
}

#[test]
fn discover_partials_toml_takes_precedence_over_yaml() {
    let results = discover_partials(vec![
        (s("aliases.partial.toml"), partial("/from-toml", "x")),
        (s("aliases.partial.yaml"), partial("/from-yaml", "x")),
    ])
    .unwrap();
    assert_eq!(results.len(), 1);
    assert_eq!(results[0].1.target, "/from-toml");
}

#[test]
fn discover_partials_yaml_first_toml_second_toml_wins() {
    let results = discover_partials(vec![
        (s("aliases.partial.yaml"), partial("/from-yaml", "x")),
        (s("aliases.partial.toml"), partial("/from-toml", "x")),
    ])
    .unwrap();
    assert_eq!(results.len(), 1);
    assert_eq!(results[0].1.target, "/from-toml");
}

#[test]
fn discover_partials_skips_empty_target() {
    let results = discover_partials(vec![(s("bad.partial.toml"), partial("", "x"))]).unwrap();
    assert!(results.is_empty());
}

#[test]
fn discover_partials_skips_empty_content() {
    let results = discover_partials(vec![(s("bad.partial.toml"), partial("/foo", ""))]).unwrap();
    assert!(results.is_empty());
}

#[test]
fn discover_partials_optional_marker_field() {
    let mut config = partial("/foo", "x");
    config.marker = Some(s("custom"));
    let results = discover_partials(vec![(s("aliases.partial.toml"), config)]).unwrap();
    assert_eq!(results[0].1.marker, Some("custom".to_string()));
}

#[test]
fn discover_partials_empty_dir() {
    let results = discover_partials(vec![]).unwrap();
    assert!(results.is_empty());
}

#[test]
fn discover_partials_refuses_other_files() {
    let e = discover_partials(vec![(s("aliases.toml"), partial("/foo", "x"))]).unwrap_err();
    assert_eq!(e, "unexpected partial config file: aliases.toml");
}

#[test]
fn discover_partials_orders_by_name_and_reads_backslashes_as_slashes() {
    let results = discover_partials(vec![
        (s("z.partial.yml"), partial("/z", "x")),
        (s("a\\b.partial.toml"), partial("/b", "x")),
    ])
    .unwrap();
    assert_eq!(results[0].0, "a/b");
    assert_eq!(results[1].0, "z");
}

#[test]
fn ensure_partial_block_creates_missing_file() {
    assert_eq!(
        action("/t/nested/dir/.zshrc").execute(&ctx(false, false, false), &TargetState::Missing),
        PartialStep::Create(s("# >>> over: m >>>\nalias x=y\n# <<< over: m <<<\n"))
    );
}

#[test]
fn ensure_partial_block_appends_to_existing_file() {
    assert_eq!(
        action("/t/.zshrc").execute(
            &ctx(false, false, false),
            &TargetState::File(s("export FOO=bar\n"))
        ),
        PartialStep::Write(s(
            "export FOO=bar\n# >>> over: m >>>\nalias x=y\n# <<< over: m <<<\n"
        ))
    );
}

#[test]
fn ensure_partial_block_keeps_permissions_with_it() {
    let mode = FileMode { bits: 0o600 };
    assert_eq!(action("/t").permissions, None);
    assert_eq!(action("/t").with_permissions(Some(mode)).permissions, Some(mode));
}

#[test]
fn ensure_partial_block_dry_run_does_not_touch_filesystem() {
    assert_eq!(
        action("/t/.zshrc").execute(&ctx(false, false, true), &TargetState::Missing),
        PartialStep::Done
    );
}

#[test]
fn ensure_partial_block_force_overwrites_drifted_block() {
    let state = TargetState::File(s(
        "before\n# >>> over: m >>>\nhand-edited\n# <<< over: m <<<\nafter\n",
    ));
    let a = action("/t/.zshrc");
    assert_eq!(a.execute(&ctx(true, false, false), &state), PartialStep::BlockConflict);
    assert_eq!(
        resolve_block_conflict(&ctx(true, false, false), "/t/.zshrc", "m", "", "", None),
        Resolution::Proceed
    );
    assert_eq!(
        a.overwrite(&state),
        PartialStep::Write(s(
            "before\n# >>> over: m >>>\nalias x=y\n# <<< over: m <<<\nafter\n"
        ))
    );
}

#[test]
fn ensure_partial_block_no_prompt_errors_on_drift() {
    assert_eq!(
        resolve_block_conflict(&ctx(false, true, false), "/t/.zshrc", "m", "a", "b", None),
        Resolution::Refuse(s(
            "partial-file conflict: managed block 'm' in '/t/.zshrc' doesn't match the overlay's content (use --force to overwrite or run interactively to choose)"
        ))
    );
}

#[test]
fn ensure_partial_block_force_replaces_directory_in_the_way() {
    let a = action("/t/blocked");
    let c = ctx(true, false, false);
    assert_eq!(a.execute(&c, &TargetState::Directory), PartialStep::StructuralConflict);
    assert_eq!(resolve_structural_conflict(&c, "/t/blocked", None), Resolution::Proceed);
    assert_eq!(
        a.overwrite(&TargetState::Directory),
        PartialStep::Write(s("# >>> over: m >>>\nalias x=y\n# <<< over: m <<<\n"))
    );
}

#[test]
fn ensure_partial_block_no_prompt_errors_on_structural_conflict() {
    assert_eq!(
        resolve_structural_conflict(&ctx(false, true, false), "/t/blocked", None),
        Resolution::Refuse(s(
            "partial-file conflict: '/t/blocked' is a directory or symlink, not a plain file (use --force to replace it or run interactively to choose)"
        ))
    );
}

#[test]
fn ensure_partial_block_asks_where_it_may() {
    let c = ctx(false, false, false);
    assert_eq!(resolve_structural_conflict(&c, "/t", None), Resolution::Ask);
    assert_eq!(
        resolve_structural_conflict(&c, "/t", Some(StructuralChoice::Skip)),
        Resolution::Skip
    );
    assert_eq!(
        resolve_structural_conflict(&c, "/t", Some(StructuralChoice::Overwrite)),
        Resolution::Proceed
    );
    let text = "# >>> over: m >>>\nold\n# <<< over: m <<<\n";
    assert_eq!(resolve_block_conflict(&c, "/t", "m", text, "new", None), Resolution::Ask);
    assert_eq!(
        resolve_block_conflict(&c, "/t", "m", text, "new", Some(BlockChoice::Diff)),
        Resolution::ShowDiff(s("old"), s("new"))
    );
}

#[test]
fn ensure_partial_block_already_correct_is_a_no_op() {
    assert_eq!(
        action("/t/.zshrc").execute(
            &ctx(false, false, false),
            &TargetState::File(s("# >>> over: m >>>\nalias x=y\n# <<< over: m <<<\n"))
        ),
        PartialStep::Done
    );
}

#[test]
fn ensure_partial_block_force_appends_after_malformed_markers() {
    let state = TargetState::File(s("# >>> over: m >>>\nstray\n"));
    let a = action("/t/.zshrc");
    assert_eq!(a.execute(&ctx(true, false, false), &state), PartialStep::BlockConflict);
    assert_eq!(
        a.overwrite(&state),
        PartialStep::Write(s(
            "# >>> over: m >>>\nstray\n# >>> over: m >>>\nalias x=y\n# <<< over: m <<<\n"
        ))
    );
}

#[test]
fn structural_choice_display() {
    assert_eq!(StructuralChoice::Skip.label(), "Skip");
    assert!(StructuralChoice::Overwrite.label().contains("Overwrite"));
}

#[test]
fn block_choice_display() {
    assert_eq!(BlockChoice::Skip.label(), "Skip");
    assert!(BlockChoice::Overwrite.label().contains("Overwrite"));
    assert!(BlockChoice::Diff.label().contains("Diff"));
}

#[test]
fn ensure_partial_block_display() {
    let action = EnsurePartialBlock::new(s("/home/user/.zshrc"), s("aliases"), s("alias x=y"));
    let display = action.label(&action.target);
    assert!(display.contains("partial block:"));
    assert!(display.contains(".zshrc"));
    assert!(display.contains("aliases"));
}
