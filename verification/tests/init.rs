use std::path::PathBuf;
use stmo_cli::commands::init::{
    check_target, classify_entries, closing_message, git_name_configured, offer_commit, offer_precommit,
    plan_creation, presence_key, resolve_target, scaffold_files, scaffold_items, should_commit, ScaffoldItem, should_setup_precommit, sort_names, tolerated_entry,
    InitChoices, Summary, TargetState, TEMPLATE_CLAUDE_MD, TEMPLATE_GITIGNORE, TEMPLATE_PRE_COMMIT,
    TEMPLATE_SQLFLUFF, TEMPLATE_YAMLLINT,
};

fn all_choices() -> InitChoices {
    InitChoices { git: true, commit: true, linters: true, precommit: false, claude_md: true }
}

fn no_choices() -> InitChoices {
    InitChoices { git: false, commit: false, linters: false, precommit: false, claude_md: false }
}

fn names(list: &[&str]) -> Vec<String> {
    list.iter().map(|s| s.to_string()).collect()
}

fn paths(choices: &InitChoices) -> Vec<&'static str> {
    scaffold_files(choices).iter().map(|f| f.path).collect()
}

#[test]
fn test_resolve_target_defaults_to_dot() {
    assert_eq!(PathBuf::from(resolve_target(None)), PathBuf::from("."));
}

#[test]
fn test_resolve_target_uses_given_path() {
    let path = PathBuf::from("/tmp/somewhere");
    assert_eq!(PathBuf::from(resolve_target(Some("/tmp/somewhere".to_string()))), path);
}

#[test]
fn test_template_content_validity() {
    assert!(TEMPLATE_PRE_COMMIT.contains("yamllint"));
    assert!(TEMPLATE_PRE_COMMIT.contains("sqlfluff"));
    assert!(TEMPLATE_PRE_COMMIT.contains("sqlfluff-lint-snippets"));
    assert!(TEMPLATE_PRE_COMMIT.contains("exclude: ^snippets/"));

    assert!(TEMPLATE_SQLFLUFF.contains("bigquery"));
    assert!(TEMPLATE_SQLFLUFF.contains("[sqlfluff]"));

    assert!(TEMPLATE_YAMLLINT.contains("extends: default"));

    assert!(TEMPLATE_GITIGNORE.contains(".DS_Store"));

    assert!(TEMPLATE_CLAUDE_MD.contains("stmo-cli"));
    assert!(TEMPLATE_CLAUDE_MD.contains("Quick Reference"));
    assert!(TEMPLATE_CLAUDE_MD.contains("snippets"));
}

#[test]
fn scaffold_plan_all_declined_has_no_files() {
    assert!(paths(&no_choices()).is_empty());
}

#[test]
fn scaffold_plan_linters_only() {
    let mut choices = no_choices();
    choices.linters = true;
    assert_eq!(paths(&choices), vec![".sqlfluff", ".yamllint"]);
}

#[test]
fn scaffold_plan_assistant_file_only() {
    let mut choices = no_choices();
    choices.claude_md = true;
    assert_eq!(paths(&choices), vec!["AGENTS.md"]);
}

#[test]
fn scaffold_plan_precommit_needs_git() {
    let choices = InitChoices { git: false, commit: false, linters: true, precommit: true, claude_md: false };
    assert!(!paths(&choices).contains(&".pre-commit-config.yaml"));
    assert!(!should_setup_precommit(&choices));
}

#[test]
fn scaffold_files_for_everything() {
    let choices = InitChoices { git: true, commit: true, linters: true, precommit: true, claude_md: true };
    assert_eq!(
        paths(&choices),
        vec![".gitignore", ".sqlfluff", ".yamllint", ".pre-commit-config.yaml", "AGENTS.md"]
    );
    let files = scaffold_files(&choices);
    assert_eq!(files[0].content, TEMPLATE_GITIGNORE);
    assert_eq!(files[3].description, "pre-commit hooks config");
    assert!(should_setup_precommit(&choices));
    for f in &files {
        assert!(tolerated_entry(f.path));
    }
}

#[test]
fn commit_only_with_git_and_new_files() {
    assert!(should_commit(&all_choices(), 3));
    assert!(!should_commit(&all_choices(), 0));
    let mut choices = all_choices();
    choices.git = false;
    assert!(!should_commit(&choices, 3));
}

#[test]
fn wizard_questions_and_answers() {
    assert!(!offer_commit(false));
    assert!(offer_commit(true));
    assert!(offer_precommit(true, true, true));
    assert!(!offer_precommit(true, false, true));
    assert!(!offer_precommit(true, true, false));
    let c = InitChoices::from_answers(false, true, true, true, true, true);
    assert_eq!(c, InitChoices { git: false, commit: false, linters: true, precommit: false, claude_md: true });
}

#[test]
fn test_classify_new_directory() {
    assert!(matches!(classify_entries(false, vec![]), TargetState::New));
}

#[test]
fn test_classify_empty_directory() {
    assert!(matches!(classify_entries(true, vec![]), TargetState::Empty));
}

#[test]
fn test_classify_existing_scaffold() {
    assert!(matches!(classify_entries(true, names(&["queries"])), TargetState::ExistingScaffold));
}

#[test]
fn test_classify_tolerates_bare_git_repo() {
    assert!(matches!(classify_entries(true, names(&[".git", "README.md"])), TargetState::ExistingScaffold));
}

#[test]
fn test_classify_rejects_unrelated_files() {
    let TargetState::Unrelated(entries) = classify_entries(true, names(&["Documents", ".zshrc"])) else {
        panic!("expected Unrelated");
    };
    assert!(entries.contains(&"Documents".to_string()));
    assert!(entries.contains(&".zshrc".to_string()));
}

#[test]
fn test_classify_rejects_editor_directories() {
    let TargetState::Unrelated(entries) = classify_entries(true, names(&[".vscode"])) else {
        panic!("expected Unrelated");
    };
    assert_eq!(entries, vec![".vscode".to_string()]);
}

#[test]
fn test_check_target_bails_on_unrelated_directory() {
    let state = classify_entries(true, names(&["Documents", ".zshrc"]));
    let err = check_target(state, "/home/me").unwrap_err();
    let message = err.to_string();
    assert!(message.contains("Documents"));
    assert!(message.contains(".zshrc"));
}

#[test]
fn test_init_allows_rerun_in_existing_scaffold() {
    let entries = names(&[
        ".gitignore",
        ".sqlfluff",
        ".yamllint",
        ".pre-commit-config.yaml",
        "AGENTS.md",
        "queries",
        "dashboards",
    ]);
    assert!(check_target(classify_entries(true, entries), "/tmp/x").is_ok());
}

#[test]
fn tolerated_entry_prefixes_and_names() {
    assert!(tolerated_entry("README"));
    assert!(tolerated_entry("LICENSE-MIT"));
    assert!(tolerated_entry(".DS_Store"));
    assert!(tolerated_entry("snippets"));
    assert!(!tolerated_entry("READM"));
    assert!(!tolerated_entry("readme.md"));
    assert!(!tolerated_entry(".gitignore2"));
}

#[test]
fn unrelated_message_lists_five_sorted_and_counts_the_rest() {
    let state = classify_entries(true, names(&["g", "b", "queries", "f", "a", "e", "d", "c"]));
    let err = check_target(state, "/home/me").unwrap_err();
    assert_eq!(err.entries, names(&["a", "b", "c", "d", "e", "f", "g"]));
    assert_eq!(
        err.to_string(),
        "/home/me contains unrelated files (a, b, c, d, e, and 2 more) and doesn't look like a \
         query/dashboard repository.\nPick an empty or dedicated subdirectory instead, e.g.:\n  \
         stmo-cli init /home/me/stmo-queries"
    );
}

#[test]
fn sort_names_is_byte_order() {
    assert_eq!(sort_names(names(&["b", "B", "a", "é", "aa", ""])), names(&["", "B", "a", "aa", "b", "é"]));
}

#[test]
fn closing_message_variants() {
    let s0 = Summary { files_created: 0, committed: false };
    assert_eq!(closing_message("x", false, &all_choices(), &s0), vec!["\n✓ Repository already initialized"]);

    let s = Summary { files_created: 2, committed: false };
    let lines = closing_message("/t", false, &no_choices(), &s);
    assert_eq!(lines[0], "\n✓ Repository scaffolded successfully");
    assert!(lines[1].starts_with("  Tip: to version these files, run: git -C /t init"));
    assert_eq!(lines[2], "\nNext steps:");
    assert_eq!(lines[3], "  0. cd /t");
    assert_eq!(lines.len(), 8);

    let lines = closing_message(".", true, &all_choices(), &s);
    assert_eq!(lines[1], "  (nothing new to commit)");
    assert_eq!(lines[3], "  1. Set REDASH_API_KEY environment variable");

    let mut choices = all_choices();
    choices.commit = false;
    let lines = closing_message(".", true, &choices, &s);
    assert_eq!(
        lines[1],
        "  Nothing committed. To commit: git -C . add . && git -C . commit -m \"Initial commit\""
    );

    let committed = Summary { files_created: 2, committed: true };
    let lines = closing_message(".", true, &all_choices(), &committed);
    assert_eq!(lines[1], "\nNext steps:");
}

#[test]
fn git_name_configured_needs_visible_output() {
    assert!(git_name_configured(true, &b"Ada\n".to_vec()));
    assert!(!git_name_configured(true, &b" \t\r\n".to_vec()));
    assert!(!git_name_configured(true, &vec![]));
    assert!(!git_name_configured(false, &b"Ada".to_vec()));
}

fn item_keys(choices: &InitChoices) -> Vec<String> {
    scaffold_items(choices).iter().map(|item| presence_key(item, choices.git)).collect()
}

#[test]
fn scaffold_items_and_their_presence_keys() {
    let choices = InitChoices { git: true, commit: true, linters: true, precommit: false, claude_md: false };
    assert_eq!(
        item_keys(&choices),
        vec!["queries/.gitkeep", "dashboards/.gitkeep", ".gitignore", ".sqlfluff", ".yamllint"]
    );
    assert_eq!(item_keys(&no_choices()), vec!["queries", "dashboards"]);
    let items = scaffold_items(&no_choices());
    assert!(matches!(items[0], ScaffoldItem::Directory("queries")));
    assert!(matches!(items[1], ScaffoldItem::Directory("dashboards")));
    match scaffold_items(&choices)[2] {
        ScaffoldItem::File(f) => assert_eq!(f.content, TEMPLATE_GITIGNORE),
        ScaffoldItem::Directory(_) => panic!("expected a file"),
    }
}

#[test]
fn only_missing_items_are_created() {
    let work = plan_creation(&vec![true, false, false, true]);
    assert_eq!(work.create, vec![false, true, true, false]);
    assert_eq!(work.created, 2);
    // a complete scaffold: nothing is created, so nothing is committed
    let work = plan_creation(&vec![true, true, true]);
    assert_eq!(work.created, 0);
    assert!(!should_commit(&all_choices(), work.created));
    assert_eq!(plan_creation(&vec![]).created, 0);
}
