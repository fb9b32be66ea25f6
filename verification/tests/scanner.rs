use cargo_killer::find::{
    effective_threads, is_excluded, plan_directory, thread_count, ProjectTargetAnalysis,
};
use cargo_killer::tree::FsNode;
use cargo_killer::utils::{
    cargo_targets, contains_text, npm_framework_targets, npm_targets, project_kinds,
    push_unique_text, DirSnapshot, TargetRule,
};

fn names(items: &[&str]) -> Vec<String> {
    items.iter().map(|s| s.to_string()).collect()
}

fn snapshot(files: &[&str], dirs: &[&str], package_json: Option<&str>) -> DirSnapshot {
    DirSnapshot {
        file_names: names(files),
        dir_names: names(dirs),
        package_json: package_json.map(|s| s.to_string()),
    }
}

fn file(len: u64, modified: u128) -> FsNode {
    FsNode::File { len, modified }
}

fn dir(children: Vec<FsNode>) -> FsNode {
    FsNode::Dir { children }
}

#[test]
fn recursive_scan_target_ignores_symlinks() {
    let target = dir(vec![file(4, 0), FsNode::Symlink]);
    let (size, _) = ProjectTargetAnalysis::recursive_scan_target(&target);
    assert_eq!(size, 4);
}

#[test]
fn recursive_scan_target_treats_unreadable_entries_as_empty() {
    let target = dir(vec![FsNode::Unreadable, dir(vec![file(3, 7), FsNode::Unreadable]), file(2, 5)]);
    assert_eq!(ProjectTargetAnalysis::recursive_scan_target(&target), (5, 7));
    assert_eq!(ProjectTargetAnalysis::recursive_scan_target(&FsNode::Unreadable), (0, 0));
    assert_eq!(ProjectTargetAnalysis::recursive_scan_target(&FsNode::Symlink), (0, 0));
}

#[test]
fn recursive_scan_target_saturates_size_and_keeps_newest_time() {
    let target = dir(vec![file(u64::MAX - 1, 10), dir(vec![file(5, 99)]), file(1, 3)]);
    assert_eq!(ProjectTargetAnalysis::recursive_scan_target(&target), (u64::MAX, 99));
    assert_eq!(ProjectTargetAnalysis::recursive_scan_target(&dir(vec![])), (0, 0));
}

#[test]
fn analyze_all_projects_detects_multiple_kinds_and_accepts_zero_threads() {
    // The scan root holds one directory, "combo", and continues into it.
    let root = snapshot(&[], &["combo"], None);
    let root_plan = plan_directory(&root, false);
    assert!(root_plan.found_targets.is_empty());
    assert_eq!(root_plan.descend, vec![0]);

    let combo = snapshot(
        &["Cargo.toml", "package.json"],
        &["target", "node_modules", ".next"],
        Some(r#"{"dependencies":{"next":"14"}}"#),
    );
    let plan = plan_directory(&combo, false);
    assert_eq!(plan.kinds, vec!["cargo", "npm"]);
    assert_eq!(plan.found_targets, vec!["target", "node_modules", ".next"]);
    assert!(plan.descend.is_empty());

    let scanned = vec![
        ("target", dir(vec![dir(vec![file(2, 1)])])),
        ("node_modules", dir(vec![file(3, 2)])),
        (".next", dir(vec![dir(vec![file(5, 3)])])),
    ];
    let analysis = ProjectTargetAnalysis::analyze("combo".to_string(), plan.kinds, scanned);
    assert_eq!(analysis.project_path, "combo");
    assert_eq!(analysis.kinds, vec!["cargo", "npm"]);
    assert_eq!(analysis.targets, vec!["target", "node_modules", ".next"]);
    assert_eq!(analysis.size, 10);
    assert_eq!(analysis.last_modified, 3);
    assert!(thread_count(0) >= 1);
}

#[test]
fn analyze_all_projects_surfaces_git_only_when_requested() {
    let checkout = snapshot(&[], &[".git"], None);

    let without_git = plan_directory(&checkout, false);
    assert!(without_git.kinds.is_empty());
    assert!(without_git.found_targets.is_empty());
    assert!(without_git.descend.is_empty());

    let with_git = plan_directory(&checkout, true);
    assert_eq!(with_git.kinds, vec!["git"]);
    assert_eq!(with_git.found_targets, vec![".git"]);
    let analysis = ProjectTargetAnalysis::analyze(
        "checkout".to_string(),
        with_git.kinds,
        vec![(".git", dir(vec![dir(vec![file(7, 1)])]))],
    );
    assert_eq!(analysis.kinds, vec!["git"]);
    assert_eq!(analysis.targets, vec![".git"]);
    assert_eq!(analysis.size, 7);
}

#[test]
fn npm_framework_targets_detects_supported_dependencies_once() {
    let text = r#"{
                "dependencies": {"next": "14", "nuxt": "3"},
                "devDependencies": {"next": "14", "@sveltejs/kit": "2"}
            }"#;
    let targets = npm_framework_targets(Some(text));
    assert_eq!(targets, vec![".next", ".nuxt", ".output", ".svelte-kit"]);
}

#[test]
fn npm_framework_targets_ignores_missing_or_malformed_package_json() {
    assert!(npm_framework_targets(None).is_empty());
    assert!(npm_framework_targets(Some(r#"{"dependencies":{"next""#)).is_empty());
}

#[test]
fn npm_targets_always_includes_node_modules() {
    let root = snapshot(
        &["package.json"],
        &[],
        Some(r#"{"devDependencies":{"@sveltejs/kit":"2"}}"#),
    );
    assert_eq!(npm_targets(&root), vec!["node_modules", ".svelte-kit"]);
    let unreadable = snapshot(&["package.json"], &[], None);
    assert_eq!(npm_targets(&unreadable), vec!["node_modules"]);
}

#[test]
fn npm_framework_targets_skip_sections_that_are_not_objects() {
    let text = r#"{"dependencies": ["next"], "devDependencies": {"nuxt3": "3", "nuxt": "3"}}"#;
    assert_eq!(npm_framework_targets(Some(text)), vec![".nuxt", ".output"]);
    assert!(npm_framework_targets(Some("[1, 2, 3]")).is_empty());
    assert!(npm_framework_targets(Some(r#"{"dependencies": {"react": "18"}}"#)).is_empty());
}

#[test]
fn cargo_targets_is_target() {
    assert_eq!(cargo_targets(&snapshot(&["Cargo.toml"], &[], None)), vec!["target"]);
}

#[test]
fn project_kinds_lists_cargo_then_npm() {
    let kinds = project_kinds();
    assert_eq!(kinds.len(), 2);
    assert_eq!(kinds[0].name, "cargo");
    assert_eq!(kinds[0].identifier, "Cargo.toml");
    assert_eq!(kinds[0].targets, TargetRule::Cargo);
    assert_eq!(kinds[1].name, "npm");
    assert_eq!(kinds[1].identifier, "package.json");
    assert_eq!(kinds[1].targets, TargetRule::Npm);
    let root = snapshot(&["package.json"], &[], None);
    assert_eq!(kinds[1].candidate_targets(&root), vec!["node_modules"]);
}

#[test]
fn plan_directory_skips_excluded_and_target_directories() {
    let root = snapshot(
        &["Cargo.toml"],
        &["src", "target", "crates", ".git", "node_modules", ".vscode", "docs"],
        None,
    );
    let plan = plan_directory(&root, false);
    assert_eq!(plan.kinds, vec!["cargo"]);
    assert_eq!(plan.candidate_targets, vec!["target"]);
    assert_eq!(plan.found_targets, vec!["target"]);
    assert_eq!(plan.descend, vec![2, 6]);
}

#[test]
fn plan_directory_needs_an_existing_target() {
    let root = snapshot(&["package.json"], &["lib"], Some(r#"{"dependencies":{"next":"1"}}"#));
    let plan = plan_directory(&root, false);
    assert_eq!(plan.kinds, vec!["npm"]);
    assert_eq!(plan.candidate_targets, vec!["node_modules", ".next"]);
    assert!(plan.found_targets.is_empty());
    assert_eq!(plan.descend, vec![0]);
}

#[test]
fn plan_directory_lists_git_once_with_other_kinds() {
    let root = snapshot(&["Cargo.toml"], &["target", ".git"], None);
    let plan = plan_directory(&root, true);
    assert_eq!(plan.kinds, vec!["cargo", "git"]);
    assert_eq!(plan.candidate_targets, vec!["target", ".git"]);
    assert_eq!(plan.found_targets, vec!["target", ".git"]);
    assert!(plan.descend.is_empty());
    // A file named .git (a worktree link) does not make a project.
    let worktree = snapshot(&[".git"], &[], None);
    assert!(plan_directory(&worktree, true).kinds.is_empty());
}

#[test]
fn excluded_directory_names() {
    for name in [".git", "node_modules", ".vscode", "src"] {
        assert!(is_excluded(name));
    }
    for name in ["target", "Src", "", "vscode"] {
        assert!(!is_excluded(name));
    }
}

#[test]
fn thread_counts_are_clamped() {
    assert_eq!(effective_threads(0, 8), 1);
    assert_eq!(effective_threads(3, 8), 3);
    assert_eq!(effective_threads(16, 8), 8);
    assert_eq!(effective_threads(4, 0), 1);
    let n = thread_count(1);
    assert_eq!(n, 1);
    let m = thread_count(usize::MAX);
    assert!(m >= 1);
}

#[test]
fn display_line_shows_path_kinds_targets_and_size() {
    let analysis = ProjectTargetAnalysis::analyze(
        "/work/combo".to_string(),
        vec!["cargo", "npm"],
        vec![("target", file(1_230, 0)), ("node_modules", FsNode::Unreadable)],
    );
    assert_eq!(
        analysis.to_string(),
        "/work/combo \t| cargo, npm \t| target, node_modules \t| 1.23 KB"
    );
    let small = ProjectTargetAnalysis::analyze("p".to_string(), vec!["git"], vec![(".git", file(123, 0))]);
    assert_eq!(small.to_string(), "p \t| git \t| .git \t| 123 B");
}

#[test]
fn unique_helpers_keep_first_occurrence() {
    let mut v = vec!["a", "b"];
    push_unique_text(&mut v, "a");
    push_unique_text(&mut v, "c");
    assert_eq!(v, vec!["a", "b", "c"]);
    assert!(contains_text(&v, "c"));
    assert!(!contains_text(&v, "d"));
}
