use toprompt::gitignore::{load_gitignore, GitIgnore};
use toprompt::pattern::GitIgnorePattern;

#[test]
fn negation_after_exclusion_keeps_file() {
    let rules = load_gitignore("*.log\n!keep.log\n", "");
    assert!(!rules.should_ignore("keep.log", false));
    assert!(rules.should_ignore("other.log", false));
}

#[test]
fn exclusion_after_negation_wins() {
    let rules = load_gitignore("!keep.log\n*.log\n", "");
    assert!(rules.should_ignore("keep.log", false));
    assert!(rules.should_ignore("other.log", false));
}

#[test]
fn anchored_rule_matches_top_level_only() {
    let rules = load_gitignore("/build\n", "");
    assert!(rules.should_ignore("build", true));
    assert!(rules.should_ignore("build", false));
    assert!(!rules.should_ignore("src/build", true));
    assert!(!rules.should_ignore("a/b/build", false));
}

#[test]
fn bare_rule_matches_at_any_depth() {
    let rules = load_gitignore("build\n", "");
    assert!(rules.should_ignore("build", true));
    assert!(rules.should_ignore("src/build", true));
    assert!(rules.should_ignore("a/b/build", false));
    assert!(!rules.should_ignore("a/b/builder", false));
}

#[test]
fn directory_only_rule_skips_files() {
    let rules = load_gitignore("out/\n", "");
    assert!(rules.should_ignore("out", true));
    assert!(!rules.should_ignore("out", false));
    assert!(rules.should_ignore("x/out", true));
}

#[test]
fn defaults_ignore_git_and_ignore_files() {
    let rules = GitIgnore::with_defaults();
    assert_eq!(rules.len(), 2);
    assert!(rules.should_ignore(".gitignore", false));
    assert!(rules.should_ignore("sub/.gitignore", false));
    assert!(rules.should_ignore(".git", true));
    assert!(rules.should_ignore("sub/.git", true));
    assert!(!rules.should_ignore(".git", false));
    assert!(!rules.should_ignore("main.rs", false));
}

#[test]
fn defaults_hold_after_merge() {
    let mut rules = GitIgnore::with_defaults();
    rules.merge(load_gitignore("*.log\n", ""));
    assert_eq!(rules.len(), 3);
    assert!(rules.should_ignore(".gitignore", false));
    assert!(rules.should_ignore(".git", true));
    assert!(rules.should_ignore("a.log", false));
}

#[test]
fn tmp_pattern_set_scenario() {
    let rules = load_gitignore("*.tmp\n!important.tmp", "");
    assert!(rules.should_ignore("a.tmp", false));
    assert!(!rules.should_ignore("important.tmp", false));
}

#[test]
fn empty_set_ignores_nothing() {
    let rules = GitIgnore::empty();
    assert_eq!(rules.len(), 0);
    assert!(!rules.should_ignore("a.log", false));
}

#[test]
fn loader_skips_blank_and_comment_lines() {
    let rules = load_gitignore("# logs\n\n   \n  *.log  \r\n#*.rs\n", "");
    assert_eq!(rules.len(), 1);
    assert!(rules.should_ignore("a.log", false));
    assert!(!rules.should_ignore("a.rs", false));
}

#[test]
fn scoped_rules_apply_inside_their_directory_only() {
    let rules = load_gitignore("*.log\n/top.txt\n", "sub");
    assert!(rules.should_ignore("sub/a.log", false));
    assert!(rules.should_ignore("sub/deeper/a.log", false));
    assert!(!rules.should_ignore("a.log", false));
    assert!(!rules.should_ignore("subway/a.log", false));
    assert!(rules.should_ignore("sub/top.txt", false));
    assert!(!rules.should_ignore("sub/x/top.txt", false));
}

#[test]
fn rule_with_inner_slash_matches_whole_path() {
    let rules = load_gitignore("docs/*.md\n", "");
    assert!(rules.should_ignore("docs/a.md", false));
    assert!(!rules.should_ignore("a.md", false));
    assert!(!rules.should_ignore("x/docs/a.md", false));
}

#[test]
fn clone_keeps_rules() {
    let rules = load_gitignore("*.log\n", "");
    let copy = rules.clone();
    assert_eq!(copy.len(), 1);
    assert!(copy.should_ignore("a.log", false));
}

#[test]
fn parse_skips_inert_lines() {
    assert!(GitIgnorePattern::new("", "").is_none());
    assert!(GitIgnorePattern::new("   ", "").is_none());
    assert!(GitIgnorePattern::new("# note", "").is_none());
    assert!(GitIgnorePattern::new("!", "").is_none());
    assert!(GitIgnorePattern::new("/", "").is_none());
    assert!(GitIgnorePattern::new("!//", "").is_none());
}

#[test]
fn parse_reads_markers() {
    let p = GitIgnorePattern::new("  !/out/  ", "").unwrap();
    assert!(p.is_negation());
    assert!(p.matches("out", true));
    assert!(!p.matches("out", false));
    assert!(!p.matches("a/out", true));
    let q = GitIgnorePattern::new("*.log", "").unwrap();
    assert!(!q.is_negation());
    assert!(q.matches("a/b.log", false));
}

#[test]
fn pattern_applies_within_scope() {
    let p = GitIgnorePattern::new("*.log", "sub").unwrap();
    assert!(p.applies_to("sub/a.log", false));
    assert!(!p.applies_to("a.log", false));
    assert!(!p.applies_to("sub", true));
}

#[test]
fn any_component_matching() {
    let p = GitIgnorePattern::new("node_modules", "").unwrap();
    assert!(p.matches_against_any_component("a/node_modules/b", true));
    assert!(!p.matches_against_any_component("a/node_modules/b", false));
    assert!(p.matches_against_any_component("a/node_modules", false));
    let d = GitIgnorePattern::new("out/", "").unwrap();
    assert!(!d.matches_against_any_component("out", false));
    assert!(d.matches_against_any_component("x/out", true));
}

#[test]
fn unicode_white_space_is_trimmed_from_rules() {
    assert!(GitIgnorePattern::new("\u{3000}", "").is_none());
    let p = GitIgnorePattern::new("\u{3000}x\u{a0}", "").unwrap();
    assert!(p.matches("x", false));
    let rules = load_gitignore("\u{3000}\n\u{2003}*.log\u{85}\n", "");
    assert_eq!(rules.len(), 1);
    assert!(rules.should_ignore("a.log", false));
}
