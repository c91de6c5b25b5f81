use toprompt::filter::PathFilter;
use toprompt::gitignore::GitIgnore;
use toprompt::walker::{Action, Walker};
use toprompt::walk::{
    base_gitignore, enter_directory, join_path, keeps_file_argument, plan_directory, sort_entries,
    with_forward_slashes, DirEntry, Step, WalkConfig,
};

fn entry(name: &str, is_dir: bool) -> DirEntry {
    DirEntry { name: name.to_string(), is_dir }
}

enum Node {
    File(&'static str),
    Dir(&'static str, Option<&'static str>, Vec<Node>),
}

fn listing(children: &[Node]) -> Vec<DirEntry> {
    let mut out = Vec::new();
    for c in children {
        match c {
            Node::File(n) => out.push(entry(n, false)),
            Node::Dir(n, _, _) => out.push(entry(n, true)),
        }
    }
    out
}

fn lookup<'a>(root_text: Option<&'static str>, tree: &'a [Node], dir: &str) -> (Option<&'static str>, &'a [Node]) {
    let mut text = root_text;
    let mut children = tree;
    if dir.is_empty() {
        return (text, children);
    }
    for part in dir.split('/') {
        let mut found = false;
        for c in children {
            if let Node::Dir(n, t, sub) = c {
                if *n == part {
                    text = *t;
                    children = sub;
                    found = true;
                    break;
                }
            }
        }
        assert!(found, "no directory {}", dir);
    }
    (text, children)
}

fn sample_tree() -> Vec<Node> {
    vec![
        Node::File("a.py"),
        Node::File("b.log"),
        Node::File(".gitignore"),
        Node::Dir("sub", Some("*.log"), vec![Node::File("c.py"), Node::File(".gitignore")]),
    ]
}

fn run(cfg: &WalkConfig, root_text: Option<&'static str>, tree: &[Node], filter: Option<PathFilter>) -> Vec<String> {
    let mut out = Vec::new();
    let mut walker = Walker::new(*cfg, filter);
    loop {
        match walker.next() {
            Action::Done => break,
            Action::Collect(p) => out.push(p),
            Action::List(d) => {
                let (text, children) = lookup(root_text, tree, &d);
                walker.listed(text, listing(children));
            }
        }
    }
    out
}

#[test]
fn nested_ignore_files_scenario() {
    let cfg = WalkConfig { use_gitignore: true, recursive: true };
    let kept = run(&cfg, Some("*.log"), &sample_tree(), None);
    assert_eq!(kept, vec!["a.py".to_string(), "sub/c.py".to_string()]);
}

#[test]
fn walk_twice_gives_same_sequence() {
    let cfg = WalkConfig { use_gitignore: true, recursive: true };
    let first = run(&cfg, Some("*.log"), &sample_tree(), None);
    let second = run(&cfg, Some("*.log"), &sample_tree(), None);
    assert_eq!(first, second);
}

#[test]
fn without_ignore_files_everything_is_kept() {
    let cfg = WalkConfig { use_gitignore: false, recursive: true };
    let kept = run(&cfg, Some("*.log"), &sample_tree(), None);
    assert_eq!(
        kept,
        vec![
            ".gitignore".to_string(),
            "a.py".to_string(),
            "b.log".to_string(),
            "sub/.gitignore".to_string(),
            "sub/c.py".to_string(),
        ]
    );
}

#[test]
fn non_recursive_walk_stays_at_base() {
    let cfg = WalkConfig { use_gitignore: true, recursive: false };
    let kept = run(&cfg, Some("*.log"), &sample_tree(), None);
    assert_eq!(kept, vec!["a.py".to_string()]);
}

#[test]
fn ignored_directory_hides_everything_below() {
    let tree = vec![
        Node::File("keep.txt"),
        Node::Dir("build", Some("!*.txt"), vec![Node::File("out.txt"), Node::Dir("deep", None, vec![Node::File("x.txt")])]),
    ];
    let cfg = WalkConfig { use_gitignore: true, recursive: true };
    let kept = run(&cfg, Some("build/"), &tree, None);
    assert_eq!(kept, vec!["keep.txt".to_string()]);
}

#[test]
fn git_directory_is_never_entered() {
    let tree = vec![
        Node::Dir(".git", None, vec![Node::File("HEAD")]),
        Node::File("main.rs"),
        Node::File(".gitignore"),
    ];
    let cfg = WalkConfig { use_gitignore: true, recursive: true };
    let kept = run(&cfg, None, &tree, None);
    assert_eq!(kept, vec!["main.rs".to_string()]);
}

#[test]
fn ignored_directory_is_refused_on_entry() {
    let cfg = WalkConfig { use_gitignore: true, recursive: true };
    let base = base_gitignore(&cfg);
    assert!(enter_directory(&cfg, &base, ".git", None).is_none());
    assert!(enter_directory(&cfg, &base, "src", None).is_some());
    assert!(enter_directory(&cfg, &base, "", None).is_some());
    let off = WalkConfig { use_gitignore: false, recursive: true };
    let none = base_gitignore(&off);
    assert_eq!(none.len(), 0);
    let inside = enter_directory(&off, &none, ".git", Some("*")).unwrap();
    assert_eq!(inside.len(), 0);
}

#[test]
fn entering_adds_local_rules_after_inherited() {
    let cfg = WalkConfig { use_gitignore: true, recursive: true };
    let base = base_gitignore(&cfg);
    let inside = enter_directory(&cfg, &base, "sub", Some("*.tmp\n# note\n!keep.tmp")).unwrap();
    assert_eq!(inside.len(), 4);
    assert!(inside.should_ignore("sub/a.tmp", false));
    assert!(!inside.should_ignore("sub/keep.tmp", false));
    assert!(!inside.should_ignore("a.tmp", false));
}

#[test]
fn plan_follows_sorted_order_whatever_the_listing_order() {
    let cfg = WalkConfig { use_gitignore: false, recursive: true };
    let rules = GitIgnore::empty();
    let one = plan_directory(&cfg, &rules, None, "d", vec![entry("b.rs", false), entry("a", true), entry("c.rs", false)]).steps;
    let two = plan_directory(&cfg, &rules, None, "d", vec![entry("c.rs", false), entry("b.rs", false), entry("a", true)]).steps;
    assert_eq!(one, two);
    assert_eq!(
        one,
        vec![
            Step::Descend("d/a".to_string()),
            Step::File("d/b.rs".to_string()),
            Step::File("d/c.rs".to_string()),
        ]
    );
}

#[test]
fn sort_orders_by_name_then_files_first() {
    let sorted = sort_entries(vec![
        entry("b", false),
        entry("B", false),
        entry("a", true),
        entry("a", false),
        entry("ab", false),
    ]);
    let names: Vec<(String, bool)> = sorted.into_iter().map(|e| (e.name, e.is_dir)).collect();
    assert_eq!(
        names,
        vec![
            ("B".to_string(), false),
            ("a".to_string(), false),
            ("a".to_string(), true),
            ("ab".to_string(), false),
            ("b".to_string(), false),
        ]
    );
}

#[test]
fn regex_filter_applies_to_files_only() {
    let filter = match PathFilter::new(r"^src/.*\.rs$") {
        Ok(f) => f,
        Err(_) => panic!("pattern should compile"),
    };
    let tree = vec![
        Node::File("README.md"),
        Node::Dir("src", None, vec![Node::File("lib.rs"), Node::File("notes.txt")]),
    ];
    let cfg = WalkConfig { use_gitignore: false, recursive: true };
    let kept = run(&cfg, None, &tree, Some(filter));
    assert_eq!(kept, vec!["src/lib.rs".to_string()]);
}

#[test]
fn invalid_regex_is_refused() {
    assert!(PathFilter::new("foo(bar").is_err());
    let f = match PathFilter::new("b+") {
        Ok(f) => f,
        Err(_) => panic!("pattern should compile"),
    };
    assert!(f.is_match("abbbc"));
    assert!(!f.is_match("ac"));
}

#[test]
fn join_path_adds_separator_below_base() {
    assert_eq!(join_path("", "a.rs"), "a.rs");
    assert_eq!(join_path("src", "a.rs"), "src/a.rs");
}

#[test]
fn file_arguments_are_matched_with_forward_slashes() {
    let filter = match PathFilter::new(r"^src/.*\.rs$") {
        Ok(f) => f,
        Err(_) => panic!("pattern should compile"),
    };
    assert!(keeps_file_argument(Some(&filter), "src\\main.rs"));
    assert!(keeps_file_argument(Some(&filter), "src/main.rs"));
    assert!(!keeps_file_argument(Some(&filter), "lib\\main.rs"));
    assert!(keeps_file_argument(None, "anything"));
    assert_eq!(with_forward_slashes("a\\b\\c.rs"), "a/b/c.rs");
}

#[test]
fn walker_lists_base_first_and_ends_with_done() {
    let cfg = WalkConfig { use_gitignore: true, recursive: true };
    let mut w = Walker::new(cfg, None);
    assert_eq!(w.next(), Action::List(String::new()));
    let added = w.listed(Some("*.log"), vec![entry("x.log", false), entry("b", true), entry("a.rs", false)]);
    assert_eq!(added.planned, 2);
    assert_eq!(added.survivors, 2);
    assert_eq!(added.ignored, vec!["x.log".to_string()]);
    assert_eq!(w.next(), Action::Collect("a.rs".to_string()));
    assert_eq!(w.next(), Action::List("b".to_string()));
    assert_eq!(w.listed(None, vec![entry("y.log", false), entry("z.rs", false)]).planned, 1);
    assert_eq!(w.next(), Action::Collect("b/z.rs".to_string()));
    assert_eq!(w.next(), Action::Done);
    assert_eq!(w.next(), Action::Done);
}

#[test]
fn walker_ignores_listing_nobody_asked_for() {
    let cfg = WalkConfig { use_gitignore: false, recursive: true };
    let mut w = Walker::new(cfg, None);
    assert_eq!(w.next(), Action::List(String::new()));
    assert_eq!(w.listed(None, vec![entry("a", false)]).planned, 1);
    let unasked = w.listed(None, vec![entry("b", false)]);
    assert_eq!(unasked.planned, 0);
    assert_eq!(unasked.survivors, 0);
    assert_eq!(w.next(), Action::Collect("a".to_string()));
    assert_eq!(w.next(), Action::Done);
}

#[test]
fn walker_stop_drops_pending_work() {
    let cfg = WalkConfig { use_gitignore: false, recursive: true };
    let mut w = Walker::new(cfg, None);
    assert_eq!(w.next(), Action::List(String::new()));
    assert_eq!(w.listed(None, vec![entry("a", false), entry("b", false)]).planned, 2);
    w.stop();
    assert_eq!(w.next(), Action::Done);
}

#[test]
fn sibling_directories_do_not_share_local_rules() {
    let tree = vec![
        Node::Dir("one", Some("*.txt"), vec![Node::File("a.txt"), Node::File("a.rs")]),
        Node::Dir("two", None, vec![Node::File("b.txt")]),
    ];
    let cfg = WalkConfig { use_gitignore: true, recursive: true };
    let kept = run(&cfg, None, &tree, None);
    assert_eq!(kept, vec!["one/a.rs".to_string(), "two/b.txt".to_string()]);
}

#[test]
fn survivors_count_entries_the_rules_keep() {
    let cfg = WalkConfig { use_gitignore: true, recursive: false };
    let filter = match PathFilter::new(r"\.rs$") {
        Ok(f) => f,
        Err(_) => panic!("pattern should compile"),
    };
    let mut w = Walker::new(cfg, Some(filter));
    assert_eq!(w.next(), Action::List(String::new()));
    let report = w.listed(
        Some("*.log"),
        vec![entry("a.rs", false), entry("b.txt", false), entry("c.log", false), entry("d", true)],
    );
    assert_eq!(report.planned, 1);
    assert_eq!(report.survivors, 3);
    assert_eq!(report.ignored, vec!["c.log".to_string()]);
    assert_eq!(report.unmatched, vec!["b.txt".to_string()]);
}

#[test]
fn plan_reports_what_it_dropped() {
    let cfg = WalkConfig { use_gitignore: true, recursive: true };
    let rules = toprompt::gitignore::load_gitignore("build/\n*.tmp", "");
    let plan = plan_directory(
        &cfg,
        &rules,
        None,
        "",
        vec![entry("x.tmp", false), entry("build", true), entry("src", true), entry("a.rs", false)],
    );
    assert_eq!(plan.steps, vec![Step::File("a.rs".to_string()), Step::Descend("src".to_string())]);
    assert_eq!(plan.ignored, vec!["build".to_string(), "x.tmp".to_string()]);
    assert!(plan.unmatched.is_empty());
}
