use toprompt::collect::{accepts_answer, format_file_block, needs_confirmation, Collected};
use toprompt::language::get_language_from_extension;

#[test]
fn file_block_layout() {
    let block = format_file_block("src/main.rs", "rust", "fn main() {}\n\n  ");
    assert_eq!(block, "# src/main.rs\n```rust\nfn main() {}\n```");
}

#[test]
fn blocks_are_joined_by_empty_line() {
    let c = Collected::new();
    assert_eq!(c.count(), 0);
    let c = c.add("A", "a".to_string());
    assert_eq!(c.text(), "A");
    let c = c.add("B", "b".to_string());
    assert_eq!(c.text(), "A\n\nB");
    assert_eq!(c.count(), 2);
    assert_eq!(c.names(), &vec!["a".to_string(), "b".to_string()]);
}

#[test]
fn language_labels_by_extension() {
    assert_eq!(get_language_from_extension("src/main.rs"), "rust");
    assert_eq!(get_language_from_extension("a/b/c.py"), "python");
    assert_eq!(get_language_from_extension("x.h"), "cpp");
    assert_eq!(get_language_from_extension("x.mm"), "objective-c");
    assert_eq!(get_language_from_extension("build.Dockerfile"), "dockerfile");
    assert_eq!(get_language_from_extension("a.tar.gz"), "");
    assert_eq!(get_language_from_extension("Makefile"), "");
    assert_eq!(get_language_from_extension(".bashrc"), "");
    assert_eq!(get_language_from_extension("dir.rs/file"), "");
    assert_eq!(get_language_from_extension("notes."), "");
}

#[test]
fn confirmation_over_ten_entries_when_verbose() {
    assert!(needs_confirmation(true, true, 11));
    assert!(!needs_confirmation(true, true, 10));
    assert!(!needs_confirmation(false, true, 50));
    assert!(!needs_confirmation(true, false, 50));
}

#[test]
fn answers_starting_with_y_accept() {
    assert!(accepts_answer("y\n"));
    assert!(accepts_answer("  Yes please"));
    assert!(!accepts_answer("n"));
    assert!(!accepts_answer(""));
    assert!(!accepts_answer("  \n"));
}

#[test]
fn unicode_white_space_is_trimmed_from_contents_and_answers() {
    let block = format_file_block("a.txt", "", "text\u{a0}\u{3000}\n");
    assert_eq!(block, "# a.txt\n```\ntext\n```");
    assert!(accepts_answer("\u{3000}y"));
}
