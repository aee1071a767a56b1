use kpcli::format::{decimal_string, format_entry, search_report, Emphasis, Line};
use kpcli::nav::{Action, Navigator};
use kpcli::search::search_entry_by_title;
use kpcli::tree::{DisplayError, Entry, Tree};

fn entry(title: &str, user: &str, pass: &str) -> Entry {
    let mut e = Entry::new();
    e.set("Title", title);
    e.set("UserName", user);
    e.set("Password", pass);
    e
}

/// Root "Database" holding the group "Web" and the entry "Email".
fn sample() -> (Tree, usize, usize) {
    let mut t = Tree::new("Database");
    let web = t.add_group(0, "Web");
    let email = t.add_entry(0, entry("Email", "a@x.com", "p1"));
    (t, web, email)
}

fn view(lines: &[Line]) -> Vec<(String, String, Emphasis)> {
    lines
        .iter()
        .map(|l| (l.prefix.clone(), l.value.clone(), l.emphasis))
        .collect()
}

#[test]
fn initial_display_lists_children_in_order() {
    let (t, _, _) = sample();
    let nav = Navigator::new();
    assert_eq!(nav.depth(), 1);
    assert_eq!(nav.cursor(), 0);
    assert_eq!(nav.breadcrumb(&t), "Database");
    assert_eq!(nav.hint(), "(press ESC to exit)");
    let labels = nav.labels(&t).unwrap();
    assert_eq!(labels, vec!["\u{1F4C1} Web".to_string(), "\u{1F511} Email".to_string()]);
}

#[test]
fn selecting_group_then_cancelling_restores_cursor() {
    let (t, web, _) = sample();
    let mut nav = Navigator::new();
    assert_eq!(nav.step(&t, Some(0)), Action::Descended);
    assert_eq!(nav.depth(), 2);
    assert_eq!(nav.current_group(), web);
    assert_eq!(nav.cursor(), 0);
    assert_eq!(nav.breadcrumb(&t), "Database > Web");
    assert_eq!(nav.hint(), "(press ESC to go back)");
    assert_eq!(nav.labels(&t).unwrap(), Vec::<String>::new());
    assert_eq!(nav.step(&t, None), Action::Ascended);
    assert_eq!(nav.depth(), 1);
    assert_eq!(nav.current_group(), 0);
    assert_eq!(nav.cursor(), 0);
    assert_eq!(nav.breadcrumb(&t), "Database");
}

#[test]
fn selecting_entry_shows_it_and_stays() {
    let (t, _, email) = sample();
    let mut nav = Navigator::new();
    assert_eq!(nav.step(&t, Some(1)), Action::ShowEntry(email));
    assert_eq!(nav.depth(), 1);
    assert_eq!(nav.current_group(), 0);
    assert_eq!(nav.cursor(), 1);
    match &t.nodes[email] {
        kpcli::tree::Node::Entry(e) => {
            let lines = format_entry(e).unwrap();
            assert_eq!(
                view(&lines),
                vec![
                    (String::new(), "Email".to_string(), Emphasis::Italic),
                    ("  \u{1F464}: ".to_string(), "a@x.com".to_string(), Emphasis::Bold),
                    ("  \u{1F511}: ".to_string(), "p1".to_string(), Emphasis::Bold),
                ]
            );
        }
        _ => panic!("not an entry"),
    }
}

#[test]
fn cancelling_from_root_finishes() {
    let (t, _, _) = sample();
    let mut nav = Navigator::new();
    assert_eq!(nav.cancel(&t), Action::Finished);
    assert!(nav.is_finished());
    assert_eq!(nav.depth(), 0);
}

#[test]
fn cancels_needed_equal_depth_plus_one() {
    let mut t = Tree::new("Root");
    let a = t.add_group(0, "A");
    let b = t.add_group(a, "B");
    t.add_entry(b, entry("Deep", "u", "p"));
    let mut nav = Navigator::new();
    assert_eq!(nav.step(&t, Some(0)), Action::Descended);
    assert_eq!(nav.step(&t, Some(0)), Action::Descended);
    assert_eq!(nav.breadcrumb(&t), "Root > A > B");
    assert_eq!(nav.step(&t, None), Action::Ascended);
    assert_eq!(nav.breadcrumb(&t), "Root > A");
    assert_eq!(nav.step(&t, None), Action::Ascended);
    assert!(!nav.is_finished());
    assert_eq!(nav.step(&t, None), Action::Finished);
    assert!(nav.is_finished());
}

#[test]
fn cursor_remembered_at_each_level() {
    let mut t = Tree::new("Root");
    t.add_entry(0, entry("One", "u", "p"));
    t.add_entry(0, entry("Two", "u", "p"));
    let g = t.add_group(0, "G");
    t.add_entry(g, entry("X", "u", "p"));
    let mut nav = Navigator::new();
    assert!(matches!(nav.step(&t, Some(1)), Action::ShowEntry(_)));
    assert_eq!(nav.cursor(), 1);
    assert_eq!(nav.step(&t, Some(2)), Action::Descended);
    assert!(matches!(nav.step(&t, Some(0)), Action::ShowEntry(_)));
    assert_eq!(nav.cursor(), 0);
    assert_eq!(nav.step(&t, None), Action::Ascended);
    assert_eq!(nav.cursor(), 2);
    assert_eq!(nav.item_count(&t), 3);
}

#[test]
fn label_of_untitled_entry_is_an_error() {
    let mut t = Tree::new("Root");
    let mut e = Entry::new();
    e.set("UserName", "u");
    t.add_entry(0, e);
    let nav = Navigator::new();
    assert_eq!(nav.labels(&t), Err(DisplayError::MissingTitle));
}

#[test]
fn search_finds_single_match() {
    let (t, _, email) = sample();
    assert_eq!(search_entry_by_title("Email", &t), vec![email]);
}

#[test]
fn search_without_match_is_empty() {
    let (t, _, _) = sample();
    assert_eq!(search_entry_by_title("Nope", &t), Vec::<usize>::new());
    let report = search_report("Nope", &t).unwrap();
    assert_eq!(
        view(&report),
        vec![(String::new(), "No entries found".to_string(), Emphasis::Plain)]
    );
}

#[test]
fn search_is_exact_and_depth_first() {
    let mut t = Tree::new("Root");
    let a = t.add_group(0, "A");
    let first = t.add_entry(a, entry("Mail", "u1", "p"));
    t.add_entry(a, entry("mail", "u2", "p"));
    t.add_entry(0, entry("Mailbox", "u3", "p"));
    let b = t.add_group(a, "B");
    let deep = t.add_entry(b, entry("Mail", "u4", "p"));
    let last = t.add_entry(0, entry("Mail", "u5", "p"));
    let hits = search_entry_by_title("Mail", &t);
    assert_eq!(hits, vec![first, deep, last]);
    assert_eq!(search_entry_by_title("Mail", &t), hits);
}

#[test]
fn search_skips_untitled_entries() {
    let mut t = Tree::new("Root");
    let mut e = Entry::new();
    e.set("UserName", "u");
    t.add_entry(0, e);
    assert_eq!(search_entry_by_title("", &t), Vec::<usize>::new());
}

#[test]
fn search_report_lists_hits() {
    let (t, _, _) = sample();
    let report = search_report("Email", &t).unwrap();
    assert_eq!(
        view(&report),
        vec![
            (
                String::new(),
                "Found 1 result(s) for title name \"Email\"".to_string(),
                Emphasis::Plain
            ),
            (String::new(), "Email".to_string(), Emphasis::Italic),
            ("  \u{1F464}: ".to_string(), "a@x.com".to_string(), Emphasis::Bold),
            ("  \u{1F511}: ".to_string(), "p1".to_string(), Emphasis::Bold),
            (String::new(), String::new(), Emphasis::Plain),
        ]
    );
}

#[test]
fn search_report_counts_several_hits() {
    let mut t = Tree::new("Root");
    for _ in 0..12 {
        t.add_entry(0, entry("Same", "u", "p"));
    }
    let report = search_report("Same", &t).unwrap();
    assert_eq!(report[0].value, "Found 12 result(s) for title name \"Same\"");
    assert_eq!(report.len(), 1 + 12 * 4);
}

#[test]
fn search_report_fails_on_missing_password() {
    let mut t = Tree::new("Root");
    let mut e = Entry::new();
    e.set("Title", "T");
    e.set("UserName", "u");
    t.add_entry(0, e);
    assert_eq!(search_report("T", &t).err(), Some(DisplayError::MissingPassword));
}

#[test]
fn notes_line_when_present() {
    let mut e = entry("Phone", "me", "pw");
    e.set("Notes", "call back");
    let lines = format_entry(&e).unwrap();
    assert_eq!(lines.len(), 4);
    assert_eq!(lines[3].prefix, "  \u{1F4DD}: ");
    assert!(lines[3].value.contains("call back"));
    assert_eq!(lines[3].emphasis, Emphasis::Plain);
}

#[test]
fn empty_notes_omitted() {
    let mut e = entry("Phone", "me", "pw");
    e.set("Notes", "");
    let lines = format_entry(&e).unwrap();
    assert_eq!(lines.len(), 3);
}

#[test]
fn format_errors_in_field_order() {
    let mut e = Entry::new();
    assert_eq!(format_entry(&e).err(), Some(DisplayError::MissingTitle));
    e.set("Password", "p");
    e.set("Title", "t");
    assert_eq!(format_entry(&e).err(), Some(DisplayError::MissingUsername));
    let mut f = Entry::new();
    f.set("Title", "t");
    f.set("UserName", "u");
    assert_eq!(format_entry(&f).err(), Some(DisplayError::MissingPassword));
}

#[test]
fn field_lookup_takes_first_match() {
    let mut e = Entry::new();
    e.set("Title", "first");
    e.set("Title", "second");
    assert_eq!(e.get("Title").map(|s| s.as_str()), Some("first"));
    assert_eq!(e.get("Missing"), None);
    assert_eq!(e.get_title().map(|s| s.as_str()), Some("first"));
}

#[test]
fn decimal_notation() {
    assert_eq!(decimal_string(0), "0");
    assert_eq!(decimal_string(7), "7");
    assert_eq!(decimal_string(10), "10");
    assert_eq!(decimal_string(1234), "1234");
    assert_eq!(decimal_string(usize::MAX), usize::MAX.to_string());
}
