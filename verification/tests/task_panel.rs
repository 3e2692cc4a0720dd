use agentx::task_panel::{
    avatar_hue, avatar_letter, bytes_contain, categorize_by_date, initial_or_placeholder,
    task_matches, text_contains, DateSection, IndexPath, TaskPanelDelegate, WorkspaceTask,
};

fn task(name: &str, created_at: u64, created_day: i64) -> WorkspaceTask {
    WorkspaceTask {
        name: name.to_string(),
        session_id: None,
        last_message: None,
        created_at,
        created_day,
    }
}

fn names(delegate: &TaskPanelDelegate, section: usize) -> Vec<String> {
    (0..delegate.section_count(section))
        .map(|row| delegate.task_at(section, row).unwrap().name.clone())
        .collect()
}

#[test]
fn sections_have_labels_and_places() {
    assert_eq!(DateSection::Today.label(), "今天");
    assert_eq!(DateSection::Yesterday.label(), "昨天");
    assert_eq!(DateSection::Last30Days.label(), "过去30天");
    assert_eq!(
        DateSection::all(),
        [DateSection::Today, DateSection::Yesterday, DateSection::Last30Days]
    );
    assert_eq!(DateSection::from_index(0), Some(DateSection::Today));
    assert_eq!(DateSection::from_index(1), Some(DateSection::Yesterday));
    assert_eq!(DateSection::from_index(2), Some(DateSection::Last30Days));
    assert_eq!(DateSection::from_index(3), None);
    assert_eq!(DateSection::from_index(usize::MAX), None);
    for (index, section) in DateSection::all().iter().enumerate() {
        assert_eq!(section.index(), index);
    }
}

#[test]
fn a_task_is_put_under_the_day_it_was_made() {
    assert_eq!(categorize_by_date(100, 100), DateSection::Today);
    assert_eq!(categorize_by_date(99, 100), DateSection::Yesterday);
    assert_eq!(categorize_by_date(98, 100), DateSection::Last30Days);
    assert_eq!(categorize_by_date(0, 100), DateSection::Last30Days);
    assert_eq!(categorize_by_date(101, 100), DateSection::Last30Days);
    assert_eq!(categorize_by_date(i64::MAX, i64::MIN), DateSection::Last30Days);
    assert_eq!(categorize_by_date(i64::MIN, i64::MIN), DateSection::Today);
}

#[test]
fn the_avatar_letter_is_the_upper_case_initial() {
    assert_eq!(avatar_letter("alice"), "A");
    assert_eq!(avatar_letter("Bob"), "B");
    assert_eq!(avatar_letter("élan"), "É");
    assert_eq!(avatar_letter("ßtraße"), "SS");
    assert_eq!(avatar_letter("7up"), "7");
    assert_eq!(avatar_letter(""), "?");
    assert_eq!(initial_or_placeholder(None), "?");
    assert_eq!(initial_or_placeholder(Some("X".to_string())), "X");
}

#[test]
fn the_avatar_hue_is_the_byte_sum_modulo_360() {
    assert_eq!(avatar_hue(""), 0);
    assert_eq!(avatar_hue("a"), 97);
    // 97 + 98 + 99 + 100 = 394
    assert_eq!(avatar_hue("abcd"), 34);
    // "é" is 0xC3 0xA9: 195 + 169 = 364
    assert_eq!(avatar_hue("é"), 4);
    assert_eq!(avatar_hue("alice"), avatar_hue("alice"));
    let long = "z".repeat(1000);
    assert_eq!(avatar_hue(&long), (122 * 1000) % 360);
}

#[test]
fn the_filter_looks_at_name_and_last_message_without_case() {
    let mut t = task("Fix the Parser", 0, 0);
    assert!(task_matches(&t, ""));
    assert!(task_matches(&t, "parser"));
    assert!(task_matches(&t, "fix the"));
    assert!(!task_matches(&t, "lexer"));
    t.last_message = Some("Running LEXER tests".to_string());
    assert!(task_matches(&t, "lexer"));
    assert!(!task_matches(&t, "Parser"));
}

#[test]
fn tasks_are_grouped_by_day_with_the_latest_first() {
    let mut delegate = TaskPanelDelegate::new();
    assert_eq!(delegate.total_count(), 0);
    let today = 20_000;
    delegate.load_tasks(
        vec![
            task("old", 10, today - 5),
            task("morning", 100, today),
            task("yesterday-early", 50, today - 1),
            task("noon", 200, today),
            task("yesterday-late", 60, today - 1),
            task("twin-a", 150, today),
            task("twin-b", 150, today),
            task("tomorrow", 900, today + 1),
        ],
        today,
    );
    assert_eq!(names(&delegate, 0), vec!["noon", "twin-a", "twin-b", "morning"]);
    assert_eq!(names(&delegate, 1), vec!["yesterday-late", "yesterday-early"]);
    assert_eq!(names(&delegate, 2), vec!["tomorrow", "old"]);
    assert_eq!(delegate.section_count(0), 4);
    assert_eq!(delegate.section_count(1), 2);
    assert_eq!(delegate.section_count(2), 2);
    assert_eq!(delegate.section_count(3), 0);
    assert_eq!(delegate.total_count(), 8);
    assert!(delegate.task_at(0, 4).is_none());
    assert!(delegate.task_at(3, 0).is_none());

    delegate.prepare("TWIN".to_string(), today);
    assert_eq!(names(&delegate, 0), vec!["twin-a", "twin-b"]);
    assert_eq!(delegate.total_count(), 2);

    // A day later everything moves one section down.
    delegate.prepare(String::new(), today + 1);
    assert_eq!(names(&delegate, 0), vec!["tomorrow"]);
    assert_eq!(names(&delegate, 1), vec!["noon", "twin-a", "twin-b", "morning"]);
    assert_eq!(names(&delegate, 2), vec!["yesterday-late", "yesterday-early", "old"]);
}

#[test]
fn the_selected_task_is_the_task_in_the_selected_row() {
    let mut delegate = TaskPanelDelegate::new();
    delegate.load_tasks(vec![task("a", 1, 5), task("b", 2, 5), task("c", 3, 4)], 5);
    assert!(delegate.selected_task().is_none());
    delegate.set_selected_index(Some(IndexPath { section: 0, row: 1 }));
    assert_eq!(delegate.selected_task().unwrap().name, "a");
    delegate.set_selected_index(Some(IndexPath { section: 1, row: 0 }));
    assert_eq!(delegate.selected_task().unwrap().name, "c");
    delegate.set_selected_index(Some(IndexPath { section: 1, row: 1 }));
    assert!(delegate.selected_task().is_none());
    delegate.set_selected_index(Some(IndexPath { section: 7, row: 0 }));
    assert!(delegate.selected_task().is_none());
}

#[test]
fn sections_collapse_and_open() {
    let mut delegate = TaskPanelDelegate::new();
    assert!(!delegate.is_section_collapsed(1));
    delegate.toggle_section(1);
    assert!(delegate.is_section_collapsed(1));
    assert!(!delegate.is_section_collapsed(0));
    assert!(!delegate.is_section_collapsed(2));
    delegate.toggle_section(1);
    assert!(!delegate.is_section_collapsed(1));
    delegate.toggle_section(9);
    assert!(!delegate.is_section_collapsed(9));
}

#[test]
fn a_message_goes_to_the_first_task_of_the_session_that_is_not_listed() {
    let mut delegate = TaskPanelDelegate::new();
    let mut shown = task("shown", 1, 5);
    shown.session_id = Some("s1".to_string());
    let mut hidden = task("hidden", 2, 5);
    hidden.session_id = Some("s1".to_string());
    delegate.prepare("shown".to_string(), 5);
    delegate.load_tasks(vec![shown, hidden], 5);
    assert_eq!(names(&delegate, 0), vec!["shown"]);

    // No task of that session.
    assert!(!delegate.update_task_message("s2", "x".to_string(), 5));
    // The listed task is passed over, the hidden one takes the message and,
    // passing the filter now, is listed too.
    assert!(delegate.update_task_message("s1", "now shown as well".to_string(), 5));
    assert_eq!(names(&delegate, 0), vec!["hidden", "shown"]);
    assert_eq!(
        delegate.task_at(0, 0).unwrap().last_message,
        Some("now shown as well".to_string())
    );
    assert_eq!(delegate.task_at(0, 1).unwrap().last_message, None);
    // Both are listed now: nothing can take a message.
    assert!(!delegate.update_task_message("s1", "again".to_string(), 5));
}

#[test]
fn a_text_occurs_in_another_as_a_run_of_bytes() {
    assert!(text_contains("hello world", ""));
    assert!(text_contains("", ""));
    assert!(!text_contains("", "a"));
    assert!(text_contains("hello world", "hello"));
    assert!(text_contains("hello world", "world"));
    assert!(text_contains("hello world", "o w"));
    assert!(!text_contains("hello world", "worlds"));
    assert!(!text_contains("hello", "hello world"));
    assert!(text_contains("naïve café", "é"));
    assert!(!text_contains("naive cafe", "é"));
    assert!(bytes_contain(&[1, 2, 3, 2, 3, 4], &[2, 3, 4]));
    assert!(!bytes_contain(&[1, 2, 3, 2, 3], &[2, 3, 4]));
    for (text, part) in [("abcabc", "cab"), ("aaa", "aaaa"), ("mississippi", "issip"), ("x", "x")] {
        assert_eq!(text_contains(text, part), text.contains(part));
    }
}
