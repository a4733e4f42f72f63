use std::cmp::Ordering;
use std::str::FromStr;
use todo_core::keywords::Column;
use todo_core::task::NO_PRIORITY;
use todo_core::{Date, List, Tags, Task, Type};

fn task(subject: &str) -> Task {
    let mut t = Task::new();
    t.subject = subject.to_string();
    t
}

fn tagged(subject: &str, projects: &[&str], finished: bool) -> Task {
    let mut t = task(subject);
    t.projects = projects.iter().map(|p| p.to_string()).collect();
    t.finished = finished;
    t
}

fn names(v: &[&str]) -> Vec<String> {
    v.iter().map(|p| p.to_string()).collect()
}

#[test]
fn markup_escape() {
    let mut task = Task::new();
    task.subject = "P&T keep focus on long term +HoWE".to_string();

    assert_eq!(
        task.markup_subject(),
        "P&amp;T keep focus on long term <b>+HoWE</b>"
    );
}

#[test]
fn escapes_each_special_character_once() {
    assert_eq!(
        task("a & b < c > d ' e \" f").markup_subject(),
        "a &amp; b &lt; c &gt; d &apos; e &quot; f"
    );
    assert_eq!(Task::markup_escape("&amp;"), "&amp;amp;");
    assert_eq!(Task::markup_escape(""), "");
}

#[test]
fn plain_subject_is_only_escaped() {
    assert_eq!(task("fix <b> tags").markup_subject(), "fix &lt;b&gt; tags");
    assert_eq!(task("   ").markup_subject(), "   ");
    assert_eq!(task("").markup_subject(), "");
}

#[test]
fn tag_needs_space_or_start() {
    assert_eq!(task("word+Tag here").markup_subject(), "word+Tag here");
    assert_eq!(task("+Tag here").markup_subject(), "<b>+Tag</b> here");
    assert_eq!(
        task("call @phone-home now").markup_subject(),
        "call <b>@phone-home</b> now"
    );
}

#[test]
fn links_are_detected() {
    assert_eq!(
        task("see http://example.com/a?b=c now").markup_subject(),
        "see <a href=\"http://example.com/a?b=c\">http://example.com/a?b=c</a> now"
    );
    assert_eq!(task("see example.com now").markup_subject(), "see example.com now");
}

#[test]
fn link_target_escapes_ampersand_again() {
    assert_eq!(
        task("http://x.org/?a=1&b=2").markup_subject(),
        "<a href=\"http://x.org/?a=1&amp;amp;b=2\">http://x.org/?a=1&amp;b=2</a>"
    );
}

#[test]
fn new_task_is_empty() {
    let t = Task::new();
    assert_eq!(t.subject, "");
    assert!(!t.finished);
    assert_eq!(t.priority, NO_PRIORITY);
    assert!(t.due_date.is_none() && t.finish_date.is_none());
    assert!(t.threshold_date.is_none() && t.create_date.is_none());
    assert!(t.projects.is_empty() && t.contexts.is_empty());
    assert_eq!(t.id, 0);
}

#[test]
fn parses_a_line() {
    let t = Task::from_str("(A) call mom +Family @phone due:2024-02-01 t:2024-01-15").unwrap();
    assert_eq!(t.priority, 0);
    assert!(!t.finished);
    assert_eq!(t.projects, names(&["Family"]));
    assert_eq!(t.contexts, names(&["phone"]));
    assert_eq!(t.due_date, Some(Date::new(2024, 2, 1)));
    assert_eq!(t.threshold_date, Some(Date::new(2024, 1, 15)));
    assert_eq!(t.id, 0);
    let done = Task::from_str("x 2024-03-02 2024-03-01 water plants").unwrap();
    assert!(done.finished);
    assert_eq!(done.finish_date, Some(Date::new(2024, 3, 2)));
}

#[test]
fn dated_task_sorts_before_undated() {
    let mut a = task("same");
    a.due_date = Some(Date::new(2024, 1, 1));
    let b = task("same");
    assert_eq!(a.cmp(&b), Ordering::Less);
    assert_eq!(b.cmp(&a), Ordering::Greater);
}

#[test]
fn earlier_due_date_sorts_first() {
    let mut a = task("same");
    a.due_date = Some(Date::new(2024, 1, 1));
    let mut b = task("same");
    b.due_date = Some(Date::new(2024, 2, 1));
    assert_eq!(a.cmp(&b), Ordering::Less);
    assert_eq!(b.cmp(&a), Ordering::Greater);
}

#[test]
fn priority_breaks_ties() {
    let mut a = task("same");
    a.priority = 0;
    let mut b = task("same");
    b.priority = 1;
    let c = task("same");
    assert_eq!(a.cmp(&b), Ordering::Less);
    assert_eq!(b.cmp(&a), Ordering::Greater);
    assert_eq!(b.cmp(&c), Ordering::Less);
    assert_eq!(c.cmp(&a), Ordering::Greater);
}

#[test]
fn subject_breaks_ties_then_equal() {
    assert_eq!(task("apple").cmp(&task("banana")), Ordering::Less);
    assert_eq!(task("banana").cmp(&task("apple")), Ordering::Greater);
    assert_eq!(task("app").cmp(&task("apple")), Ordering::Less);
    assert_eq!(task("apple").cmp(&task("apple")), Ordering::Equal);
}

#[test]
fn later_finish_sorts_first() {
    let mut a = tagged("a", &[], true);
    a.finish_date = Some(Date::new(2024, 5, 2));
    let mut b = tagged("b", &[], true);
    b.finish_date = Some(Date::new(2024, 5, 1));
    assert_eq!(a.cmp(&b), Ordering::Less);
    assert_eq!(b.cmp(&a), Ordering::Greater);
}

#[test]
fn ordering_is_transitive_on_samples() {
    let mut a = task("z");
    a.due_date = Some(Date::new(2023, 12, 31));
    let mut b = task("a");
    b.priority = 2;
    let c = task("b");
    assert_eq!(a.cmp(&b), Ordering::Less);
    assert_eq!(b.cmp(&c), Ordering::Less);
    assert_eq!(a.cmp(&c), Ordering::Less);
    assert_eq!(a.cmp(&a), Ordering::Equal);
}

#[test]
fn dates_compare_chronologically() {
    assert_eq!(Date::new(2024, 1, 31).cmp(&Date::new(2024, 2, 1)), Ordering::Less);
    assert_eq!(Date::new(2025, 1, 1).cmp(&Date::new(2024, 12, 31)), Ordering::Greater);
    assert_eq!(Date::new(2024, 3, 3).cmp(&Date::new(2024, 3, 3)), Ordering::Equal);
}

#[test]
fn hierarchical_matching() {
    assert!(Tags::matches("+Area", "+Area"));
    assert!(Tags::matches("+Area-Sub", "+Area"));
    assert!(!Tags::matches("+AreaX", "+Area"));
    assert!(!Tags::matches("+Are", "+Area"));
    assert!(!Tags::matches("+Area", "+Area-Sub"));
}

#[test]
fn get_tags_picks_family() {
    let mut t = tagged("x", &["Work"], false);
    t.contexts = names(&["phone"]);
    assert_eq!(Tags::get_tags(Type::Projects, &t), &names(&["Work"]));
    assert_eq!(Tags::get_tags(Type::Contexts, &t), &names(&["phone"]));
}

#[test]
fn distinct_projects_in_discovery_order() {
    let list = List {
        tasks: vec![
            tagged("a", &["B", "A"], false),
            tagged("b", &["A", "C"], true),
        ],
    };
    assert_eq!(list.projects(), names(&["B", "A", "C"]));
    assert!(list.contexts().is_empty());
}

#[test]
fn progress_counts_sub_tags() {
    let list = List {
        tasks: vec![
            tagged("a", &["Area"], true),
            tagged("b", &["Area-Sub"], false),
            tagged("c", &["AreaX"], true),
            tagged("d", &["Other"], false),
        ],
    };
    assert_eq!(Tags::get_progress(Type::Projects, &list, "Area"), (1, 2));
    assert_eq!(Tags::get_progress(Type::Projects, &list, "Area-Sub"), (0, 1));
    assert_eq!(Tags::get_progress(Type::Projects, &list, "AreaX"), (1, 1));
    assert_eq!(Tags::get_progress(Type::Contexts, &list, "Area"), (0, 0));
}

#[test]
fn finished_tags_are_dropped() {
    let list = List {
        tasks: vec![
            tagged("a", &["Area"], true),
            tagged("b", &["Area-Sub"], false),
            tagged("c", &["Done"], true),
            tagged("d", &["Done-Part"], true),
        ],
    };
    let active = Tags::update_tags(Type::Projects, &list);
    assert_eq!(
        active,
        vec![("Area".to_string(), 1, 2), ("Area-Sub".to_string(), 0, 1)]
    );
}

#[test]
fn has_filter_is_exact() {
    let tags = names(&["Area-Sub", "Home"]);
    assert!(Tags::has_filter(&tags, &names(&["Home"])));
    assert!(!Tags::has_filter(&tags, &names(&["Area"])));
    assert!(!Tags::has_filter(&tags, &[]));
}

#[test]
fn threshold_gates_visibility() {
    let today = Date::new(2024, 6, 10);
    let mut later = tagged("later", &["Work"], false);
    later.threshold_date = Some(Date::new(2024, 6, 11));
    let mut now = tagged("now", &["Work"], false);
    now.threshold_date = Some(Date::new(2024, 6, 10));
    let list = List { tasks: vec![later, now] };
    let shown = Tags::update_tasks(Type::Projects, &list, &[], today);
    assert_eq!(shown.len(), 1);
    assert_eq!(shown[0].subject, "now");
    let shown = Tags::update_tasks(Type::Projects, &list, &[], Date::new(2024, 6, 11));
    assert_eq!(shown.len(), 2);
}

#[test]
fn visibility_needs_unfinished_tagged_and_filtered() {
    let today = Date::new(2024, 6, 10);
    let list = List {
        tasks: vec![
            tagged("done", &["Work"], true),
            tagged("untagged", &[], false),
            tagged("work", &["Work"], false),
            tagged("sub", &["Work-Sub"], false),
            tagged("home", &["Home"], false),
        ],
    };
    let all = Tags::update_tasks(Type::Projects, &list, &[], today);
    let subjects: Vec<&str> = all.iter().map(|t| t.subject.as_str()).collect();
    assert_eq!(subjects, vec!["work", "sub", "home"]);
    let work = Tags::update_tasks(Type::Projects, &list, &names(&["Work"]), today);
    let subjects: Vec<&str> = work.iter().map(|t| t.subject.as_str()).collect();
    assert_eq!(subjects, vec!["work"]);
    assert!(Tags::update_tasks(Type::Contexts, &list, &[], today).is_empty());
}

#[test]
fn model_starts_empty() {
    let m = Tags::model(Type::Contexts);
    assert!(m.list.tasks.is_empty());
    assert_eq!(m.tag, Type::Contexts);
}

#[test]
fn column_positions() {
    assert_eq!(Column::Name.index(), 0);
    assert_eq!(Column::Value.index(), 1);
    assert_eq!(Column::Name.signed_index(), 0);
    assert_eq!(Column::Value.signed_index(), 1);
}

#[test]
fn finished_only_with_leading_x() {
    assert!(Task::from_str("x done").unwrap().finished);
    assert!(!Task::from_str("xylophone lesson").unwrap().finished);
    assert!(!Task::from_str("").unwrap().finished);
    assert_eq!(Task::from_str("plain").unwrap().priority, NO_PRIORITY);
}

#[test]
fn long_relative_date_is_refused() {
    assert!(Task::from_str("a due:1000000000d").is_err());
    assert!(Task::from_str("a t:+123456w").is_err());
    assert!(Task::from_str("x due:-999999y").is_err());
    let near = Task::from_str("a due:+12345d").unwrap();
    assert!(near.due_date.is_some());
    let phone = Task::from_str("call 5551234567 due:2024-02-01").unwrap();
    assert_eq!(phone.due_date, Some(Date::new(2024, 2, 1)));
}

#[test]
fn bold_span_wraps_tag() {
    assert_eq!(todo_core::text::bold_span(" ", "+Work"), " <b>+Work</b>");
    assert_eq!(todo_core::text::bold_span("", "@home"), "<b>@home</b>");
}

#[test]
fn active_filters_keep_discovery_order() {
    let list = List {
        tasks: vec![
            tagged("a", &["Zeta", "Alpha"], false),
            tagged("b", &["Mid", "Zeta"], false),
        ],
    };
    let active = Tags::update_tags(Type::Projects, &list);
    let order: Vec<&str> = active.iter().map(|e| e.0.as_str()).collect();
    assert_eq!(order, vec!["Zeta", "Alpha", "Mid"]);
}

#[test]
fn marks_inside_words_are_only_escaped() {
    assert_eq!(
        task("a+b c@d at 10:30 & <x>").markup_subject(),
        "a+b c@d at 10:30 &amp; &lt;x&gt;"
    );
    assert_eq!(task("mail:/inbox").markup_subject(), "mail:/inbox");
}

#[test]
fn writes_a_line_back() {
    let line = "x 2024-03-02 2024-03-01 water plants +Garden due:2024-04-01";
    let t = Task::from_str(line).unwrap();
    assert_eq!(t.to_line(), Some(line.to_string()));
    let open = Task::from_str("(B) call @phone").unwrap();
    assert_eq!(open.to_line(), Some("(B) call @phone".to_string()));
}

#[test]
fn refuses_to_write_impossible_values() {
    let mut t = task("a");
    t.due_date = Some(Date::new(2023, 2, 29));
    assert_eq!(t.to_line(), None);
    t.due_date = Some(Date::new(2024, 2, 29));
    assert_eq!(t.to_line(), Some("a due:2024-02-29".to_string()));
    t.priority = 27;
    assert_eq!(t.to_line(), None);
}

#[test]
fn calendar_validity() {
    assert!(Date::new(2000, 2, 29).is_valid());
    assert!(!Date::new(1900, 2, 29).is_valid());
    assert!(!Date::new(2024, 4, 31).is_valid());
    assert!(!Date::new(2024, 13, 1).is_valid());
    assert!(!Date::new(2024, 1, 0).is_valid());
}
