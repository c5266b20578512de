use mdbook_checklist::checklist::Checklist;
use mdbook_checklist::config::{ConfigEntry, ConfigValue};
use mdbook_checklist::document::Document;
use mdbook_checklist::error::ChecklistError;
use mdbook_checklist::marker::Marker;

fn marker(name: &str, description: &str, title: &str, path: &str) -> Marker {
    Marker::new(name.to_string(), description.to_string(), title.to_string(), path.to_string())
}

fn entry(key: &str, value: ConfigValue) -> ConfigEntry {
    ConfigEntry { key: key.to_string(), value }
}

fn text(value: &str) -> ConfigValue {
    ConfigValue::Text(value.to_string())
}

fn add(checklist: &mut Checklist, title: &str, path: &str, name: &str, description: &str) {
    checklist.insert(title, path, name.to_string(), description.to_string());
}

#[test]
fn empty_checklist_gives_a_title_and_nothing_else() {
    let checklist = Checklist::new();
    assert_eq!(checklist.title(), "Checklist");
    assert!(checklist.markers().is_empty());
    let document = checklist.generate_document();
    assert_eq!(
        document,
        Document {
            title: "Checklist".to_string(),
            path: Some("checklist.md".to_string()),
            content: "# Checklist\n\n".to_string(),
        }
    );
}

#[test]
fn one_record_gives_one_linked_entry() {
    let mut checklist = Checklist::new();
    add(&mut checklist, "Intro", "intro.md", "step-1", "Do the first thing");
    assert_eq!(
        checklist.markers(),
        &vec![marker("step-1", "Do the first thing", "Intro", "intro.md")]
    );
    let document = checklist.generate_document();
    assert_eq!(
        document.content,
        "# Checklist\n\n## [Intro](intro.md)\n\n- [step-1](intro.md#step-1): Do the first thing\n\n"
    );
    assert!(document.content.contains("(intro.md#step-1): Do the first thing"));
}

#[test]
fn groups_follow_the_order_of_the_documents() {
    let mut checklist = Checklist::new();
    add(&mut checklist, "A", "a.md", "a1", "first of A");
    add(&mut checklist, "A", "a.md", "a2", "second of A");
    add(&mut checklist, "B", "b.md", "b1", "first of B");
    add(&mut checklist, "C", "c.md", "c1", "first of C");
    add(&mut checklist, "C", "c.md", "c2", "second of C");
    let expected = "# Checklist\n\n\
        ## [A](a.md)\n\n- [a1](a.md#a1): first of A\n- [a2](a.md#a2): second of A\n\n\
        ## [B](b.md)\n\n- [b1](b.md#b1): first of B\n\n\
        ## [C](c.md)\n\n- [c1](c.md#c1): first of C\n- [c2](c.md#c2): second of C\n\n";
    assert_eq!(checklist.generate_document().content, expected);
}

#[test]
fn records_of_one_path_form_one_group() {
    let mut checklist = Checklist::new();
    add(&mut checklist, "B", "b.md", "b1", "one");
    add(&mut checklist, "A", "a.md", "a1", "two");
    add(&mut checklist, "B again", "b.md", "b2", "three");
    add(&mut checklist, "A", "a.md", "a2", "four");
    let expected = "# Checklist\n\n\
        ## [B](b.md)\n\n- [b1](b.md#b1): one\n- [b2](b.md#b2): three\n\n\
        ## [A](a.md)\n\n- [a1](a.md#a1): two\n- [a2](a.md#a2): four\n\n";
    assert_eq!(checklist.generate_document().content, expected);
}

#[test]
fn repeated_names_are_listed_again() {
    let mut checklist = Checklist::new();
    add(&mut checklist, "A", "a.md", "x", "one");
    add(&mut checklist, "A", "a.md", "x", "one");
    add(&mut checklist, "B", "b.md", "x", "two");
    assert_eq!(checklist.markers().len(), 3);
    let expected = "# Checklist\n\n\
        ## [A](a.md)\n\n- [x](a.md#x): one\n- [x](a.md#x): one\n\n\
        ## [B](b.md)\n\n- [x](b.md#x): two\n\n";
    assert_eq!(checklist.generate_document().content, expected);
}

#[test]
fn generating_leaves_the_checklist_as_it_is() {
    let mut checklist = Checklist::new();
    add(&mut checklist, "A", "a.md", "x", "one");
    let first = checklist.generate_document();
    let second = checklist.generate_document();
    assert_eq!(first, second);
    assert_eq!(checklist.markers().len(), 1);
}

#[test]
fn title_option_sets_the_title() {
    let mut checklist = Checklist::new();
    let config = vec![entry("title", text("Things to do"))];
    assert_eq!(checklist.update_config(&config), Ok(()));
    assert_eq!(checklist.title(), "Things to do");
    add(&mut checklist, "A", "a.md", "x", "one");
    let document = checklist.generate_document();
    assert_eq!(document.title, "Things to do");
    assert_eq!(document.path, Some("checklist.md".to_string()));
    assert_eq!(document.content, "# Things to do\n\n## [A](a.md)\n\n- [x](a.md#x): one\n\n");
}

#[test]
fn other_options_are_passed_over() {
    let mut checklist = Checklist::new();
    let config = vec![
        entry("command", text("mdbook-checklist")),
        entry("renderers", ConfigValue::Other),
        entry("Title", ConfigValue::Integer(3)),
        entry("titles", ConfigValue::Flag(true)),
        entry("", ConfigValue::Flag(false)),
    ];
    assert_eq!(checklist.update_config(&config), Ok(()));
    assert_eq!(checklist.title(), "Checklist");
    assert_eq!(checklist.update_config(&Vec::new()), Ok(()));
    assert_eq!(checklist.title(), "Checklist");
}

#[test]
fn last_title_option_wins() {
    let mut checklist = Checklist::new();
    let config = vec![
        entry("title", text("One")),
        entry("before", ConfigValue::Other),
        entry("title", text("Two")),
        entry("after", ConfigValue::Other),
    ];
    assert_eq!(checklist.update_config(&config), Ok(()));
    assert_eq!(checklist.title(), "Two");
}

#[test]
fn title_of_another_type_is_an_error() {
    for value in [ConfigValue::Flag(true), ConfigValue::Integer(7), ConfigValue::Other] {
        let mut checklist = Checklist::new();
        add(&mut checklist, "A", "a.md", "x", "one");
        let config = vec![entry("title", text("Seen first")), entry("title", value)];
        assert_eq!(
            checklist.update_config(&config),
            Err(ChecklistError::InvalidOption { key: "title".to_string() })
        );
        assert_eq!(checklist.title(), "Checklist");
        assert_eq!(checklist.markers().len(), 1);
    }
}

#[test]
fn errors_describe_themselves() {
    assert_eq!(
        ChecklistError::InvalidOption { key: "title".to_string() }.message(),
        "the option `title` holds a value of the wrong type"
    );
    assert_eq!(
        ChecklistError::MissingPath { title: "Draft".to_string() }.message(),
        "the document `Draft` holds checklist markers but has no path"
    );
}

#[test]
fn records_tell_whether_they_share_a_source() {
    let a = marker("x", "one", "A", "a.md");
    let b = marker("y", "two", "Another title", "a.md");
    let c = marker("x", "one", "A", "c.md");
    assert!(a.same_source(&b));
    assert!(!a.same_source(&c));
}
