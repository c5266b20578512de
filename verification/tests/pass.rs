use mdbook_checklist::checklist::Checklist;
use mdbook_checklist::checklist_pre::{collect_and_replace, ChecklistPre};
use mdbook_checklist::config::{ConfigEntry, ConfigValue};
use mdbook_checklist::document::Document;
use mdbook_checklist::error::ChecklistError;

fn document(title: &str, path: Option<&str>, content: &str) -> Document {
    Document {
        title: title.to_string(),
        path: path.map(|p| p.to_string()),
        content: content.to_string(),
    }
}

fn title_option(value: ConfigValue) -> Vec<ConfigEntry> {
    vec![ConfigEntry { key: "title".to_string(), value }]
}

#[test]
fn pass_is_known_by_its_name() {
    assert_eq!(ChecklistPre.name(), "checklist-preprocessor");
}

#[test]
fn pass_rewrites_documents_and_adds_the_checklist() {
    let documents = vec![
        document("Intro", Some("intro.md"), "Step one. {{#check step-1 | Do the first thing}} Step two."),
        document("Plain", Some("plain.md"), "Nothing to see."),
        document("Draft", None, "No path, no markers."),
        document("End", Some("part/end.md"), "{{#check a | first}}\n{{#check b | second}}\n"),
    ];
    let out = ChecklistPre.run(&Vec::new(), documents).unwrap();
    let expected = vec![
        document("Intro", Some("intro.md"), "Step one. <a id=\"step-1\"></a>step-1 Step two."),
        document("Plain", Some("plain.md"), "Nothing to see."),
        document("Draft", None, "No path, no markers."),
        document("End", Some("part/end.md"), "<a id=\"a\"></a>a\n<a id=\"b\"></a>b\n"),
        document(
            "Checklist",
            Some("checklist.md"),
            "# Checklist\n\n\
             ## [Intro](intro.md)\n\n- [step-1](intro.md#step-1): Do the first thing\n\n\
             ## [End](part/end.md)\n\n- [a](part/end.md#a): first\n- [b](part/end.md#b): second\n\n",
        ),
    ];
    assert_eq!(out, expected);
}

#[test]
fn pass_over_no_documents_adds_an_empty_checklist() {
    let out = ChecklistPre.run(&Vec::new(), Vec::new()).unwrap();
    assert_eq!(out, vec![document("Checklist", Some("checklist.md"), "# Checklist\n\n")]);
}

#[test]
fn pass_takes_the_title_from_the_options() {
    let config = title_option(ConfigValue::Text("To do".to_string()));
    let documents = vec![document("A", Some("a.md"), "{{#check x | y}}")];
    let out = ChecklistPre.run(&config, documents).unwrap();
    assert_eq!(out.len(), 2);
    assert_eq!(
        out[1],
        document("To do", Some("checklist.md"), "# To do\n\n## [A](a.md)\n\n- [x](a.md#x): y\n\n")
    );
}

#[test]
fn pass_fails_on_markers_without_a_path() {
    let documents = vec![
        document("A", Some("a.md"), "{{#check x | y}}"),
        document("Draft", None, "none"),
        document("First", None, "{{#check x | y}}"),
        document("Second", None, "{{#check x | y}}"),
    ];
    assert_eq!(
        ChecklistPre.run(&Vec::new(), documents),
        Err(ChecklistError::MissingPath { title: "First".to_string() })
    );
}

#[test]
fn pass_fails_on_an_invalid_option_first() {
    let documents = vec![document("First", None, "{{#check x | y}}")];
    assert_eq!(
        ChecklistPre.run(&title_option(ConfigValue::Integer(1)), documents),
        Err(ChecklistError::InvalidOption { key: "title".to_string() })
    );
}

#[test]
fn pass_groups_documents_in_their_order() {
    let documents = vec![
        document("C", Some("c.md"), "{{#check c1 | one}} {{#check c2 | two}}"),
        document("A", Some("a.md"), "{{#check a1 | three}}"),
        document("B", Some("b.md"), "{{#check b1 | four}} {{#check b2 | five}}"),
    ];
    let out = ChecklistPre.run(&Vec::new(), documents).unwrap();
    assert_eq!(
        out[3].content,
        "# Checklist\n\n\
         ## [C](c.md)\n\n- [c1](c.md#c1): one\n- [c2](c.md#c2): two\n\n\
         ## [A](a.md)\n\n- [a1](a.md#a1): three\n\n\
         ## [B](b.md)\n\n- [b1](b.md#b1): four\n- [b2](b.md#b2): five\n\n"
    );
}

#[test]
fn links_lead_to_the_anchors() {
    let documents = vec![document("Intro", Some("intro.md"), "a {{#check step-1 | Do it}} b")];
    let out = ChecklistPre.run(&Vec::new(), documents).unwrap();
    assert!(out[0].content.contains("<a id=\"step-1\"></a>"));
    assert!(out[1].content.contains("](intro.md#step-1)"));
}

#[test]
fn collecting_adds_the_records_of_a_document() {
    let mut checklist = Checklist::new();
    checklist.insert("Before", "before.md", "x".to_string(), "y".to_string());
    let doc = document("A", Some("a.md"), "{{#check a | one}} and {{#check b | two}}");
    let text = collect_and_replace(&doc, &mut checklist);
    assert_eq!(text, Ok("<a id=\"a\"></a>a and <a id=\"b\"></a>b".to_string()));
    let names: Vec<&str> = checklist.markers().iter().map(|m| m.name()).collect();
    assert_eq!(names, vec!["x", "a", "b"]);
    assert_eq!(checklist.markers()[2].source_title(), "A");
    assert_eq!(checklist.markers()[2].source_path(), "a.md");
    assert_eq!(checklist.markers()[2].description(), "two");
}

#[test]
fn collecting_without_a_path_fails_only_on_markers() {
    let mut checklist = Checklist::new();
    let plain = document("Draft", None, "plain {{#check | text}}");
    assert_eq!(collect_and_replace(&plain, &mut checklist), Ok("plain {{#check | text}}".to_string()));
    let marked = document("Draft", None, "{{#check a | one}}");
    assert_eq!(
        collect_and_replace(&marked, &mut checklist),
        Err(ChecklistError::MissingPath { title: "Draft".to_string() })
    );
    assert!(checklist.markers().is_empty());
}
