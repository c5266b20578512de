use mdbook_checklist::scanner::scan_and_rewrite;
use regex::Regex;

const PATTERN: &str = r"(?x)
    \{\{\s*                     # opening parens and whitespace
    \#check                     # macro tag
    \s+                         # separating whitespace
    (?P<name>[a-zA-Z\-0-9]+)    # ident
    \s*\|\s*                    # separator with whitespaces
    (?P<desc>[^\}]+)            # description
    \}\}                        # whitespace and closing parens";

fn by_pattern(re: &Regex, content: &str) -> (String, Vec<(String, String)>) {
    let mut replaced = String::new();
    let mut found = Vec::new();
    let mut previous_end = 0;
    for cap in re.captures_iter(content) {
        let name = cap["name"].to_string();
        let desc = cap["desc"].to_string();
        let whole = cap.get(0).unwrap();
        replaced.push_str(&content[previous_end..whole.start()]);
        replaced.push_str(&format!("<a id=\"{}\"></a>", name));
        replaced.push_str(&name);
        previous_end = whole.end();
        found.push((name, desc));
    }
    replaced.push_str(&content[previous_end..]);
    (replaced, found)
}

fn agrees(re: &Regex, content: &str) {
    let (expected_text, expected_found) = by_pattern(re, content);
    let (text, markers) = scan_and_rewrite("T", "p.md", content);
    assert_eq!(text, expected_text, "{:?}", content);
    let found: Vec<(String, String)> =
        markers.iter().map(|m| (m.name().to_string(), m.description().to_string())).collect();
    assert_eq!(found, expected_found, "{:?}", content);
}

#[test]
fn scanner_agrees_with_the_pattern_on_chosen_texts() {
    let re = Regex::new(PATTERN).unwrap();
    let texts = [
        "",
        "plain",
        "Step one. {{#check step-1 | Do the first thing}} Step two.",
        "{{#check | missing-name}}",
        "{{#check a|b}}",
        "{{#check a | }}",
        "{{#check a |  \t\n}}",
        "{{#check a |}}",
        "{{#check a | b }}",
        "{{ \n#check\ta\u{a0}|\u{3000}b}}",
        "{{#check a | {{#check b | c}}",
        "{{#check a | x} {{#check b | y}}",
        "{{{#check a | b}}}",
        "{{#check a | b}}}",
        "{{#check a | b}}{{#check c | d}}",
        "{{#check a\n|\nb\nc}}",
        "{{#checka | b}}",
        "{{#check a b | c}}",
        "{{#check a_b | c}}",
        "{{#check \u{e4} | c}}",
        "\u{e9} {{#check a | \u{1f600}}} \u{fc}",
        "{{#check a | b",
        "{{#check a | b}",
        "{{#check",
        "{{",
        "{{#check\u{200b}a | b}}",
        "{{#check\u{85}a | b}}",
        "{{#check a | b}}{{#check a",
        "{{#check - | -}}",
    ];
    for text in texts {
        agrees(&re, text);
    }
}

fn next(state: &mut u64, bound: usize) -> usize {
    *state = state.wrapping_mul(6364136223846793005).wrapping_add(1442695040888963407);
    ((*state >> 33) % (bound as u64)) as usize
}

fn pick<'a>(state: &mut u64, choices: &[&'a str]) -> &'a str {
    choices[next(state, choices.len())]
}

#[test]
fn scanner_agrees_with_the_pattern_on_generated_texts() {
    let re = Regex::new(PATTERN).unwrap();
    let pieces = [
        "{{", "}}", "{", "}", "#check", "#", "check", " ", "  ", "\t", "\n", "\u{a0}", "\u{2003}", "|",
        "a", "b-1", "-", "Z9", "_", "some text", "\u{e9}", "\u{1f600}", "{{#check ", " | ", "x}}",
    ];
    let mut state: u64 = 0x2545_f491_4f6c_dd1d;
    let mut markers_seen = 0;
    let mut texts_with_none = 0;
    for _ in 0..20000 {
        let mut text = String::new();
        let parts = next(&mut state, 4);
        for _ in 0..parts {
            if next(&mut state, 3) == 0 {
                let count = next(&mut state, 8);
                for _ in 0..count {
                    text.push_str(pick(&mut state, &pieces));
                }
            } else {
                text.push_str(pick(&mut state, &["{{", "{{", "{{", "{{ ", "{{\n", "{", "{{{"]));
                text.push_str(pick(&mut state, &["#check", "#check", "#check", "#chec", "check"]));
                text.push_str(pick(&mut state, &[" ", " ", "  ", "\t\n", "\u{a0}", "\u{3000} ", ""]));
                text.push_str(pick(&mut state, &["a", "step-1", "Z9", "-", "a b", "a_b", "\u{e9}", ""]));
                text.push_str(pick(&mut state, &["", " ", "\n", "\u{2003}"]));
                text.push_str(pick(&mut state, &["|", "|", "|", "||", ""]));
                text.push_str(pick(&mut state, &["", " ", "  ", "\n\t", "\u{2028}"]));
                text.push_str(pick(
                    &mut state,
                    &["text", "Do the first thing", "x ", "", "{{#check in | side", "\u{1f600}", "a } b", "|"],
                ));
                text.push_str(pick(&mut state, &["}}", "}}", "}}", "}", "}}}", " }}", ""]));
            }
        }
        let found = by_pattern(&re, &text).1.len();
        markers_seen += found;
        if found == 0 {
            texts_with_none += 1;
        }
        agrees(&re, &text);
    }
    assert!(markers_seen > 2000, "{}", markers_seen);
    assert!(texts_with_none > 2000, "{}", texts_with_none);
}
