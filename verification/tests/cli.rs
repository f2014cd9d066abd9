use roots::cli::{first_line, parse_tags, run_hooks, slugify, HookPlan};

fn hooks(plan: HookPlan) -> Vec<(String, String)> {
    match plan {
        HookPlan::Install(hooks) => hooks.into_iter().map(|h| (h.event, h.command)).collect(),
        HookPlan::Remove => panic!("removal"),
    }
}

fn line(text: &str) -> String {
    let chars: Vec<char> = text.chars().collect();
    first_line(&chars).into_iter().collect()
}

#[test]
fn hooks_are_planned() {
    assert!(matches!(run_hooks(true, "tags"), HookPlan::Remove));
    assert_eq!(
        hooks(run_hooks(false, "none")),
        vec![
            ("SessionStart".to_string(), "roots prime".to_string()),
            ("PreCompact".to_string(), "roots prime".to_string())
        ]
    );
    assert_eq!(
        hooks(run_hooks(false, "tags")),
        vec![
            ("SessionStart".to_string(), "roots prime".to_string()),
            ("PreCompact".to_string(), "roots prime".to_string()),
            (
                "UserPromptSubmit".to_string(),
                "roots context --mode tags \"$CLAUDE_USER_PROMPT\"".to_string()
            )
        ]
    );
}

#[test]
fn tags_are_parsed_from_an_argument() {
    assert_eq!(parse_tags(""), Vec::<String>::new());
    assert_eq!(parse_tags("rust"), vec!["rust"]);
    assert_eq!(parse_tags("rust, cli ,  memory"), vec!["rust", "cli", "memory"]);
    assert_eq!(parse_tags("a,,b,"), vec!["a", "", "b", ""]);
    assert_eq!(parse_tags(" "), vec![""]);
    assert_eq!(parse_tags(","), vec!["", ""]);
}

#[test]
fn the_first_line_is_trimmed() {
    assert_eq!(line("hello\nworld"), "hello");
    assert_eq!(line("  hello  \r\nworld"), "hello");
    assert_eq!(line("\nworld"), "");
    assert_eq!(line(""), "");
    assert_eq!(line("only line "), "only line");
    assert_eq!(line("a\rb\nc"), "a\rb");
}

#[test]
fn slugs_are_made_for_file_names() {
    assert_eq!(slugify("Hello, World!", 40), "hello_world");
    assert_eq!(slugify("  Rust ownership -- prevents data races\nsecond line", 40), "rust_ownership_prevents_data_races");
    assert_eq!(slugify("__a__b__", 40), "a_b");
    assert_eq!(slugify("Hello World", 5), "hello");
    assert_eq!(slugify("Hello World", 6), "hello");
    assert_eq!(slugify("Hello World", 7), "hello_w");
    assert_eq!(slugify("ÄÖ ü", 40), "");
    assert_eq!(slugify("", 40), "");
    assert_eq!(slugify("abc", 0), "");
    assert_eq!(slugify("A1 b2-C3", 40), "a1_b2_c3");
}
