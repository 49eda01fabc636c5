use libsql_shell::input::{Input, InputAccumulator};

fn feed(acc: &mut InputAccumulator, lines: &[&str]) -> Vec<Input> {
    let owned: Vec<String> = lines.iter().map(|l| l.to_string()).collect();
    acc.push_lines(&owned)
}

fn expect_sql(input: Option<Input>) -> String {
    match input {
        Some(Input::Sql(text)) => text,
        Some(Input::DotCommand(_)) => panic!("expected a SQL statement, got a dot-command"),
        None => panic!("expected a SQL statement, got nothing"),
    }
}

fn expect_dot(input: Option<Input>) -> String {
    match input {
        Some(Input::DotCommand(text)) => text,
        Some(Input::Sql(_)) => panic!("expected a dot-command, got a SQL statement"),
        None => panic!("expected a dot-command, got nothing"),
    }
}

fn render(inputs: &[Input]) -> Vec<String> {
    inputs
        .iter()
        .map(|i| match i {
            Input::DotCommand(text) => format!("dot:{text}"),
            Input::Sql(text) => format!("sql:{text}"),
        })
        .collect()
}

#[test]
fn single_terminated_statement() {
    let mut acc = InputAccumulator::new();
    let out = acc.push_line("select 1;");
    assert_eq!(expect_sql(out), "select 1;");
    assert!(!acc.is_accumulating());
}

#[test]
fn fragments_concatenate_without_separator() {
    let mut acc = InputAccumulator::new();
    assert!(acc.push_line("select").is_none());
    assert!(acc.is_accumulating());
    let out = acc.push_line("1;");
    assert_eq!(expect_sql(out), "select1;");
    assert!(!acc.is_accumulating());
}

#[test]
fn dot_command_on_empty_buffer() {
    let mut acc = InputAccumulator::new();
    let out = acc.push_line(".tables");
    assert_eq!(expect_dot(out), ".tables");
    assert!(!acc.is_accumulating());
    assert_eq!(acc.prompt(), "libsql> ");
}

#[test]
fn dot_line_mid_statement_is_literal_text() {
    let mut acc = InputAccumulator::new();
    assert!(acc.push_line("select 1").is_none());
    assert!(acc.push_line(".tables").is_none());
    let out = acc.push_line("go");
    assert_eq!(expect_sql(out), "select 1.tablesgo");
}

#[test]
fn comment_lines_are_discarded() {
    let mut acc = InputAccumulator::new();
    assert!(acc.push_line("# leading comment").is_none());
    assert!(!acc.is_accumulating());
    assert!(acc.push_line("select").is_none());
    assert!(acc.push_line("# a comment mid-statement").is_none());
    let out = acc.push_line("2;");
    assert_eq!(expect_sql(out), "select2;");
}

#[test]
fn trailing_whitespace_is_trimmed_per_fragment() {
    let mut acc = InputAccumulator::new();
    let out = acc.push_line("select 1;   \t");
    assert_eq!(expect_sql(out), "select 1;");

    let mut acc = InputAccumulator::new();
    assert!(acc.push_line("select  ").is_none());
    let out = acc.push_line("1;");
    assert_eq!(expect_sql(out), "select1;");
}

#[test]
fn unicode_whitespace_is_trimmed() {
    let mut acc = InputAccumulator::new();
    let out = acc.push_line("select 1;\u{00a0}\u{3000}\u{2028}");
    assert_eq!(expect_sql(out), "select 1;");
}

#[test]
fn go_line_terminates_statement() {
    let mut acc = InputAccumulator::new();
    assert!(acc.push_line("select 1").is_none());
    let out = acc.push_line("go  ");
    assert_eq!(expect_sql(out), "select 1go");
}

#[test]
fn slash_line_terminates_statement() {
    let mut acc = InputAccumulator::new();
    assert!(acc.push_line("select 2").is_none());
    let out = acc.push_line("/");
    assert_eq!(expect_sql(out), "select 2/");
}

#[test]
fn go_only_terminates_as_whole_line() {
    let mut acc = InputAccumulator::new();
    assert!(acc.push_line("going").is_none());
    assert!(acc.push_line("gone go").is_none());
    let out = acc.push_line(";");
    assert_eq!(expect_sql(out), "goinggone go;");
}

#[test]
fn dot_line_with_terminator_mid_statement_completes() {
    let mut acc = InputAccumulator::new();
    assert!(acc.push_line("select").is_none());
    let out = acc.push_line(".x;");
    assert_eq!(expect_sql(out), "select.x;");
}

#[test]
fn empty_line_keeps_accumulating() {
    let mut acc = InputAccumulator::new();
    assert!(acc.push_line("select 3").is_none());
    assert!(acc.push_line("").is_none());
    assert!(acc.is_accumulating());
    let out = acc.push_line(";");
    assert_eq!(expect_sql(out), "select 3;");
}

#[test]
fn prompt_follows_buffer_state() {
    let mut acc = InputAccumulator::new();
    assert_eq!(acc.prompt(), "libsql> ");
    assert!(acc.push_line("select").is_none());
    assert_eq!(acc.prompt(), "   ...> ");
    acc.push_line("1;");
    assert_eq!(acc.prompt(), "libsql> ");
}

#[test]
fn buffer_resets_after_each_emitted_statement() {
    let mut acc = InputAccumulator::new();
    assert_eq!(expect_sql(acc.push_line("select 1;")), "select 1;");
    assert_eq!(expect_sql(acc.push_line("select 2;")), "select 2;");
    assert_eq!(expect_dot(acc.push_line(".quit")), ".quit");
}

#[test]
fn push_lines_emits_every_input_in_order() {
    let mut acc = InputAccumulator::new();
    let out = feed(
        &mut acc,
        &["select 1;", ".tables", "# noise", "select", "2;", "go"],
    );
    assert_eq!(
        render(&out),
        vec!["sql:select 1;", "dot:.tables", "sql:select2;", "sql:go"]
    );
    assert!(!acc.is_accumulating());
}

#[test]
fn push_lines_leaves_unterminated_tail_in_buffer() {
    let mut acc = InputAccumulator::new();
    let out = feed(&mut acc, &["select 1;", "select 2"]);
    assert_eq!(render(&out), vec!["sql:select 1;"]);
    assert!(acc.is_accumulating());
    let out = feed(&mut acc, &[";"]);
    assert_eq!(render(&out), vec!["sql:select 2;"]);
}

#[test]
fn classification_is_repeatable() {
    let lines = &["select 1", "# comment", ".mid", "go", ".tables", "x;"];
    let mut first = InputAccumulator::new();
    let mut second = InputAccumulator::new();
    let out_first = render(&feed(&mut first, lines));
    let out_second = render(&feed(&mut second, lines));
    assert_eq!(out_first, out_second);
    assert_eq!(first.is_accumulating(), second.is_accumulating());
}
