use libsql_shell::completion::{Pair, ShellCompleter, ShellHelper};

fn displays(pairs: &[Pair]) -> Vec<&str> {
    pairs.iter().map(|p| p.display.as_str()).collect()
}

#[test]
fn empty_prefix_matches_all_commands_in_order() {
    let completer = ShellCompleter::new();
    let pairs = completer.complete("");
    assert_eq!(
        displays(&pairs),
        vec![
            ".echo",
            ".headers",
            ".help",
            ".indexes",
            ".nullvalue",
            ".print",
            ".prompt",
            ".quit",
            ".show",
            ".tables",
        ]
    );
}

#[test]
fn dot_prefix_matches_all_commands() {
    let completer = ShellCompleter::new();
    let pairs = completer.complete(".");
    assert_eq!(pairs.len(), 10);
}

#[test]
fn unknown_prefix_matches_nothing() {
    let completer = ShellCompleter::new();
    let pairs = completer.complete(".x");
    assert!(pairs.is_empty());
}

#[test]
fn prefix_without_dot_matches_nothing() {
    let completer = ShellCompleter::new();
    assert!(completer.complete("select").is_empty());
    assert!(completer.complete("tables").is_empty());
}

#[test]
fn shared_prefix_matches_exact_subset_in_order() {
    let completer = ShellCompleter::new();
    assert_eq!(displays(&completer.complete(".h")), vec![".headers", ".help"]);
    assert_eq!(displays(&completer.complete(".pr")), vec![".print", ".prompt"]);
    assert_eq!(displays(&completer.complete(".he")), vec![".headers", ".help"]);
    assert_eq!(displays(&completer.complete(".hel")), vec![".help"]);
}

#[test]
fn whole_command_matches_itself_only() {
    let completer = ShellCompleter::new();
    assert_eq!(displays(&completer.complete(".tables")), vec![".tables"]);
    assert_eq!(displays(&completer.complete(".quit")), vec![".quit"]);
}

#[test]
fn longer_than_any_command_matches_nothing() {
    let completer = ShellCompleter::new();
    assert!(completer.complete(".tablesx").is_empty());
}

#[test]
fn replacement_always_equals_display() {
    let completer = ShellCompleter::new();
    for pair in completer.complete("") {
        assert_eq!(pair.display, pair.replacement);
    }
}

#[test]
fn helper_forwards_to_completer() {
    let helper = ShellHelper::new();
    assert_eq!(displays(&helper.complete(".q")), vec![".quit"]);
    assert_eq!(displays(&helper.complete(".i")), vec![".indexes"]);
    assert!(helper.complete(".z").is_empty());
}
