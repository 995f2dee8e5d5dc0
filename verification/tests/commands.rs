use btr::cmd::{CommandNode, HandlerId, LineAction, command_tree, dispatch_line, help_position};
use btr::interact::{
    custom_sheet_name, default_sheet_name, history_down, history_up, parse_category_choice,
    parse_index_choice, select_arg,
};
use btr::record::parse_amount;
use btr::text::tokenize;

fn toks(line: &str) -> Vec<String> {
    tokenize(line)
}

#[test]
fn tokenize_splits_on_ascii_whitespace() {
    assert_eq!(toks("add expense groceries 12.5"), vec!["add", "expense", "groceries", "12.5"]);
    assert_eq!(toks("  spaced \t words \n"), vec!["spaced", "words"]);
    assert_eq!(toks(""), Vec::<String>::new());
    assert_eq!(toks("   "), Vec::<String>::new());
}

#[test]
fn add_expense_resolves_with_tail_captured() {
    let tree = command_tree();
    let tokens = toks("add expense groceries 12.5");
    let node = tree.find_command(&tokens, 0, tokens.len()).unwrap();
    assert_eq!(node.handler, Some(HandlerId::AddExpense));
    // The same resolution through the dispatcher.
    match dispatch_line(&tree, &tokens) {
        LineAction::Run(h) => assert_eq!(h, HandlerId::AddExpense),
        _ => panic!("expected a handler to run"),
    }
}

#[test]
fn every_verb_path_resolves_to_its_handler() {
    let tree = command_tree();
    let cases = [
        ("add expense", HandlerId::AddExpense),
        ("add sheet", HandlerId::AddSheet),
        ("delete sheet", HandlerId::DeleteSheet),
        ("delete expense", HandlerId::DeleteExpense),
        ("show expenses", HandlerId::ShowExpenses),
        ("show sheets", HandlerId::ShowSheets),
        ("show categories", HandlerId::ShowCategories),
        ("select 09-2025", HandlerId::Select),
    ];
    for (line, expected) in cases {
        let tokens = toks(line);
        match dispatch_line(&tree, &tokens) {
            LineAction::Run(h) => assert_eq!(h, expected),
            _ => panic!("expected {} to run a handler", line),
        }
    }
}

#[test]
fn unknown_commands_are_reported() {
    let tree = command_tree();
    let tokens = toks("bogus");
    let node = tree.find_command(&tokens, 0, tokens.len());
    assert!(node.is_none());
    assert!(matches!(dispatch_line(&tree, &tokens), LineAction::Unknown));
    assert!(matches!(dispatch_line(&tree, &toks("add nonsense")), LineAction::Unknown));
}

#[test]
fn bare_verbs_resolve_but_run_nothing() {
    let tree = command_tree();
    assert!(matches!(dispatch_line(&tree, &toks("add")), LineAction::NoHandler));
    assert!(matches!(dispatch_line(&tree, &toks("")), LineAction::NoHandler));
}

#[test]
fn help_is_intercepted_before_dispatch() {
    let tree = command_tree();
    let tokens = toks("add help");
    assert_eq!(help_position(&tokens), Some(1));
    match dispatch_line(&tree, &tokens) {
        LineAction::ShowHelp(text) => {
            assert!(text.starts_with("? HELP: add\n"));
            assert!(text.contains("expense"));
            assert!(text.contains("sheet"));
        },
        _ => panic!("help must take priority over dispatch"),
    }
}

#[test]
fn bare_help_shows_the_banner() {
    let tree = command_tree();
    match dispatch_line(&tree, &toks("help")) {
        LineAction::ShowHelp(text) => {
            assert!(text.starts_with("? A budget tracker CLI application.\n"));
            assert!(text.contains("? SUBCOMMANDS: \n"));
            assert!(text.contains("?   add - "));
            assert!(text.contains("?   select - "));
        },
        _ => panic!("expected the banner"),
    }
}

#[test]
fn help_with_unknown_context_is_reported() {
    let tree = command_tree();
    assert!(matches!(dispatch_line(&tree, &toks("bogus help")), LineAction::HelpUnknown));
}

#[test]
fn builder_wires_children_in_order() {
    let node = CommandNode::new("root", "r", None)
        .add_child(CommandNode::new("a", "first", Some(HandlerId::Select)))
        .add_child(CommandNode::new("b", "second", None));
    assert_eq!(node.children.len(), 2);
    assert_eq!(node.children[0].cmd, "a");
    assert!(node.children[0].extra_args);
    assert!(!node.children[1].extra_args);
}

#[test]
fn amounts_parse_to_cents() {
    assert_eq!(parse_amount("12.5"), Some(1250));
    assert_eq!(parse_amount("12.50"), Some(1250));
    assert_eq!(parse_amount("3.07"), Some(307));
    assert_eq!(parse_amount(" 7 "), Some(700));
    assert_eq!(parse_amount("0.01"), Some(1));
    assert_eq!(parse_amount("0"), None);
    assert_eq!(parse_amount("0.00"), None);
    assert_eq!(parse_amount("1.234"), None);
    assert_eq!(parse_amount("1."), None);
    assert_eq!(parse_amount(".5"), None);
    assert_eq!(parse_amount("-3"), None);
    assert_eq!(parse_amount("abc"), None);
    assert_eq!(parse_amount(""), None);
}

#[test]
fn category_choices_are_one_based() {
    assert_eq!(parse_category_choice("1", 3), Some(0));
    assert_eq!(parse_category_choice(" 3 ", 3), Some(2));
    assert_eq!(parse_category_choice("0", 3), None);
    assert_eq!(parse_category_choice("4", 3), None);
    assert_eq!(parse_category_choice("x", 3), None);
}

#[test]
fn index_choices_are_zero_based() {
    assert_eq!(parse_index_choice("0", 2), Some(0));
    assert_eq!(parse_index_choice("1", 2), Some(1));
    assert_eq!(parse_index_choice("2", 2), None);
    assert_eq!(parse_index_choice("nope", 2), None);
}

#[test]
fn default_sheet_names_are_zero_padded() {
    assert_eq!(default_sheet_name(2, 2024), "02-2024");
    assert_eq!(default_sheet_name(11, 2024), "11-2024");
    assert_eq!(default_sheet_name(9, 25), "09-25");
}

#[test]
fn custom_sheet_names_join_the_tail() {
    assert_eq!(
        custom_sheet_name(&toks("add sheet my special sheet")),
        Some("my special sheet".to_string())
    );
    assert_eq!(custom_sheet_name(&toks("add sheet")), None);
}

#[test]
fn select_needs_exactly_one_argument() {
    let tokens = toks("select 09-2025");
    assert_eq!(select_arg(&tokens), Some(&"09-2025".to_string()));
    assert_eq!(select_arg(&toks("select")), None);
    assert_eq!(select_arg(&toks("select a b")), None);
    assert_eq!(select_arg(&toks("")), None);
}

#[test]
fn history_stepping() {
    assert_eq!(history_up(None, 3), Some(2));
    assert_eq!(history_up(Some(2), 3), Some(1));
    assert_eq!(history_up(Some(0), 3), Some(0));
    assert_eq!(history_down(Some(0), 3), Some(1));
    assert_eq!(history_down(Some(2), 3), None);
    assert_eq!(history_down(None, 3), None);
}
