use libcalcore::keypad::{
    move_cursor_pos, ternary_operations, Editor, Reaction, SymbolMeans, EXPRESS_SYMBOLS,
};

#[test]
fn keys_of_the_expression() {
    for key in ["0", "1", "9", ".", "(", ")", "+", "-", "*", "/", "%", "^"] {
        assert_eq!(SymbolMeans::new(key), SymbolMeans::SymbolInPexress);
    }
    assert_eq!(EXPRESS_SYMBOLS, "1234567890.()+-*/%^");
}

#[test]
fn keys_that_edit() {
    assert_eq!(SymbolMeans::new("C"), SymbolMeans::Clear);
    assert_eq!(SymbolMeans::new("D"), SymbolMeans::Delete);
    assert_eq!(SymbolMeans::new("\u{2190}"), SymbolMeans::Left);
    assert_eq!(SymbolMeans::new("\u{2192}"), SymbolMeans::Right);
    assert_eq!(SymbolMeans::new("="), SymbolMeans::ShowResult);
}

#[test]
fn other_keys_are_unknown() {
    assert_eq!(SymbolMeans::new("x"), SymbolMeans::Unknow);
    assert_eq!(SymbolMeans::new("CD"), SymbolMeans::Unknow);
    assert_eq!(SymbolMeans::new("c"), SymbolMeans::Unknow);
    assert_eq!(SymbolMeans::new("21"), SymbolMeans::Unknow);
    assert_eq!(SymbolMeans::new(" "), SymbolMeans::Unknow);
}

#[test]
fn a_piece_of_the_symbols_is_a_key_of_the_expression() {
    assert_eq!(SymbolMeans::new("12"), SymbolMeans::SymbolInPexress);
    assert_eq!(SymbolMeans::new("()"), SymbolMeans::SymbolInPexress);
    assert_eq!(SymbolMeans::new(""), SymbolMeans::SymbolInPexress);
}

#[test]
fn the_cursor_moves_by_one_place() {
    let line = String::from("12|3");
    assert_eq!(move_cursor_pos(&line, 2, -1), "1|23");
    assert_eq!(move_cursor_pos(&line, 2, 1), "123|");
    assert_eq!(move_cursor_pos(&String::from("|123"), 0, 1), "1|23");
    assert_eq!(move_cursor_pos(&String::from("1+2|"), 3, -3), "|1+2");
}

#[test]
fn the_cursor_stays_in_the_line() {
    assert_eq!(move_cursor_pos(&String::from("|12"), 0, -1), "|12");
    assert_eq!(move_cursor_pos(&String::from("12|"), 2, 1), "12|");
    assert_eq!(move_cursor_pos(&String::from("|"), 0, 1), "|");
    assert_eq!(move_cursor_pos(&String::from(""), 0, 0), "");
    assert_eq!(move_cursor_pos(&String::from("1|2"), 1, 0), "1|2");
}

#[test]
fn one_of_two() {
    assert_eq!(ternary_operations(true, 1, 2), 1);
    assert_eq!(ternary_operations(false, 1, 2), 2);
    assert_eq!(ternary_operations(3 - 1 >= 0, "y", "n"), "y");
}

fn typed(keys: &[&str]) -> Editor {
    let mut editor = Editor::new();
    for key in keys {
        assert!(editor.has_room(key));
        editor.press(key);
    }
    editor
}

#[test]
fn a_new_line_holds_the_cursor_alone() {
    let editor = Editor::new();
    assert_eq!(editor.express(), "|");
    assert_eq!(editor.cursor_pos(), 0);
}

#[test]
fn symbols_go_in_at_the_cursor() {
    let mut editor = Editor::new();
    assert_eq!(editor.press("1"), Reaction::Express);
    assert_eq!(editor.express(), "1|");
    assert_eq!(editor.cursor_pos(), 1);
    assert_eq!(editor.press("+"), Reaction::Express);
    assert_eq!(editor.press("2"), Reaction::Express);
    assert_eq!(editor.express(), "1+2|");
    assert_eq!(editor.cursor_pos(), 3);
}

#[test]
fn the_arrows_move_the_cursor_through_the_line() {
    let mut editor = typed(&["1", "+", "2"]);
    assert_eq!(editor.press("\u{2190}"), Reaction::Express);
    assert_eq!(editor.express(), "1+|2");
    assert_eq!(editor.cursor_pos(), 2);
    editor.press("\u{2190}");
    editor.press("\u{2190}");
    assert_eq!(editor.express(), "|1+2");
    assert_eq!(editor.cursor_pos(), 0);
    editor.press("\u{2190}");
    assert_eq!(editor.express(), "|1+2");
    assert_eq!(editor.cursor_pos(), 0);
    editor.press("\u{2192}");
    assert_eq!(editor.express(), "1|+2");
    assert_eq!(editor.cursor_pos(), 1);
    editor.press("9");
    assert_eq!(editor.express(), "19|+2");
    assert_eq!(editor.cursor_pos(), 2);
    editor.press("\u{2192}");
    editor.press("\u{2192}");
    editor.press("\u{2192}");
    assert_eq!(editor.express(), "19+2|");
    assert_eq!(editor.cursor_pos(), 4);
}

#[test]
fn delete_takes_the_character_left_of_the_cursor() {
    let mut editor = typed(&["1", "2", "3"]);
    assert_eq!(editor.press("D"), Reaction::Express);
    assert_eq!(editor.express(), "12|");
    assert_eq!(editor.cursor_pos(), 2);
    editor.press("\u{2190}");
    editor.press("D");
    assert_eq!(editor.express(), "|2");
    assert_eq!(editor.cursor_pos(), 0);
}

#[test]
fn delete_at_the_start_takes_the_first_character() {
    let mut editor = typed(&["1", "\u{2190}"]);
    assert_eq!(editor.express(), "|1");
    editor.press("D");
    assert_eq!(editor.express(), "1");
    assert_eq!(editor.cursor_pos(), 0);
    editor.press("D");
    assert_eq!(editor.express(), "");
    assert_eq!(editor.cursor_pos(), 0);
    editor.press("D");
    assert_eq!(editor.express(), "");
    assert_eq!(editor.press("="), Reaction::ShowResult(String::from("")));
    editor.press("7");
    assert_eq!(editor.express(), "7");
    assert_eq!(editor.cursor_pos(), 0);
}

#[test]
fn clear_leaves_the_cursor_alone_in_the_line() {
    let mut editor = typed(&["1", "+", "2", "\u{2190}"]);
    assert_eq!(editor.press("C"), Reaction::Express);
    assert_eq!(editor.express(), "|");
    assert_eq!(editor.cursor_pos(), 0);
}

#[test]
fn the_result_is_asked_for_the_line_without_its_cursor() {
    let mut editor = typed(&["(", "1", "+", "2", ")", "*", "3", "\u{2190}", "\u{2190}"]);
    assert_eq!(editor.express(), "(1+2)|*3");
    assert_eq!(editor.press("="), Reaction::ShowResult(String::from("(1+2)*3")));
    assert_eq!(editor.express(), "(1+2)|*3");
    assert_eq!(editor.cursor_pos(), 5);
}

#[test]
fn an_unknown_key_changes_nothing() {
    let mut editor = typed(&["4", "2"]);
    assert_eq!(editor.press("x"), Reaction::Unknow);
    assert_eq!(editor.express(), "42|");
    assert_eq!(editor.cursor_pos(), 2);
}
