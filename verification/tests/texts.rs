//! Commands, topics, screen locations and settings: what texts are read as.

use dm_vm::commands::{
    normalize_client_command_name, parse_client_command_arguments, split_client_command,
    ClientCommandError,
};
use dm_vm::pointers::cut_topic;
use dm_vm::services::resolve_heap_identity_ceiling;
use dm_vm::snapshot::split_screen_loc;
use dm_vm::state::DEFAULT_HEAP_IDENTITY_CEILING;
use dm_vm::symbols::SymbolTable;
use dm_vm::text::{
    chars_of, has_text, is_path_under, last_place, matches_at, numbered, push_decimal, up_to_mark,
};

fn split(text: &str) -> (Option<String>, String) {
    split_screen_loc(&chars_of(text))
}

#[test]
fn command_names_are_matched_by_letters_and_digits() {
    assert_eq!(normalize_client_command_name("Say-Hello 2!"), "sayhello2");
    assert_eq!(normalize_client_command_name(".north"), "north");
    let once = normalize_client_command_name("A_b.C");
    assert_eq!(normalize_client_command_name(&once), once);
}

#[test]
fn commands_are_split_at_the_first_blank() {
    assert_eq!(
        split_client_command("  say  hello there "),
        Ok(("say".to_string(), "hello there".to_string()))
    );
    assert_eq!(split_client_command("look"), Ok(("look".to_string(), String::new())));
    assert_eq!(split_client_command(" \t "), Err(ClientCommandError::Empty));
}

#[test]
fn command_arguments_may_be_quoted() {
    assert_eq!(
        parse_client_command_arguments("one \"two three\" f\\our \"a\\\"b\""),
        Ok(vec![
            "one".to_string(),
            "two three".to_string(),
            "f\\our".to_string(),
            "a\"b".to_string(),
        ])
    );
    assert_eq!(parse_client_command_arguments(""), Ok(Vec::new()));
    assert_eq!(
        parse_client_command_arguments("\"a \\\"b\\\" \\\\\" \"c\""),
        Ok(vec!["a \"b\" \\".to_string(), "c".to_string()])
    );
    assert_eq!(
        parse_client_command_arguments("\"open"),
        Err(ClientCommandError::UnterminatedQuote)
    );
}

#[test]
fn topics_lose_scheme_and_question_mark() {
    assert_eq!(cut_topic("byond://?src=1;action=x"), "src=1;action=x");
    assert_eq!(cut_topic("?a=b"), "a=b");
    assert_eq!(cut_topic("a=b"), "a=b");
    assert_eq!(cut_topic("byond://a"), "a");
    assert_eq!(cut_topic("??"), "?");
}

#[test]
fn screen_locations_may_name_a_control() {
    assert_eq!(split("mapwindow:1,1"), (Some("mapwindow".to_string()), "1,1".to_string()));
    assert_eq!(split("CENTER:16,SOUTH:5"), (None, "CENTER:16,SOUTH:5".to_string()));
    assert_eq!(split("center:16,1"), (None, "center:16,1".to_string()));
    assert_eq!(split("1:2"), (None, "1:2".to_string()));
    assert_eq!(split("my map:1,1"), (None, "my map:1,1".to_string()));
    assert_eq!(split(":1,1"), (None, ":1,1".to_string()));
    assert_eq!(split(""), (None, String::new()));
    assert_eq!(split("a:b:1,1"), (Some("a".to_string()), "b:1,1".to_string()));
}

#[test]
fn ceilings_are_read_from_settings() {
    assert_eq!(resolve_heap_identity_ceiling(None), DEFAULT_HEAP_IDENTITY_CEILING);
    assert_eq!(resolve_heap_identity_ceiling(Some(" 70000\n")), 70_000);
    assert_eq!(resolve_heap_identity_ceiling(Some("+65536")), 65_536);
    for refused in ["65535", "", "+", "-70000", "7e5", "99999999999999999999999"] {
        assert_eq!(
            resolve_heap_identity_ceiling(Some(refused)),
            DEFAULT_HEAP_IDENTITY_CEILING
        );
    }
}

#[test]
fn symbols_are_shared_by_spelling() {
    let mut symbols = SymbolTable::new();
    let first = symbols.intern("alpha");
    let second = symbols.intern("beta");
    assert_eq!(symbols.intern("alpha"), first);
    assert_ne!(first, second);
    assert_eq!(symbols.text(second), Some("beta"));
    assert_eq!(symbols.find("gamma"), None);
    let path = symbols.intern("/obj/item");
    assert!(symbols.is_under(path, "/obj"));
    assert!(symbols.is_under(path, "/obj/item"));
    assert!(!symbols.is_under(path, "/obj/it"));
}

#[test]
fn texts_are_searched_and_written() {
    let text = chars_of("/datum/proc/x");
    assert!(has_text(&text, &chars_of("/proc/")));
    assert!(!has_text(&text, &chars_of("/verb/")));
    assert!(matches_at(&text, 6, &chars_of("/proc")));
    assert_eq!(last_place(&text, &chars_of("/")), Some(11));
    assert_eq!(up_to_mark(&text, '/'), Vec::<char>::new());
    assert!(is_path_under(&text, &chars_of("/datum")));
    let mut digits: Vec<char> = Vec::new();
    push_decimal(&mut digits, 1_204);
    assert_eq!(digits, chars_of("1204"));
    assert_eq!(numbered("Guest-", 18_446_744_073_709_551_615), "Guest-18446744073709551615");
}
