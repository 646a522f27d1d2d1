use vault_store::protocol::{process_line, Action};
use vault_store::text::{decimal_string, parse_u32, same_text, split_words};
use vault_store::vault::Vault;

fn reply(vault: &mut Vault, line: &str) -> String {
    match process_line(vault, line) {
        Action::Reply(text) => text,
        _ => panic!("expected a reply"),
    }
}

#[test]
fn session_scenario() {
    let mut vault = Vault::new(10);
    assert_eq!(reply(&mut vault, "PUT 1 gold 10"), "OK: item stored\n");
    assert_eq!(reply(&mut vault, "PUT 1 rock 95"), "ERROR: cell is full\n");
    assert_eq!(reply(&mut vault, "GET 1"), "Items: gold: 10 | Used: 10/100\n");
    assert_eq!(reply(&mut vault, "TAKE 1 gold"), "OK: taken gold 10\n");
    assert_eq!(reply(&mut vault, "GET 1"), "Cell is empty\n");
    match process_line(&mut vault, "PING") {
        Action::Delayed { secs, reply } => {
            assert!((1..=5).contains(&secs));
            assert_eq!(reply, "PONG\n");
        }
        _ => panic!("expected a delayed reply"),
    }
    match process_line(&mut vault, "EXIT") {
        Action::Close(text) => assert_eq!(text, "Bye!\n"),
        _ => panic!("expected the connection to close"),
    }
}

#[test]
fn blank_lines_get_no_answer() {
    let mut vault = Vault::new(10);
    assert!(matches!(process_line(&mut vault, ""), Action::Nothing));
    assert!(matches!(process_line(&mut vault, "  \t "), Action::Nothing));
}

#[test]
fn unknown_commands_are_reported() {
    let mut vault = Vault::new(10);
    assert_eq!(reply(&mut vault, "FETCH 1"), "ERROR: unknown command\n");
    assert_eq!(reply(&mut vault, "put 1 gold 10"), "ERROR: unknown command\n");
}

#[test]
fn usage_errors() {
    let mut vault = Vault::new(10);
    assert_eq!(reply(&mut vault, "PUT 1 gold"), "ERROR: usage PUT <id> <name> <size>\n");
    assert_eq!(reply(&mut vault, "PUT x gold 10"), "ERROR: usage PUT <id> <name> <size>\n");
    assert_eq!(reply(&mut vault, "PUT 1 gold ten"), "ERROR: usage PUT <id> <name> <size>\n");
    assert_eq!(reply(&mut vault, "GET"), "ERROR: usage GET <id>\n");
    assert_eq!(reply(&mut vault, "GET one"), "ERROR: invalid id\n");
    assert_eq!(reply(&mut vault, "TAKE 1"), "ERROR: usage TAKE <id> <name>\n");
    assert_eq!(reply(&mut vault, "TAKE -1 gold"), "ERROR: usage TAKE <id> <name>\n");
    assert!(vault.cells.is_empty());
}

#[test]
fn domain_errors() {
    let mut vault = Vault::new(1);
    assert_eq!(reply(&mut vault, "GET 5"), "ERROR: cell not found\n");
    assert_eq!(reply(&mut vault, "TAKE 5 gold"), "ERROR: item not found\n");
    assert_eq!(reply(&mut vault, "PUT 5 gold 1"), "OK: item stored\n");
    assert_eq!(reply(&mut vault, "TAKE 5 silver"), "ERROR: item not found\n");
    assert_eq!(reply(&mut vault, "PUT 6 gold 1"), "ERROR: vault is full\n");
}

#[test]
fn list_command() {
    let mut vault = Vault::new(10);
    assert_eq!(reply(&mut vault, "LIST"), "Vault is empty\n");
    reply(&mut vault, "PUT 3 gold 1");
    reply(&mut vault, "PUT 2 gold 1");
    assert_eq!(reply(&mut vault, "  LIST  "), "Occupied cells: 2, 3\n");
}

#[test]
fn words_are_split_on_any_white_space() {
    assert_eq!(split_words("  PUT\t1  gold\u{3000}10 "), vec![(2, 5), (6, 7), (9, 13), (14, 16)]);
    assert!(split_words("").is_empty());
    let mut vault = Vault::new(10);
    assert_eq!(reply(&mut vault, "PUT\t1   gold 10\r"), "OK: item stored\n");
}

#[test]
fn numbers_parse_as_u32() {
    assert_eq!(parse_u32("0"), Some(0));
    assert_eq!(parse_u32("007"), Some(7));
    assert_eq!(parse_u32("+12"), Some(12));
    assert_eq!(parse_u32("4294967295"), Some(u32::MAX));
    assert_eq!(parse_u32("4294967296"), None);
    assert_eq!(parse_u32("99999999999999999999"), None);
    assert_eq!(parse_u32(""), None);
    assert_eq!(parse_u32("+"), None);
    assert_eq!(parse_u32("-1"), None);
    assert_eq!(parse_u32("1a"), None);
}

#[test]
fn decimal_rendering() {
    assert_eq!(decimal_string(0), "0");
    assert_eq!(decimal_string(10), "10");
    assert_eq!(decimal_string(u32::MAX), "4294967295");
}

#[test]
fn text_comparison() {
    assert!(same_text("gold", "gold"));
    assert!(!same_text("gold", "gol"));
    assert!(!same_text("gold", "Gold"));
    assert!(same_text("", ""));
}
