use std::io::BufRead;
use tipsy::db::{Database, DatabaseStatus};
use tipsy::tool::Tool;

fn names(db: &Database) -> Vec<String> {
    db.get_all_tools().iter().map(|t| t.0.clone()).collect()
}

fn list(tools: &[&str]) -> Database {
    let mut db = Database::new(DatabaseStatus::Fresh, "");
    for tool in tools {
        db.add_tool(tool);
    }
    db
}

#[test]
fn fresh_database_is_empty() {
    assert_eq!(names(&Database::new(DatabaseStatus::Fresh, "")), Vec::<String>::new());
}

#[test]
fn fresh_database_reads_nothing() {
    assert_eq!(names(&Database::new(DatabaseStatus::Fresh, "rg\nfd\n")), Vec::<String>::new());
}

#[test]
fn existing_database_holds_the_stored_names() {
    assert_eq!(names(&Database::new(DatabaseStatus::Existed, "rg\nfd\nbat\n")), ["rg", "fd", "bat"]);
}

#[test]
fn existing_database_may_be_empty() {
    assert_eq!(names(&Database::new(DatabaseStatus::Existed, "")), Vec::<String>::new());
}

#[test]
fn stored_text_need_not_end_in_a_newline() {
    assert_eq!(names(&Database::new(DatabaseStatus::Existed, "rg\nfd")), ["rg", "fd"]);
    assert_eq!(names(&Database::new(DatabaseStatus::Existed, "rg")), ["rg"]);
}

#[test]
fn stored_empty_lines_are_names() {
    assert_eq!(names(&Database::new(DatabaseStatus::Existed, "\n")), [""]);
    assert_eq!(names(&Database::new(DatabaseStatus::Existed, "rg\n\nfd\n\n")), ["rg", "", "fd", ""]);
}

#[test]
fn stored_lines_lose_the_carriage_return_before_the_newline() {
    assert_eq!(names(&Database::new(DatabaseStatus::Existed, "rg\r\nfd\r\n")), ["rg", "fd"]);
    assert_eq!(names(&Database::new(DatabaseStatus::Existed, "rg\r\r\n")), ["rg\r"]);
    assert_eq!(names(&Database::new(DatabaseStatus::Existed, "r\rg\n")), ["r\rg"]);
    assert_eq!(names(&Database::new(DatabaseStatus::Existed, "\r\n")), [""]);
}

#[test]
fn stored_last_line_keeps_its_carriage_return() {
    assert_eq!(names(&Database::new(DatabaseStatus::Existed, "rg\r\nfd\r")), ["rg", "fd\r"]);
    assert_eq!(names(&Database::new(DatabaseStatus::Existed, "\r")), ["\r"]);
}

#[test]
fn stored_names_agree_with_reading_lines() {
    for text in ["", "\n", "a", "a\n", "a\nb", "a\r\nb\r\n", "a\r", "\r\n\r\n", " x \n\ty\n", "é\nü"] {
        let expected: Vec<String> = text.as_bytes().lines().map(|l| l.unwrap()).collect();
        assert_eq!(names(&Database::new(DatabaseStatus::Existed, text)), expected);
    }
}

#[test]
fn added_tools_come_last() {
    let mut db = Database::new(DatabaseStatus::Existed, "rg\n");
    db.add_tool("fd");
    db.add_tool("rg");
    assert_eq!(names(&db), ["rg", "fd", "rg"]);
}

#[test]
fn removed_tool_is_gone_and_the_others_stay() {
    let mut db = list(&["rg", "fd", "bat"]);
    db.remove_tool("fd");
    assert_eq!(names(&db), ["rg", "bat"]);
}

#[test]
fn removing_takes_every_tool_of_that_name() {
    let mut db = list(&["rg", "fd", "rg", "bat", "rg"]);
    db.remove_tool("rg");
    assert_eq!(names(&db), ["fd", "bat"]);
}

#[test]
fn removing_an_unknown_tool_changes_nothing() {
    let mut db = list(&["rg", "fd"]);
    db.remove_tool("r");
    db.remove_tool("RG");
    db.remove_tool("");
    assert_eq!(names(&db), ["rg", "fd"]);
    let mut empty = list(&[]);
    empty.remove_tool("rg");
    assert_eq!(names(&empty), Vec::<String>::new());
}

#[test]
fn get_tool_finds_by_name() {
    let db = list(&["rg", "fd", "bat"]);
    assert_eq!(db.get_tool("fd"), Some(&Tool("fd".to_string())));
    assert_eq!(db.get_tool("rg"), Some(&Tool("rg".to_string())));
    assert_eq!(db.get_tool("f"), None);
    assert_eq!(db.get_tool("fd "), None);
    assert_eq!(list(&[]).get_tool("fd"), None);
}

#[test]
fn get_tool_gives_the_first_of_a_name() {
    let db = list(&["fd", "rg", "rg"]);
    let found = db.get_tool("rg").unwrap();
    assert!(std::ptr::eq(found, &db.get_all_tools()[1]));
}

#[test]
fn get_all_tools_keeps_the_order() {
    let db = list(&["b", "a", "c"]);
    assert_eq!(
        db.get_all_tools(),
        &vec![Tool("b".to_string()), Tool("a".to_string()), Tool("c".to_string())]
    );
}

#[test]
fn get_random_tool_is_the_first() {
    assert_eq!(list(&["fd", "rg"]).get_random_tool(), Some(&Tool("fd".to_string())));
    assert_eq!(list(&[]).get_random_tool(), None);
}

#[test]
fn tool_for_a_name_or_for_none() {
    let db = list(&["fd", "rg"]);
    assert_eq!(db.tool_for(Some("rg")), Some(&Tool("rg".to_string())));
    assert_eq!(db.tool_for(Some("bat")), None);
    assert_eq!(db.tool_for(None), Some(&Tool("fd".to_string())));
    assert_eq!(list(&[]).tool_for(None), None);
    assert_eq!(list(&[]).tool_for(Some("rg")), None);
}

#[test]
fn save_writes_a_line_for_each_tool() {
    assert_eq!(list(&[]).save(), "");
    assert_eq!(list(&["rg"]).save(), "rg\n");
    assert_eq!(list(&["rg", "fd", "bat"]).save(), "rg\nfd\nbat\n");
    assert_eq!(list(&["", ""]).save(), "\n\n");
}

#[test]
fn what_is_saved_is_read_back() {
    for tools in [&[][..], &["rg"][..], &["rg", "fd", "rg"][..], &["", " x ", "a\rb", "é"][..]] {
        let db = list(tools);
        let back = Database::new(DatabaseStatus::Existed, &db.save());
        assert_eq!(names(&back), names(&db));
    }
}
