use sql_engine::text::first_word;

#[test]
fn test_first_word() {
    assert_eq!(first_word("SELECT 1"), "SELECT");
    assert_eq!(first_word("CREATE TABLE t1(x INT)"), "CREATE");
    assert_eq!(first_word("  INSERT INTO t1 VALUES(1)"), "INSERT");
}

#[test]
fn first_word_of_nothing_is_unknown() {
    assert_eq!(first_word(""), "unknown");
    assert_eq!(first_word("   \t\n"), "unknown");
}

#[test]
fn first_word_ends_at_any_white_space() {
    assert_eq!(first_word("DROP\tTABLE t"), "DROP");
    assert_eq!(first_word("\u{a0}x\u{2003}y"), "x");
}
