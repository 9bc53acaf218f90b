use instant::symbols::SymbolTable;
use instant::text::{push_decimal, push_signed_decimal, str_eq};

#[test]
fn decimal_numerals() {
    for value in [0u64, 1, 9, 10, 11, 99, 100, 101, 1234567890, u64::MAX] {
        let mut out = String::from("n=");
        push_decimal(&mut out, value);
        assert_eq!(out, format!("n={value}"));
    }
}

#[test]
fn signed_decimal_numerals() {
    for value in [0i32, 1, -1, 9, -9, 10, -10, 32768, -32768, i32::MAX, i32::MIN] {
        let mut out = String::new();
        push_signed_decimal(&mut out, value);
        assert_eq!(out, format!("{value}"));
    }
}

#[test]
fn string_equality() {
    assert!(str_eq("", ""));
    assert!(str_eq("name", "name"));
    assert!(!str_eq("name", "nam"));
    assert!(!str_eq("nam", "name"));
    assert!(!str_eq("name", "nane"));
    assert!(!str_eq("", "a"));
    assert!(str_eq("za\u{17c}\u{f3}\u{142}\u{107}", "za\u{17c}\u{f3}\u{142}\u{107}"));
    assert!(!str_eq("za\u{17c}\u{f3}\u{142}\u{107}", "za\u{17c}\u{f3}\u{142}c"));
}

#[test]
fn symbol_table_binds_and_rebinds() {
    let mut table: SymbolTable<'static, usize> = SymbolTable::new();
    assert_eq!(table.len(), 0);
    assert_eq!(table.get("a"), None);
    table.insert("a", 1);
    table.insert("b", 2);
    assert_eq!(table.len(), 2);
    assert_eq!(table.get("a"), Some(1));
    assert_eq!(table.get("b"), Some(2));
    assert_eq!(table.get("c"), None);
    table.insert("a", 7);
    assert_eq!(table.len(), 2);
    assert_eq!(table.get("a"), Some(7));
    assert_eq!(table.get("b"), Some(2));
    let owned = String::from("b");
    assert_eq!(table.get(owned.as_str()), Some(2));
}
