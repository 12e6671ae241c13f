use chat_rooms::text::{comes_before, join_spaced, push_decimal, same_text};

fn decimal(n: usize) -> String {
    let mut out = String::new();
    push_decimal(&mut out, n);
    out
}

#[test]
fn join_spaced_puts_a_space_after_every_item() {
    assert_eq!(join_spaced(&vec![]), "");
    assert_eq!(join_spaced(&vec!["a".to_string()]), "a ");
    assert_eq!(join_spaced(&vec!["a".to_string(), "".to_string(), "bc".to_string()]), "a  bc ");
}

#[test]
fn push_decimal_writes_the_numeral() {
    assert_eq!(decimal(0), "0");
    assert_eq!(decimal(7), "7");
    assert_eq!(decimal(10), "10");
    assert_eq!(decimal(16), "16");
    assert_eq!(decimal(1234567890), "1234567890");
    assert_eq!(decimal(usize::MAX), usize::MAX.to_string());
}

#[test]
fn push_decimal_appends_to_what_is_there() {
    let mut out = String::from("lobby(");
    push_decimal(&mut out, 305);
    assert_eq!(out, "lobby(305");
}

#[test]
fn comes_before_is_dictionary_order() {
    assert!(comes_before("A", "C"));
    assert!(!comes_before("C", "A"));
    assert!(!comes_before("A", "A"));
    assert!(comes_before("", "a"));
    assert!(!comes_before("a", ""));
    assert!(!comes_before("", ""));
    assert!(comes_before("lob", "lobby"));
    assert!(!comes_before("lobby", "lob"));
    assert!(comes_before("Zoo", "apple"));
    assert!(comes_before("main", "mais"));
}

#[test]
fn comes_before_agrees_with_the_order_of_str() {
    let samples = ["", "a", "A", "ab", "b", "main", "lobby", "é", "z", "日本", "~", "a b"];
    for a in samples {
        for b in samples {
            assert_eq!(comes_before(a, b), a < b, "{a:?} {b:?}");
        }
    }
}

#[test]
fn same_text_compares_contents() {
    assert!(same_text("", ""));
    assert!(same_text("main", "main"));
    assert!(!same_text("main", "Main"));
    assert!(!same_text("main", "main "));
}
