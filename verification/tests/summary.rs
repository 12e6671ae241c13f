use chat_rooms::summary::{ranks_first, render_summary, sort_summary};

fn row(name: &str, live: usize) -> (String, usize) {
    (name.to_string(), live)
}

#[test]
fn higher_counts_come_first_and_names_break_ties() {
    let sorted = sort_summary(vec![row("A", 2), row("B", 5), row("C", 2)]);
    assert_eq!(sorted, vec![row("B", 5), row("A", 2), row("C", 2)]);
}

#[test]
fn sorting_does_not_depend_on_the_order_given() {
    let expected = vec![row("B", 5), row("A", 2), row("C", 2)];
    assert_eq!(sort_summary(vec![row("C", 2), row("A", 2), row("B", 5)]), expected);
    assert_eq!(sort_summary(vec![row("C", 2), row("B", 5), row("A", 2)]), expected);
    assert_eq!(sort_summary(vec![row("B", 5), row("C", 2), row("A", 2)]), expected);
}

#[test]
fn sorting_keeps_every_row() {
    let rows = vec![row("x", 1), row("x", 1), row("y", 0), row("a", 1), row("main", 16)];
    let sorted = sort_summary(rows);
    assert_eq!(sorted, vec![row("main", 16), row("a", 1), row("x", 1), row("x", 1), row("y", 0)]);
    assert_eq!(sort_summary(vec![]), vec![]);
}

#[test]
fn ranks_first_is_the_strict_order_of_the_summary() {
    assert!(ranks_first(&row("B", 5), &row("A", 2)));
    assert!(!ranks_first(&row("A", 2), &row("B", 5)));
    assert!(ranks_first(&row("A", 2), &row("C", 2)));
    assert!(!ranks_first(&row("C", 2), &row("A", 2)));
    assert!(!ranks_first(&row("A", 2), &row("A", 2)));
}

#[test]
fn render_writes_name_count_and_a_space() {
    assert_eq!(render_summary(&vec![]), "");
    assert_eq!(render_summary(&vec![row("main", 1)]), "main(1) ");
    assert_eq!(
        render_summary(&vec![row("B", 5), row("A", 2), row("C", 2)]),
        "B(5) A(2) C(2) "
    );
    assert_eq!(render_summary(&vec![row("", 0), row("big", 120)]), "(0) big(120) ");
}
