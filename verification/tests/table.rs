use zc::table::{check_table, table_from};

#[test]
fn a_table_is_sorted_by_name_with_each_name_once() {
    let t = vec![("a".to_string(), 1), ("b".to_string(), 2)];
    assert!(check_table(&t));
    assert!(!check_table(&vec![("b".to_string(), 1), ("a".to_string(), 2)]));
    assert!(!check_table(&vec![("a".to_string(), 1), ("a".to_string(), 2)]));
    assert!(check_table(&Vec::<(String, u8)>::new()));
}

#[test]
fn building_a_table_sorts_names_and_keeps_the_last_entry_of_a_name() {
    let t = table_from(vec![("b".to_string(), 1), ("a".to_string(), 2), ("b".to_string(), 3)]);
    assert_eq!(t, vec![("a".to_string(), 2), ("b".to_string(), 3)]);
    assert!(check_table(&t));
}
