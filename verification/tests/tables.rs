use substation::document::section;
use substation::entry::subtitle;
use substation::scan::to_chars;
use substation::subrip;
use substation::table::Table;

#[test]
fn a_table_keeps_one_value_for_each_name() {
    let mut table: Table<u32> = Table::new();
    assert_eq!(table.len(), 0);
    assert_eq!(table.get("a"), None);
    table.insert("a".to_string(), 1);
    table.insert("b".to_string(), 2);
    table.insert("a".to_string(), 3);
    assert_eq!(table.len(), 2);
    assert_eq!(table.get("a"), Some(&3));
    assert_eq!(table.get("b"), Some(&2));
    assert_eq!(table.get("c"), None);
    assert_eq!(table.get(""), None);
    assert_eq!(table.entries(), &vec![("a".to_string(), 3), ("b".to_string(), 2)]);
}

#[test]
fn a_copy_of_a_table_has_the_same_entries() {
    let mut table: Table<String> = Table::new();
    table.insert("k".to_string(), "v".to_string());
    let copy = table.clone();
    assert_eq!(copy, table);
    table.insert("k".to_string(), "w".to_string());
    assert_eq!(copy.get("k"), Some(&"v".to_string()));
    assert_ne!(copy, table);
}

#[test]
fn copies_are_equal_to_what_they_copy() {
    let (found, _) = section(&to_chars(
        "[V4+ Styles]\nFormat: Name, Angle, PrimaryColour\nStyle: A,1.5,&H00112233\n",
    ))
    .unwrap();
    assert_eq!(found.clone(), found);
    let row = subtitle(
        &to_chars("Dialogue: 1,{\\t(0,1,\\fs2)\\clip(m 0 0 s 1 2 3 4)}x{\\p1}b 1 2 3 4 5 6"),
        &vec!["Layer".to_string()],
    )
    .unwrap();
    assert_eq!(row.clone(), row);
    let (record, _) = subrip::entry(&to_chars("1\n0:0:0,0 --> 0:0:1,0\nx")).unwrap();
    assert_eq!(record.clone(), record);
}
