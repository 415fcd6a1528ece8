use mmr_tracker::config::Config;
use mmr_tracker::history::{collect_keys, find_value, player_history, sort_keys, HistoryEntry};
use mmr_tracker::scan::{fold_values, scan_nodes};
use mmr_tracker::xml::XmlNode;
use mmr_tracker::key::{generate_mmr_name, DataPointKey};
use mmr_tracker::scan::{scan, PlayerData, ScanError};
use mmr_tracker::text::parse_unsigned_text;

fn config(names: &[&str]) -> Config {
    Config {
        file_path: "attrs.xml".to_string(),
        player_names: names.iter().map(|n| n.to_string()).collect(),
    }
}

fn doc(attrs: &[(&str, &str)]) -> String {
    let mut s = String::from("<Attributes>");
    for (name, value) in attrs {
        s.push_str(&format!("<Attr name=\"{}\" value=\"{}\"/>", name, value));
    }
    s.push_str("</Attributes>");
    s
}

#[test]
fn missing_rating_node_gives_marker() {
    let xml = doc(&[("MissionBagPlayer_5_2_value", "Alice")]);
    let r = scan(&xml, &config(&["Alice"])).unwrap();
    assert_eq!(
        r,
        vec![PlayerData {
            name: "Alice".to_string(),
            history: vec![HistoryEntry::Missing(DataPointKey { major: 5, minor: 2 })],
        }]
    );
}

#[test]
fn happy_path_single_rating() {
    let xml = doc(&[
        ("MissionBagPlayer_3_1_value", "Alice"),
        ("MissionBagPlayer_3_1_mmr", "1500"),
    ]);
    let r = scan(&xml, &config(&["Alice"])).unwrap();
    assert_eq!(
        r,
        vec![PlayerData { name: "Alice".to_string(), history: vec![HistoryEntry::Rating(1500)] }]
    );
}

#[test]
fn entries_ordered_by_major_descending() {
    let xml = doc(&[
        ("MissionBagPlayer_3_1_value", "Alice"),
        ("MissionBagPlayer_3_1_mmr", "1500"),
        ("MissionBagPlayer_7_1_value", "Alice"),
        ("MissionBagPlayer_7_1_mmr", "1600"),
    ]);
    let r = scan(&xml, &config(&["Alice"])).unwrap();
    assert_eq!(r[0].history, vec![HistoryEntry::Rating(1600), HistoryEntry::Rating(1500)]);
}

#[test]
fn malformed_xml_is_a_parse_error() {
    let r = scan("<Attributes><Attr name=\"x\"", &config(&["Alice"]));
    assert!(matches!(r, Err(ScanError::Parse(_))));
}

#[test]
fn one_entry_per_configured_player_in_order() {
    let xml = doc(&[
        ("MissionBagPlayer_1_0_value", "Bob"),
        ("MissionBagPlayer_1_0_mmr", "2000"),
        ("MissionBagPlayer_4_0_value", "Alice"),
        ("MissionBagPlayer_4_0_mmr", "1400"),
        ("MissionBagPlayer_2_0_value", "Alice"),
        ("MissionBagPlayer_2_0_mmr", "1300"),
    ]);
    let r = scan(&xml, &config(&["Alice", "Carol", "Bob", "Alice"])).unwrap();
    assert_eq!(r.len(), 4);
    assert_eq!(r[0].name, "Alice");
    assert_eq!(r[0].history, vec![HistoryEntry::Rating(1400), HistoryEntry::Rating(1300)]);
    assert_eq!(r[1].name, "Carol");
    assert!(r[1].history.is_empty());
    assert_eq!(r[2].history, vec![HistoryEntry::Rating(2000)]);
    assert_eq!(r[3], r[0]);
}

#[test]
fn scanning_twice_gives_the_same_result() {
    let xml = doc(&[
        ("MissionBagPlayer_3_1_value", "Alice"),
        ("MissionBagPlayer_3_1_mmr", "1500"),
        ("MissionBagPlayer_9_2_value", "alice"),
    ]);
    let c = config(&["Alice"]);
    assert_eq!(scan(&xml, &c), scan(&xml, &c));
    assert_eq!(scan("<a", &c), scan("<a", &c));
}

#[test]
fn names_match_without_regard_to_case() {
    let xml = doc(&[
        ("MissionBagPlayer_3_1_value", "aLiCe"),
        ("MissionBagPlayer_3_1_mmr", "1500"),
        ("MissionBagPlayer_4_1_value", "Alicia"),
        ("MissionBagPlayer_4_1_mmr", "1700"),
    ]);
    let r = scan(&xml, &config(&["ALICE"])).unwrap();
    assert_eq!(r[0].name, "ALICE");
    assert_eq!(r[0].history, vec![HistoryEntry::Rating(1500)]);
}

#[test]
fn equal_majors_keep_document_order() {
    let xml = doc(&[
        ("MissionBagPlayer_2_1_value", "Alice"),
        ("MissionBagPlayer_2_1_mmr", "100"),
        ("MissionBagPlayer_2_2_value", "Alice"),
        ("MissionBagPlayer_2_2_mmr", "200"),
        ("MissionBagPlayer_5_0_value", "Alice"),
        ("MissionBagPlayer_5_0_mmr", "300"),
    ]);
    let r = scan(&xml, &config(&["Alice"])).unwrap();
    assert_eq!(
        r[0].history,
        vec![HistoryEntry::Rating(300), HistoryEntry::Rating(100), HistoryEntry::Rating(200)]
    );
}

#[test]
fn non_numeric_rating_is_marked_unreadable() {
    let xml = doc(&[
        ("MissionBagPlayer_3_1_value", "Alice"),
        ("MissionBagPlayer_3_1_mmr", "high"),
    ]);
    let r = scan(&xml, &config(&["Alice"])).unwrap();
    assert_eq!(r[0].history, vec![HistoryEntry::Unreadable(DataPointKey { major: 3, minor: 1 })]);
}

#[test]
fn names_without_a_key_are_skipped() {
    let xml = doc(&[
        ("PlayerName", "Alice"),
        ("MissionBagPlayer_3_1_value", "Alice"),
        ("MissionBagPlayer_3_1_mmr", "1500"),
    ]);
    let r = scan(&xml, &config(&["Alice"])).unwrap();
    assert_eq!(r[0].history, vec![HistoryEntry::Rating(1500)]);
}

#[test]
fn first_rating_node_in_document_order_wins() {
    let xml = "<A><B name=\"MissionBagPlayer_3_1_mmr\"/>\
               <B name=\"MissionBagPlayer_3_1_value\" value=\"Alice\"/>\
               <B name=\"MissionBagPlayer_3_1_mmr\" value=\"+42\"/>\
               <B name=\"MissionBagPlayer_3_1_mmr\" value=\"43\"/></A>";
    let r = scan(xml, &config(&["Alice"])).unwrap();
    assert_eq!(r[0].history, vec![HistoryEntry::Rating(42)]);
}

#[test]
fn key_is_read_from_attribute_name() {
    assert_eq!(
        DataPointKey::parse("MissionBagPlayer_3_1_value"),
        Some(DataPointKey { major: 3, minor: 1 })
    );
    assert_eq!(DataPointKey::parse("x_07_010_y"), Some(DataPointKey { major: 7, minor: 10 }));
    assert_eq!(DataPointKey::parse("a_1_b_2_3_"), Some(DataPointKey { major: 2, minor: 3 }));
    assert_eq!(DataPointKey::parse("MissionBagPlayer_3_value"), None);
    assert_eq!(DataPointKey::parse("_99999999999999999999_1_"), None);
    assert_eq!(DataPointKey::parse(""), None);
}

#[test]
fn rating_name_is_built_from_key() {
    assert_eq!(
        generate_mmr_name(&DataPointKey { major: 3, minor: 1 }),
        "MissionBagPlayer_3_1_mmr"
    );
    assert_eq!(
        generate_mmr_name(&DataPointKey { major: 120, minor: 0 }),
        "MissionBagPlayer_120_0_mmr"
    );
    assert_eq!(
        generate_mmr_name(&DataPointKey { major: u64::MAX, minor: 10 }),
        "MissionBagPlayer_18446744073709551615_10_mmr"
    );
}

#[test]
fn unsigned_text_is_parsed() {
    assert_eq!(parse_unsigned_text("1500", 4294967295), Some(1500));
    assert_eq!(parse_unsigned_text("+7", 4294967295), Some(7));
    assert_eq!(parse_unsigned_text("4294967295", 4294967295), Some(4294967295));
    assert_eq!(parse_unsigned_text("4294967296", 4294967295), None);
    assert_eq!(parse_unsigned_text("", 4294967295), None);
    assert_eq!(parse_unsigned_text("+", 4294967295), None);
    assert_eq!(parse_unsigned_text("-1", 4294967295), None);
    assert_eq!(parse_unsigned_text("12a", 4294967295), None);
    assert_eq!(parse_unsigned_text("18446744073709551615", u64::MAX), Some(u64::MAX));
    assert_eq!(parse_unsigned_text("18446744073709551616", u64::MAX), None);
}

fn node(name: Option<&str>, value: Option<&str>) -> XmlNode {
    XmlNode { name: name.map(|s| s.to_string()), value: value.map(|s| s.to_string()) }
}

fn key(major: u64, minor: u64) -> DataPointKey {
    DataPointKey { major, minor }
}

#[test]
fn history_from_given_folded_values() {
    let nodes = vec![
        node(Some("MissionBagPlayer_1_1_value"), Some("X")),
        node(Some("MissionBagPlayer_1_1_mmr"), Some("10")),
        node(Some("MissionBagPlayer_2_1_value"), Some("Y")),
        node(Some("MissionBagPlayer_2_1_mmr"), Some("20")),
        node(None, Some("who")),
    ];
    let folded = vec![Some("who".to_string()), None, Some("other".to_string()), None, Some("who".to_string())];
    assert_eq!(
        player_history(&nodes, &folded, &"who".to_string()),
        vec![HistoryEntry::Rating(10)]
    );
    assert_eq!(
        player_history(&nodes, &folded, &"other".to_string()),
        vec![HistoryEntry::Rating(20)]
    );
    assert_eq!(collect_keys(&nodes, &folded, &"who".to_string()), vec![key(1, 1)]);
    assert!(player_history(&nodes, &folded, &"nobody".to_string()).is_empty());
}

#[test]
fn values_are_folded_to_lowercase() {
    let nodes = vec![node(Some("a"), Some("AbC")), node(Some("b"), None), node(None, Some(""))];
    assert_eq!(
        fold_values(&nodes),
        vec![Some("abc".to_string()), None, Some(String::new())]
    );
}

#[test]
fn scan_of_parsed_nodes() {
    let nodes = vec![
        node(None, None),
        node(Some("MissionBagPlayer_4_2_value"), Some("BOB")),
        node(Some("MissionBagPlayer_4_2_mmr"), Some("1234")),
    ];
    let r = scan_nodes(&nodes, &config(&["bob"]));
    assert_eq!(r, vec![PlayerData { name: "bob".to_string(), history: vec![HistoryEntry::Rating(1234)] }]);
}

#[test]
fn keys_sorted_by_major_stably() {
    let keys = vec![key(1, 0), key(5, 1), key(3, 0), key(5, 2), key(1, 9)];
    assert_eq!(sort_keys(&keys), vec![key(5, 1), key(5, 2), key(3, 0), key(1, 0), key(1, 9)]);
    assert!(sort_keys(&vec![]).is_empty());
}

#[test]
fn first_named_node_with_value_is_found() {
    let nodes = vec![
        node(Some("n"), None),
        node(Some("m"), Some("1")),
        node(Some("n"), Some("2")),
        node(Some("n"), Some("3")),
    ];
    assert_eq!(find_value(&nodes, &"n".to_string()), Some("2".to_string()));
    assert_eq!(find_value(&nodes, &"z".to_string()), None);
}
