use file_navigator::favourites::{
    decode_favourites, encode_favourites, remove_from_file, remove_where, FavouriteRecord,
    PersistenceError,
};

fn rec(path: &str, label: &str) -> FavouriteRecord {
    FavouriteRecord {
        path: path.to_string(),
        label: label.to_string(),
    }
}

#[test]
fn encode_produces_the_flat_pair_text() {
    let records = vec![rec("/a", "A"), rec("/b", "B")];
    assert_eq!(encode_favourites(&records), "[[\"/a\",\"A\"],[\"/b\",\"B\"]]");
}

#[test]
fn encode_of_nothing_is_the_empty_sequence() {
    assert_eq!(encode_favourites(&vec![]), "[]");
    assert_eq!(decode_favourites("[]").unwrap(), vec![]);
}

#[test]
fn save_then_load_round_trips_in_order() {
    let records = vec![rec("/home/user", "home"), rec("/tmp", "scratch"), rec("/a", "A")];
    let text = encode_favourites(&records);
    let back = decode_favourites(&text).unwrap();
    assert_eq!(back, records);
}

#[test]
fn round_trip_keeps_duplicates() {
    let records = vec![rec("/a", "A"), rec("/a", "A")];
    let back = decode_favourites(&encode_favourites(&records)).unwrap();
    assert_eq!(back, records);
}

#[test]
fn round_trip_escapes_quotes_and_backslashes() {
    let records = vec![rec("C:\\Program Files\\x", "quo\"ted"), rec("", "")];
    let text = encode_favourites(&records);
    let back = decode_favourites(&text).unwrap();
    assert_eq!(back, records);
}

#[test]
fn stored_text_matches_the_common_json_form() {
    // the persisted text is plain JSON: an off-the-shelf JSON reader gets
    // the same pairs back, and writes the same text for them
    let records = vec![rec("/a", "A"), rec("C:\\x", "l\"bl")];
    let text = encode_favourites(&records);
    let parsed: Vec<(String, String)> = serde_json::from_str(&text).unwrap();
    assert_eq!(
        parsed,
        vec![
            ("/a".to_string(), "A".to_string()),
            ("C:\\x".to_string(), "l\"bl".to_string()),
        ]
    );
    assert_eq!(serde_json::to_string(&parsed).unwrap(), text);
}

#[test]
fn malformed_stores_fail_to_load() {
    assert_eq!(decode_favourites(""), Err(PersistenceError::Malformed));
    assert_eq!(decode_favourites("not json"), Err(PersistenceError::Malformed));
    assert_eq!(decode_favourites("["), Err(PersistenceError::Malformed));
    assert_eq!(decode_favourites("[[\"/a\",\"A\"]"), Err(PersistenceError::Malformed));
    assert_eq!(decode_favourites("[]x"), Err(PersistenceError::Malformed));
    assert_eq!(decode_favourites("[[\"/a\",\"A\"]]trail"), Err(PersistenceError::Malformed));
}

#[test]
fn remove_where_drops_matching_records_only() {
    let records = vec![rec("/a", "A"), rec("/b", "B"), rec("/a", "again")];
    let kept = remove_where(&records, |r: &FavouriteRecord| r.path == "/a");
    assert_eq!(kept, vec![rec("/b", "B")]);
}

#[test]
fn remove_from_file_filters_and_reloads() {
    let stored = encode_favourites(&vec![rec("/a", "A"), rec("/b", "B")]);
    let rewritten = remove_from_file(&stored, |r: &FavouriteRecord| r.path == "/a").unwrap();
    let back = decode_favourites(&rewritten).unwrap();
    assert_eq!(back, vec![rec("/b", "B")]);
}

#[test]
fn remove_from_file_propagates_malformed_stores() {
    let r = remove_from_file("oops", |_r: &FavouriteRecord| false);
    assert_eq!(r, Err(PersistenceError::Malformed));
}
