use addon_manager::addon::version::AddonVersion;
use addon_manager::addon::world_packet_list::{find, remove_entry, to_packet_list_string, upsert, InUse};

fn entry(id: &str, version: &str) -> InUse {
    InUse {
        pack_id: String::from(id),
        version: AddonVersion::parse(version).unwrap(),
    }
}

#[test]
fn find_on_empty_is_none() {
    let entries: Vec<InUse> = Vec::new();
    assert!(find(&entries, &String::from("X")).is_none());
}

#[test]
fn find_returns_first_match() {
    let entries = vec![entry("A", "1.0.0"), entry("B", "2.0.0")];
    let hit = find(&entries, &String::from("B")).unwrap();
    assert_eq!(hit.pack_id, "B");
    assert_eq!(hit.version.to_canonical_string(), "2.0.0");
    assert!(find(&entries, &String::from("C")).is_none());
}

#[test]
fn upsert_then_find_returns_new_entry() {
    // the upsert/find property on concrete values, over a non-empty prior
    // sequence that already holds the identifier
    let entries = vec![entry("A", "1.0.0"), entry("X", "1.0.0"), entry("B", "2.0.0")];
    let updated = upsert(&entries, entry("X", "3.1.4"));
    let hit = find(&updated, &String::from("X")).unwrap();
    assert_eq!(hit.pack_id, "X");
    assert_eq!(hit.version.to_canonical_string(), "3.1.4");
    // the old record is gone and order of the others is kept
    assert_eq!(updated.len(), 3);
    assert_eq!(updated[0].pack_id, "A");
    assert_eq!(updated[1].pack_id, "B");
    assert_eq!(updated[2].pack_id, "X");
}

#[test]
fn upsert_appends_when_absent() {
    let entries = vec![entry("A", "1.0.0")];
    let updated = upsert(&entries, entry("X", "1.2.3"));
    assert_eq!(updated.len(), 2);
    assert_eq!(updated[1].pack_id, "X");
}

#[test]
fn remove_entry_needs_exact_match() {
    let entries = vec![entry("A", "1.0.0"), entry("B", "2.0.0")];
    // same identifier, different version: a no-op
    let same_id = remove_entry(&entries, &entry("A", "9.9.9"));
    assert_eq!(same_id.len(), 2);
    // identifier and version both match: removed
    let gone = remove_entry(&entries, &entry("A", "1.0.0"));
    assert_eq!(gone.len(), 1);
    assert_eq!(gone[0].pack_id, "B");
    // an array-encoded version equals its string encoding
    let arr = InUse {
        pack_id: String::from("B"),
        version: AddonVersion::from_triplet(2, 0, 0),
    };
    let gone2 = remove_entry(&entries, &arr);
    assert_eq!(gone2.len(), 1);
    assert_eq!(gone2[0].pack_id, "A");
}

#[test]
fn packet_list_renders_strict_json() {
    let empty: Vec<InUse> = Vec::new();
    assert_eq!(to_packet_list_string(&empty), "[]");
    let entries = vec![entry("X", "1.2.3"), entry("Y", "1.0.0-alpha+7")];
    assert_eq!(
        to_packet_list_string(&entries),
        "[{\"pack_id\":\"X\",\"version\":[1,2,3]},{\"pack_id\":\"Y\",\"version\":\"1.0.0-alpha+7\"}]"
    );
}

#[test]
fn packet_list_escapes_identifiers() {
    let odd = InUse {
        pack_id: String::from("a\"b\\c\nd\u{1f}"),
        version: AddonVersion::from_triplet(1, 0, 0),
    };
    let text = to_packet_list_string(&vec![odd]);
    assert_eq!(
        text,
        "[{\"pack_id\":\"a\\\"b\\\\c\\nd\\u001f\",\"version\":[1,0,0]}]"
    );
    // what the serializer writes, a strict JSON reader accepts unchanged
    let value: serde_json::Value = serde_json::from_str(&text).unwrap();
    assert_eq!(value[0]["pack_id"], "a\"b\\c\nd\u{1f}");
}
