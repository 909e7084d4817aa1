use addon_manager::addon::manifest::{
    Header, Manifest, Metadata, Module, ModuleType, PackateType,
};
use addon_manager::addon::version::AddonVersion;
use addon_manager::addon::world_packet_list::InUse;
use addon_manager::commands::install::{install_single_pack, InstallOutcome};
use addon_manager::commands::list::list;
use addon_manager::commands::remove::{get_list, remove, ListedPack, RemoveError};

fn manifest(uuid: &str, name: &str, version: &str, modules: &[ModuleType]) -> Manifest {
    let modules = modules
        .iter()
        .map(|m| Module { modles_type: *m })
        .collect::<Vec<_>>();
    Manifest::new(
        Header {
            description: Some(String::from("a test pack")),
            name: String::from(name),
            uuid: String::from(uuid),
            version: AddonVersion::parse(version).unwrap(),
        },
        modules,
        None,
        None,
    )
}

fn entry(id: &str, version: &str) -> InUse {
    InUse {
        pack_id: String::from(id),
        version: AddonVersion::parse(version).unwrap(),
    }
}

#[test]
fn classify_world_template_is_unsupported() {
    let m = manifest("X", "Foo", "1.0.0", &[ModuleType::WorldTemplate]);
    assert!(PackateType::classify(&m).is_err());
}

#[test]
fn classify_data_and_resources_is_behavior() {
    let m = manifest(
        "X",
        "Foo",
        "1.0.0",
        &[ModuleType::Data, ModuleType::Resources],
    );
    assert_eq!(PackateType::classify(&m).unwrap(), PackateType::Behavior);
}

#[test]
fn classify_script_is_behavior_and_resources_is_resource() {
    let m = manifest("X", "Foo", "1.0.0", &[ModuleType::Script]);
    assert_eq!(PackateType::classify(&m).unwrap(), PackateType::Behavior);
    let m = manifest("X", "Foo", "1.0.0", &[ModuleType::Resources]);
    assert_eq!(PackateType::classify(&m).unwrap(), PackateType::Resource);
}

#[test]
fn manifest_predicates() {
    let m = manifest("X", "Foo", "1.0.0", &[ModuleType::Data]);
    assert!(m.is_behavior_pack());
    assert!(!m.is_resource_pack());
    assert_eq!(m.get_type(), vec![ModuleType::Data]);
}

#[test]
fn install_into_empty_registry() {
    // scenario: empty registry, install uuid "X", name "Foo", version
    // "1.2.3", module kind `data`
    let m = manifest("X", "Foo", "1.2.3", &[ModuleType::Data]);
    let kind = PackateType::classify(&m).unwrap();
    assert_eq!(kind, PackateType::Behavior);
    assert_eq!(kind.get_path_name(), "behavior_packs");
    assert_eq!(kind.get_list_file_string(), "world_behavior_packs.json");
    let entries: Vec<InUse> = Vec::new();
    let (outcome, updated) = install_single_pack(&entries, &m.header.uuid, &m.header.version);
    assert_eq!(outcome, InstallOutcome::Installed);
    let updated = updated.unwrap();
    assert_eq!(updated.len(), 1);
    assert_eq!(updated[0].pack_id, "X");
    assert_eq!(updated[0].version.to_canonical_string(), "1.2.3");
}

#[test]
fn install_twice_is_idempotent() {
    // same uuid, same version, twice in a row: one record, second run skips
    let v = AddonVersion::parse("1.2.3").unwrap();
    let entries: Vec<InUse> = Vec::new();
    let (o1, l1) = install_single_pack(&entries, &String::from("X"), &v);
    assert_eq!(o1, InstallOutcome::Installed);
    let l1 = l1.unwrap();
    let (o2, l2) = install_single_pack(&l1, &String::from("X"), &v);
    assert_eq!(o2, InstallOutcome::AlreadyInstalled);
    assert!(l2.is_none());
    assert_eq!(l1.iter().filter(|e| e.pack_id == "X").count(), 1);
}

#[test]
fn upgrade_is_monotone() {
    // 1.0.0 then 2.0.0 upgrades to one record at 2.0.0; 2.0.0 then 1.0.0
    // skips the downgrade and keeps 2.0.0
    let v1 = AddonVersion::parse("1.0.0").unwrap();
    let v2 = AddonVersion::parse("2.0.0").unwrap();
    let id = String::from("X");
    let empty: Vec<InUse> = Vec::new();

    let (_, l1) = install_single_pack(&empty, &id, &v1);
    let l1 = l1.unwrap();
    let (o2, l2) = install_single_pack(&l1, &id, &v2);
    assert_eq!(o2, InstallOutcome::Upgraded);
    let l2 = l2.unwrap();
    assert_eq!(l2.len(), 1);
    assert_eq!(l2[0].pack_id, "X");
    assert_eq!(l2[0].version.to_canonical_string(), "2.0.0");

    let (_, m1) = install_single_pack(&empty, &id, &v2);
    let m1 = m1.unwrap();
    let (o2, m2) = install_single_pack(&m1, &id, &v1);
    assert_eq!(o2, InstallOutcome::NewerInstalled);
    assert!(m2.is_none());
    assert_eq!(m1.len(), 1);
    assert_eq!(m1[0].version.to_canonical_string(), "2.0.0");
}

#[test]
fn cross_reference_drops_version_mismatch() {
    // scenario: registry holds uuid "X" at 1.0.0 but the directory's
    // manifest reports 2.0.0: the pack is excluded
    let entries = vec![entry("X", "1.0.0")];
    let manifests = vec![manifest("X", "Foo", "2.0.0", &[ModuleType::Data])];
    let candidates = get_list(&entries, &manifests);
    assert!(candidates.is_empty());
    let rows = list(false, false, false, &Vec::new(), &Vec::new(), true, &entries, &manifests);
    assert!(rows.is_empty());
}

#[test]
fn cross_reference_keeps_confirmed_packs() {
    let entries = vec![entry("X", "1.0.0"), entry("Z", "3.0.0")];
    let manifests = vec![
        manifest("X", "Foo", "1.0.0", &[ModuleType::Data]),
        manifest("Y", "Orphan", "1.0.0", &[ModuleType::Data]),
    ];
    let candidates = get_list(&entries, &manifests);
    assert_eq!(candidates.len(), 1);
    assert_eq!(candidates[0].name, "Foo");
    assert_eq!(candidates[0].entry.pack_id, "X");
    assert_eq!(candidates[0].dir_index, 0);
}

#[test]
fn listing_renders_rows() {
    let entries = vec![entry("X", "1.0.0")];
    let manifests = vec![manifest("X", "Foo", "1.0.0", &[ModuleType::Resources])];
    let rows = list(true, false, true, &entries, &manifests, false, &Vec::new(), &Vec::new());
    assert_eq!(rows.len(), 1);
    assert_eq!(rows[0].name, "Foo");
    assert_eq!(rows[0].uuid, "X");
    assert_eq!(rows[0].version, "1.0.0");
    assert_eq!(rows[0].kind_name, "resource packs");
    assert_eq!(rows[0].description, "a test pack");
}

#[test]
fn listing_flags_default_to_both() {
    let entries = vec![entry("X", "1.0.0")];
    let r_manifests = vec![manifest("X", "Foo", "1.0.0", &[ModuleType::Resources])];
    let b_manifests = vec![manifest("X", "Bar", "1.0.0", &[ModuleType::Data])];
    let rows = list(false, false, true, &entries, &r_manifests, true, &entries, &b_manifests);
    assert_eq!(rows.len(), 2);
    assert_eq!(rows[0].name, "Foo");
    assert_eq!(rows[1].name, "Bar");
    let only_behavior = list(false, true, true, &entries, &r_manifests, true, &entries, &b_manifests);
    assert_eq!(only_behavior.len(), 1);
    assert_eq!(only_behavior[0].name, "Bar");
}

fn candidate(uuid: &str, name: &str, version: &str, dir_index: usize) -> ListedPack {
    ListedPack {
        name: String::from(name),
        entry: entry(uuid, version),
        dir_index,
    }
}

#[test]
fn remove_by_uuid_takes_priority() {
    let bp = vec![candidate("B1", "Foo", "1.0.0", 0)];
    let rp = vec![candidate("R1", "B1", "1.0.0", 0)];
    // "B1" is a uuid in the behavior list and a display name in the
    // resource list: the uuid match wins
    let plan = remove(&String::from("B1"), false, &bp, &rp).unwrap();
    assert_eq!(plan.behavior, Some(0));
    assert_eq!(plan.resource, None);
}

#[test]
fn remove_same_name_in_both_kinds_collides() {
    // scenario: a behavior pack and a resource pack are both named "Foo",
    // with distinct uuids, and both kinds were not asked for
    let bp = vec![candidate("B1", "Foo", "1.0.0", 0)];
    let rp = vec![candidate("R1", "Foo", "1.0.0", 0)];
    let err = remove(&String::from("Foo"), false, &bp, &rp).unwrap_err();
    assert_eq!(err, RemoveError::CrossKindNameCollision);
    // with the flag set, both are removed
    let plan = remove(&String::from("Foo"), true, &bp, &rp).unwrap();
    assert_eq!(plan.behavior, Some(0));
    assert_eq!(plan.resource, Some(0));
}

#[test]
fn remove_ambiguous_name_needs_uuid() {
    let bp = vec![
        candidate("B1", "Foo", "1.0.0", 0),
        candidate("B2", "Foo", "2.0.0", 1),
    ];
    let rp: Vec<ListedPack> = Vec::new();
    let err = remove(&String::from("Foo"), false, &bp, &rp).unwrap_err();
    assert_eq!(err, RemoveError::AmbiguousIdentifier);
}

#[test]
fn remove_single_name_match_and_not_found() {
    let bp = vec![candidate("B1", "Foo", "1.0.0", 3)];
    let rp: Vec<ListedPack> = Vec::new();
    let plan = remove(&String::from("Foo"), false, &bp, &rp).unwrap();
    assert_eq!(plan.behavior, Some(0));
    assert_eq!(plan.resource, None);
    let err = remove(&String::from("Missing"), false, &bp, &rp).unwrap_err();
    assert_eq!(err, RemoveError::PackNotFound);
}

#[test]
fn metadata_holds_optional_fields() {
    let meta = Metadata {
        authors: Some(vec![String::from("someone")]),
        license: None,
        url: Some(String::from("https://example.invalid")),
    };
    assert_eq!(meta.authors.as_ref().unwrap().len(), 1);
    assert!(meta.license.is_none());
}
