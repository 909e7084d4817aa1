use addon_manager::{
    check_bds_exist, get_work_path_type, is_bds_exist, is_bds_root, is_bedrock_level, WorkDirType,
};

fn names(list: &[&str]) -> Vec<String> {
    list.iter().map(|s| String::from(*s)).collect()
}

#[test]
fn bds_exist_accepts_suffixed_binary() {
    assert!(is_bds_exist(&names(&["bedrock_server.exe"])));
    assert!(is_bds_exist(&names(&["worlds", "bedrock_server.exe.old"])));
    assert!(!is_bds_exist(&names(&["bedrock_server", "server.exe"])));
    assert!(!is_bds_exist(&names(&[])));
}

#[test]
fn check_bds_exist_errs_without_binary() {
    assert!(check_bds_exist(&names(&["bedrock_server.exe"])).is_ok());
    assert!(check_bds_exist(&names(&["worlds"])).is_err());
}

#[test]
fn bedrock_level_needs_all_four_entries() {
    assert!(is_bedrock_level(&names(&[
        "levelname.txt",
        "db",
        "level.dat",
        "level.dat_old"
    ])));
    assert!(!is_bedrock_level(&names(&["levelname.txt", "db", "level.dat"])));
}

#[test]
fn bds_root_by_binary_or_layout() {
    assert!(is_bds_root(&names(&["bedrock_server.exe"])));
    assert!(is_bds_root(&names(&["worlds", "bedrock_server_how_to.html"])));
    assert!(!is_bds_root(&names(&["worlds"])));
}

#[test]
fn work_path_type_prefers_level() {
    let level = names(&["levelname.txt", "db", "level.dat", "level.dat_old"]);
    assert_eq!(get_work_path_type(&level).unwrap(), WorkDirType::Level);
    let root = names(&["worlds", "bedrock_server_how_to.html"]);
    assert_eq!(get_work_path_type(&root).unwrap(), WorkDirType::Bds);
    assert!(get_work_path_type(&names(&["random.txt"])).is_err());
}
