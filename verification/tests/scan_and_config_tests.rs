use tifari::{APIStatusEnum, ConfigPatch, ScanData, TifariConfig, TifariDb};

fn listing(names: &[&str]) -> Vec<String> {
    names.iter().map(|s| s.to_string()).collect()
}

#[test]
fn reload_pass_syncs_store_with_listing() {
    let mut db = TifariDb::new_in_memory().unwrap();
    let mut scan = ScanData::default();
    db.try_insert_image("gone.jpg").unwrap();
    let kept = db.try_insert_image("kept.jpg").unwrap();
    db.give_tag(kept, "keepme").unwrap();

    let disk = listing(&["kept.jpg", "fresh.jpg"]);
    db.reload_root_pass(&disk, &mut scan);

    let mut paths = db.get_all_image_paths();
    paths.sort();
    assert_eq!(paths, vec!["fresh.jpg".to_string(), "kept.jpg".to_string()]);

    // the pass touched one erasure and one insertion
    assert_eq!(scan.get_scan_total(), 2);
    assert_eq!(scan.get_scan_current(), 2);

    // the kept image still carries its tag under its old id
    let img = db.get_image_from_db(kept).unwrap();
    assert_eq!(img.get_path(), "kept.jpg");
    assert_eq!(img.get_tags().len(), 1);
    assert_eq!(img.get_tags()[0].get_name(), "keepme");
}

#[test]
fn reload_pass_twice_changes_nothing() {
    let mut db = TifariDb::new_in_memory().unwrap();
    let mut scan = ScanData::default();
    let disk = listing(&["one.jpg", "two.jpg", "three.jpg"]);

    db.reload_root_pass(&disk, &mut scan);
    let ids_after_first: Vec<i64> =
        db.get_tag_queue().unwrap().iter().map(|i| i.get_id()).collect();
    let paths_after_first = db.get_all_image_paths();

    db.reload_root_pass(&disk, &mut scan);
    let ids_after_second: Vec<i64> =
        db.get_tag_queue().unwrap().iter().map(|i| i.get_id()).collect();
    let paths_after_second = db.get_all_image_paths();

    // the second pass performed no insert or erase: same rows, same ids
    assert_eq!(ids_after_first, ids_after_second);
    assert_eq!(paths_after_first, paths_after_second);
    assert_eq!(scan.get_scan_total(), 0);
    assert_eq!(scan.get_scan_current(), 0);
}

#[test]
fn reload_root_is_single_flight() {
    let mut db = TifariDb::new_in_memory().unwrap();
    let mut scan = ScanData::default();
    scan.set_is_scanning(true);

    let disk = listing(&["new.jpg"]);
    db.reload_root(&disk, &mut scan);

    // a request while a pass runs is a no-op
    assert_eq!(db.get_all_image_paths().len(), 0);
    assert!(scan.is_scanning());

    scan.set_is_scanning(false);
    db.reload_root(&disk, &mut scan);
    assert_eq!(db.get_all_image_paths(), vec!["new.jpg".to_string()]);
    assert!(!scan.is_scanning());
    assert_eq!(scan.get_scan_total(), 0);
    assert_eq!(scan.get_scan_current(), 0);
}

#[test]
fn scan_data_defaults_and_setters() {
    let mut s = ScanData::default();
    assert!(!s.is_scanning());
    assert_eq!(s.get_scan_total(), 0);
    assert_eq!(s.get_scan_current(), 0);

    s.set_is_scanning(true);
    s.set_scan_total(7);
    s.set_scan_current(3);
    assert!(s.is_scanning());
    assert_eq!(s.get_scan_total(), 7);
    assert_eq!(s.get_scan_current(), 3);
}

#[test]
fn config_defaults_and_update() {
    let mut cfg = TifariConfig::default();
    assert_eq!(cfg.get_api_address(), "127.0.0.1:8001");
    assert_eq!(cfg.get_frontend_address(), "127.0.0.1:3555");
    assert_eq!(cfg.get_db_root(), "image_and_tag.db");
    assert_eq!(cfg.get_root(), "");

    let patch = ConfigPatch {
        api_address: None,
        frontend_address: Some("0.0.0.0:4000".to_string()),
        db_root: None,
        image_root: Some("/images".to_string()),
    };
    cfg.update(&patch);
    assert_eq!(cfg.get_api_address(), "127.0.0.1:8001");
    assert_eq!(cfg.get_frontend_address(), "0.0.0.0:4000");
    assert_eq!(cfg.get_db_root(), "image_and_tag.db");
    assert_eq!(cfg.get_root(), "/images");

    let cfg2 = TifariConfig::new(
        "a".to_string(),
        "b".to_string(),
        "c".to_string(),
        "d".to_string(),
    );
    assert_eq!(cfg2.get_api_address(), "a");
    assert_eq!(cfg2.get_frontend_address(), "b");
    assert_eq!(cfg2.get_db_root(), "c");
    assert_eq!(cfg2.get_root(), "d");

    let db = TifariDb::new(&cfg2).unwrap();
    assert_eq!(db.get_all_image_paths().len(), 0);
}

#[test]
fn id_headroom_is_reported() {
    let mut db = TifariDb::new_in_memory().unwrap();
    assert!(db.can_assign_ids(1000));
    // the next id starts at 1, so the headroom is i64::MAX - 1
    assert!(db.can_assign_ids((i64::MAX - 1) as usize));
    assert!(!db.can_assign_ids(i64::MAX as usize));
    db.try_insert_image("a.png").unwrap();
    assert!(!db.can_assign_ids((i64::MAX - 1) as usize));
}

#[test]
fn api_status_codes() {
    assert_eq!(APIStatusEnum::Valid.status_code(), 0);
    assert_eq!(APIStatusEnum::InvalidImageFolder.status_code(), 1);
    assert_eq!(APIStatusEnum::ImageFolderIsNotAFolder.status_code(), 2);
    assert_eq!(APIStatusEnum::Scanning.status_code(), 3);
}
