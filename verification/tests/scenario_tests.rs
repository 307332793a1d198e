use tifari::{BackendError, TifariDb};

#[test]
fn scenario_insert_two_queue_descends() {
    let mut db = TifariDb::new_in_memory().unwrap();
    let a_id = db.try_insert_image("a.jpg").unwrap();
    let b_id = db.try_insert_image("b.jpg").unwrap();

    let queue = db.get_tag_queue().unwrap();
    assert_eq!(queue.len(), 2);
    assert_eq!(queue[0].get_path(), "b.jpg");
    assert_eq!(queue[0].get_id(), b_id);
    assert_eq!(queue[1].get_path(), "a.jpg");
    assert_eq!(queue[1].get_id(), a_id);
}

#[test]
fn scenario_tag_both_with_cat() {
    let mut db = TifariDb::new_in_memory().unwrap();
    let a_id = db.try_insert_image("a.jpg").unwrap();
    let b_id = db.try_insert_image("b.jpg").unwrap();

    let cat_a = db.give_tag(a_id, "cat").unwrap();
    let cat_b = db.give_tag(b_id, "cat").unwrap();
    assert_eq!(cat_a, cat_b);

    assert_eq!(db.get_tag_queue().unwrap().len(), 0);

    let all = db.get_all_tags().unwrap();
    assert_eq!(all.len(), 1);
    assert_eq!(all[0].get_name(), "cat");
    assert_eq!(all[0].get_times_used(), 2);

    let results = db.search_paged(&vec!["cat".to_string()], &vec![], 0, 10).unwrap();
    assert_eq!(results.len(), 2);
    assert_eq!(results[0].get_path(), "b.jpg");
    assert_eq!(results[1].get_path(), "a.jpg");
}

#[test]
fn scenario_remove_tag_requeues() {
    let mut db = TifariDb::new_in_memory().unwrap();
    let a_id = db.try_insert_image("a.jpg").unwrap();
    let b_id = db.try_insert_image("b.jpg").unwrap();
    let cat = db.give_tag(a_id, "cat").unwrap();
    assert_eq!(db.give_tag(b_id, "cat").unwrap(), cat);

    db.remove_tag(b_id, cat).unwrap();

    let queue = db.get_tag_queue().unwrap();
    assert_eq!(queue.len(), 1);
    assert_eq!(queue[0].get_path(), "b.jpg");

    let all = db.get_all_tags().unwrap();
    assert_eq!(all.len(), 1);
    assert_eq!(all[0].get_name(), "cat");
    assert_eq!(all[0].get_times_used(), 1);
}

#[test]
fn scenario_invalid_tag_names_create_nothing() {
    let mut db = TifariDb::new_in_memory().unwrap();
    let x = db.try_insert_image("x.jpg").unwrap();

    assert!(matches!(db.give_tag(x, "-bad"), Err(BackendError::InvalidTagName)));
    assert!(matches!(db.give_tag(x, ""), Err(BackendError::InvalidTagName)));

    assert_eq!(db.get_all_tags().unwrap().len(), 0);
    assert_eq!(db.get_tag_queue().unwrap().len(), 1);
}

#[test]
fn scenario_exclusion_beats_inclusion() {
    let mut db = TifariDb::new_in_memory().unwrap();
    let a_id = db.try_insert_image("a.jpg").unwrap();
    let b_id = db.try_insert_image("b.jpg").unwrap();
    let c_id = db.try_insert_image("c.jpg").unwrap();

    db.give_tag(a_id, "cat").unwrap();
    db.give_tag(b_id, "cat").unwrap();
    db.give_tag(b_id, "dog").unwrap();
    db.give_tag(c_id, "dog").unwrap();

    let results = db
        .search_paged(&vec!["cat".to_string()], &vec!["dog".to_string()], 0, 10)
        .unwrap();
    assert_eq!(results.len(), 1);
    assert_eq!(results[0].get_id(), a_id);
    assert_eq!(results[0].get_path(), "a.jpg");
}

#[test]
fn pagination_pages_agree_with_full_search() {
    let mut db = TifariDb::new_in_memory().unwrap();
    let mut ids = vec![];
    for name in ["p1", "p2", "p3", "p4", "p5"] {
        let id = db.try_insert_image(name).unwrap();
        db.give_tag(id, "all").unwrap();
        ids.push(id);
    }

    let inc = vec!["all".to_string()];
    let exc: Vec<String> = vec![];

    let full = db.search_full(&inc, &exc).unwrap();
    assert_eq!(full.len(), 5);
    // descending by id: p5 first
    assert_eq!(full[0].get_path(), "p5");
    assert_eq!(full[4].get_path(), "p1");

    let page = db.search_paged(&inc, &exc, 1, 2).unwrap();
    assert_eq!(page.len(), 2);
    assert_eq!(page[0].get_id(), full[1].get_id());
    assert_eq!(page[1].get_id(), full[2].get_id());

    let tail = db.search_paged(&inc, &exc, 4, 10).unwrap();
    assert_eq!(tail.len(), 1);
    assert_eq!(tail[0].get_id(), full[4].get_id());

    let beyond = db.search_paged(&inc, &exc, 9, 3).unwrap();
    assert_eq!(beyond.len(), 0);

    let everything = db.search_paged(&inc, &exc, 0, 100).unwrap();
    assert_eq!(everything.len(), 5);
}

#[test]
fn search_of_nothing_matches_nothing() {
    let mut db = TifariDb::new_in_memory().unwrap();
    let id = db.try_insert_image("only.jpg").unwrap();
    db.give_tag(id, "cat").unwrap();

    // an empty inclusion list matches nothing, by design
    assert_eq!(db.search(&vec![]).unwrap().len(), 0);
    assert_eq!(db.search_paged(&vec![], &vec![], 0, 10).unwrap().len(), 0);
    // a query of exclusions alone includes nothing either
    assert_eq!(db.search(&vec![&"-cat"]).unwrap().len(), 0);
    // unknown tag names never match
    assert_eq!(db.search(&vec![&"nope"]).unwrap().len(), 0);
}

#[test]
fn error_variants_are_typed() {
    let mut db = TifariDb::new_in_memory().unwrap();
    let id = db.try_insert_image("one.jpg").unwrap();
    assert!(matches!(db.try_insert_image("one.jpg"), Err(BackendError::DuplicatePath)));

    let tag = db.give_tag(id, "t").unwrap();
    assert!(matches!(db.give_tag(id, "t"), Err(BackendError::DuplicateAssignment)));
    assert!(matches!(db.give_tag(77, "t"), Err(BackendError::NotFound)));
    assert!(matches!(db.remove_tag(id, tag + 1), Err(BackendError::NotFound)));
    assert!(matches!(db.remove_tag(77, tag), Err(BackendError::NotFound)));
    assert!(matches!(db.erase_image("missing.jpg"), Err(BackendError::NotFound)));
    assert!(matches!(db.give_tag(id, " lead"), Err(BackendError::InvalidTagName)));
}

#[test]
fn get_image_from_db_returns_tags() {
    let mut db = TifariDb::new_in_memory().unwrap();
    let id = db.try_insert_image("pic.jpg").unwrap();
    let t1 = db.give_tag(id, "alpha").unwrap();
    let t2 = db.give_tag(id, "beta").unwrap();

    let img = db.get_image_from_db(id).unwrap();
    assert_eq!(img.get_id(), id);
    assert_eq!(img.get_path(), "pic.jpg");
    let tags = img.get_tags();
    assert_eq!(tags.len(), 2);
    assert_eq!(tags[0].get_id(), t1);
    assert_eq!(tags[0].get_name(), "alpha");
    assert_eq!(tags[1].get_id(), t2);
    assert_eq!(tags[1].get_name(), "beta");

    assert!(db.get_image_from_db(id + 5).is_err());
}

#[test]
fn erase_collects_orphan_tags() {
    let mut db = TifariDb::new_in_memory().unwrap();
    let a = db.try_insert_image("a.jpg").unwrap();
    let b = db.try_insert_image("b.jpg").unwrap();
    db.give_tag(a, "shared").unwrap();
    db.give_tag(b, "shared").unwrap();
    db.give_tag(a, "only-on-a").unwrap();

    db.erase_image("a.jpg").unwrap();

    let all = db.get_all_tags().unwrap();
    assert_eq!(all.len(), 1);
    assert_eq!(all[0].get_name(), "shared");
    assert_eq!(all[0].get_times_used(), 1);

    let paths = db.get_all_image_paths();
    assert_eq!(paths, vec!["b.jpg".to_string()]);
}
