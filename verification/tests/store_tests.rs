use tifari::TifariDb;

#[test]
fn db_image_insertion() {
    let mut db = TifariDb::new_in_memory().unwrap();
    db.setup_tables().unwrap();
    db.try_insert_image(&"test/img.png").unwrap();
    assert!(db.try_insert_image(&"test/img.png").is_err());
}

#[test]
fn db_image_erase() {
    let mut db = TifariDb::new_in_memory().unwrap();
    db.setup_tables().unwrap();
    let img = "test/img.png";

    assert!(db.erase_image(&img).is_err());

    db.try_insert_image(&img).unwrap();
    db.erase_image(&img).unwrap();
}

#[test]
fn db_image_tag() {
    let mut db = TifariDb::new_in_memory().unwrap();
    db.setup_tables().unwrap();
    let img = "test/img.png";

    let tag1 = "tag_1";
    let tag2 = "tag_2";

    assert!(db.give_tag(1, &tag1).is_err());
    assert!(db.remove_tag(1, 1).is_err());
    assert!(db.give_tag(1, &tag2).is_err());
    assert!(db.remove_tag(1, 2).is_err());

    let img_id = db.try_insert_image(&img).unwrap();
    let tag1_id = db.give_tag(img_id, &tag1).unwrap();

    assert!(db.give_tag(img_id, &tag1).is_err());
    assert!(db.remove_tag(img_id, 2).is_err());

    db.remove_tag(img_id, tag1_id).unwrap();

    assert!(db.remove_tag(img_id, tag1_id).is_err());

    let tag2_id = db.give_tag(img_id, &tag2).unwrap();
    assert!(db.remove_tag(img_id, tag1_id).is_err());
    db.remove_tag(img_id, tag2_id).unwrap()
}

#[test]
fn db_consistent_tag_ids() {
    let mut db = TifariDb::new_in_memory().unwrap();
    db.setup_tables().unwrap();

    let img1 = "img1";
    let img2 = "img2";
    let img3 = "img3";
    let img4 = "img4";

    let tag1 = "tag1";
    let tag2 = "tag2";

    let img1_id = db.try_insert_image(&img1).unwrap();
    let img2_id = db.try_insert_image(&img2).unwrap();

    let tag1_id = db.give_tag(img1_id, &tag1).unwrap();
    assert_eq!(db.give_tag(img2_id, &tag1).unwrap(), tag1_id);

    let tag2_id = db.give_tag(img1_id, &tag2).unwrap();
    assert_eq!(db.give_tag(img2_id, &tag2).unwrap(), tag2_id);

    assert_ne!(tag1_id, tag2_id);

    let img3_id = db.try_insert_image(&img3).unwrap();
    let img4_id = db.try_insert_image(&img4).unwrap();

    let tag1_id2 = db.give_tag(img3_id, &tag1).unwrap();
    assert_eq!(db.give_tag(img4_id, &tag1).unwrap(), tag1_id2);

    let tag2_id2 = db.give_tag(img3_id, &tag2).unwrap();
    assert_eq!(db.give_tag(img4_id, &tag2).unwrap(), tag2_id2);

    assert_ne!(tag1_id2, tag2_id2);

    assert_eq!(tag1_id, tag1_id2);
    assert_eq!(tag2_id, tag2_id2);
}

#[test]
fn db_duplicate_tags() {
    let mut db = TifariDb::new_in_memory().unwrap();
    db.setup_tables().unwrap();
    let img = "test/img.png";

    let tag1 = "tag_1";

    let img_id = db.try_insert_image(&img).unwrap();
    db.give_tag(img_id, &tag1).unwrap();

    assert!(db.give_tag(img_id, &tag1).is_err());
    assert!(db.give_tag(img_id, &tag1).is_err());
    assert!(db.give_tag(img_id, &tag1).is_err());
}

#[test]
fn db_tag_queue_element_counter() {
    let mut db = TifariDb::new_in_memory().unwrap();
    db.setup_tables().unwrap();

    let img1 = "test/img1.png";
    let img2 = "test/img2.png";

    let tag1 = "tag_1";

    assert_eq!(db.get_num_elements_in_tag_queue().unwrap(), 0);

    db.try_insert_image(&img1).unwrap();
    assert_eq!(db.get_num_elements_in_tag_queue().unwrap(), 1);

    let img2_id = db.try_insert_image(&img2).unwrap();
    assert_eq!(db.get_num_elements_in_tag_queue().unwrap(), 2);

    db.erase_image(&img1).unwrap();
    assert_eq!(db.get_num_elements_in_tag_queue().unwrap(), 1);

    let tag1_id = db.give_tag(img2_id, &tag1).unwrap();
    assert_eq!(db.get_num_elements_in_tag_queue().unwrap(), 0);

    let img1_id = db.try_insert_image(&img1).unwrap();
    assert_eq!(db.get_num_elements_in_tag_queue().unwrap(), 1);

    db.remove_tag(img2_id, tag1_id).unwrap();
    assert_eq!(db.get_num_elements_in_tag_queue().unwrap(), 2);

    db.give_tag(img1_id, &tag1).unwrap();
    assert_eq!(db.get_num_elements_in_tag_queue().unwrap(), 1);

    db.erase_image(&img2).unwrap();
    assert_eq!(db.get_num_elements_in_tag_queue().unwrap(), 0);
}

#[test]
fn db_tag_queue_gets_filled_when_tags_are_removed_from_images() {
    let mut db = TifariDb::new_in_memory().unwrap();
    db.setup_tables().unwrap();

    let img1 = "test/img1.png";
    let img2 = "test/img2.png";

    let tag1 = "tag_1";

    let img1_id = db.try_insert_image(&img1).unwrap();
    let img2_id = db.try_insert_image(&img2).unwrap();

    {
        let queue = db.get_tag_queue().unwrap();

        assert_eq!(queue.len(), 2);

        assert_eq!(queue[0].get_path(), &img2);
        assert_eq!(queue[0].get_id(), img2_id);

        assert_eq!(queue[1].get_path(), &img1);
        assert_eq!(queue[1].get_id(), img1_id);
    }

    let tag1_id = db.give_tag(img2_id, &tag1).unwrap();

    {
        let queue = db.get_tag_queue().unwrap();

        assert_eq!(queue.len(), 1);

        assert_eq!(queue[0].get_path(), &img1);
        assert_eq!(queue[0].get_id(), img1_id);
    }

    assert_eq!(db.give_tag(img1_id, &tag1).unwrap(), tag1_id);
    let queue = db.get_tag_queue().unwrap();
    assert_eq!(queue.len(), 0);

    db.remove_tag(img1_id, tag1_id).unwrap();

    {
        let queue = db.get_tag_queue().unwrap();

        assert_eq!(queue.len(), 1);

        assert_eq!(queue[0].get_path(), &img1);
        assert_eq!(queue[0].get_id(), img1_id);
    }

    assert_eq!(db.give_tag(img1_id, &tag1).unwrap(), tag1_id);
    let queue = db.get_tag_queue().unwrap();
    assert_eq!(queue.len(), 0);

    db.remove_tag(img1_id, tag1_id).unwrap();
    db.remove_tag(img2_id, tag1_id).unwrap();

    {
        let queue = db.get_tag_queue().unwrap();

        assert_eq!(queue.len(), 2);

        assert_eq!(queue[0].get_path(), &img2);
        assert_eq!(queue[0].get_id(), img2_id);

        assert_eq!(queue[1].get_path(), &img1);
        assert_eq!(queue[1].get_id(), img1_id);
    }
}

#[test]
fn db_tag_queue() {
    let mut db = TifariDb::new_in_memory().unwrap();
    db.setup_tables().unwrap();
    let img1 = "test/img1.png";
    let img2 = "test/img2.png";

    let tag1 = "tag_1";

    assert_eq!(db.get_tag_queue().unwrap().len(), 0);

    let img1_id = db.try_insert_image(&img1).unwrap();
    {
        let queue = db.get_tag_queue().unwrap();
        assert_eq!(queue.len(), 1);

        assert_eq!(queue[0].get_path(), &img1);
        assert_eq!(queue[0].get_id(), img1_id);
    }

    let img2_id = db.try_insert_image(&img2).unwrap();
    {
        let queue = db.get_tag_queue().unwrap();
        assert_eq!(queue.len(), 2);

        assert_eq!(queue[0].get_path(), &img2);
        assert_eq!(queue[0].get_id(), img2_id);

        assert_eq!(queue[1].get_path(), &img1);
        assert_eq!(queue[1].get_id(), img1_id);
    }

    db.give_tag(img1_id, &tag1).unwrap();
    {
        let queue = db.get_tag_queue().unwrap();
        assert_eq!(queue.len(), 1);

        assert_eq!(queue[0].get_path(), &img2);
        assert_eq!(queue[0].get_id(), img2_id);
    }

    db.give_tag(img2_id, &tag1).unwrap();
    assert_eq!(db.get_tag_queue().unwrap().len(), 0);
}

#[test]
fn db_search_with_removals() {
    let img1 = "test/img.png";
    let img2 = "test/img2.png";

    let tag1 = "tag1";
    let tag2 = "tag2";
    let tag3 = "tag3";

    let no_tag3 = "-tag3";

    let mut db = TifariDb::new_in_memory().unwrap();
    db.setup_tables().unwrap();

    let img1_id = db.try_insert_image(&img1).unwrap();
    let img2_id = db.try_insert_image(&img2).unwrap();

    let tag1_id = db.give_tag(img1_id, &tag1).unwrap();
    let tag2_id = db.give_tag(img1_id, &tag2).unwrap();
    let tag3_id = db.give_tag(img1_id, &tag3).unwrap();

    assert_eq!(tag1_id, db.give_tag(img2_id, &tag1).unwrap());
    assert_eq!(tag2_id, db.give_tag(img2_id, &tag2).unwrap());
    let _ = tag3_id;

    {
        let results = db.search(&vec![&tag1, &tag2]).unwrap();
        assert_eq!(results.len(), 2);
    }

    {
        let results = db.search(&vec![&tag1, &tag2, &no_tag3]).unwrap();
        assert_eq!(results.len(), 1);

        assert_eq!(results[0].get_path(), &img2);
        assert_eq!(results[0].get_id(), img2_id);
    }
}

#[test]
fn db_disallow_some_tags() {
    let mut db = TifariDb::new_in_memory().unwrap();
    db.setup_tables().unwrap();
    let img = db.try_insert_image("image").unwrap();

    assert!(db.give_tag(img, &"").is_err());
    assert!(db.give_tag(img, &"-").is_err());
    assert!(db.give_tag(img, &"-asdf").is_err());
    assert!(db.give_tag(img, &" -asdf").is_err());
    assert!(db.give_tag(img, &"\n").is_err());
    assert!(db.give_tag(img, &"\r").is_err());
    assert!(db.give_tag(img, &"\t").is_err());
}

#[test]
fn db_search() {
    let img1 = "test/img.png";
    let img2 = "test/img2.png";
    let img3 = "test/img3.png";

    let tag1 = "tag1";
    let tag2 = "tag2";
    let tag3 = "tag3";

    let mut db = TifariDb::new_in_memory().unwrap();
    db.setup_tables().unwrap();

    let img1_id = db.try_insert_image(&img1).unwrap();
    let tag1_id = db.give_tag(img1_id, &tag1).unwrap();
    let tag2_id = db.give_tag(img1_id, &tag2).unwrap();
    assert_ne!(tag1_id, tag2_id);

    {
        let results = db.search(&vec![&tag3, &tag2]).unwrap();
        assert_eq!(results.len(), 0);
    }

    {
        let results = db.search(&vec![&tag1, &tag2]).unwrap();
        assert_eq!(results.len(), 1);

        assert_eq!(results[0].get_path(), &img1);
        assert_eq!(results[0].get_id(), img1_id);
    }

    {
        let results = db.search(&vec![&tag2, &tag1]).unwrap();
        assert_eq!(results.len(), 1);

        assert_eq!(results[0].get_path(), &img1);
        assert_eq!(results[0].get_id(), img1_id);
    }

    let mut db = TifariDb::new_in_memory().unwrap();
    db.setup_tables().unwrap();

    let img1_id = db.try_insert_image(&img1).unwrap();
    let tag1_id = db.give_tag(img1_id, &tag1).unwrap();

    let img2_id = db.try_insert_image(&img2).unwrap();
    let tag2_id = db.give_tag(img2_id, &tag2).unwrap();

    {
        let results = db.search(&vec![&tag1]).unwrap();
        assert_eq!(results.len(), 1);
        assert_eq!(results[0].get_path(), &img1);
        assert_eq!(results[0].get_id(), img1_id);
    }

    {
        let results = db.search(&vec![&tag2]).unwrap();
        assert_eq!(results.len(), 1);
        assert_eq!(results[0].get_path(), &img2);
        assert_eq!(results[0].get_id(), img2_id);
    }

    let img3_id = db.try_insert_image(&img3).unwrap();
    assert_eq!(db.give_tag(img1_id, &tag2).unwrap(), tag2_id);
    db.give_tag(img3_id, &tag3).unwrap();

    {
        let results = db.search(&vec![&tag2]).unwrap();
        assert_eq!(results.len(), 2);

        assert_eq!(results[0].get_path(), &img2);
        assert_eq!(results[0].get_id(), img2_id);

        assert_eq!(results[1].get_path(), &img1);
        assert_eq!(results[1].get_id(), img1_id);
    }

    assert_eq!(db.give_tag(img3_id, &tag1).unwrap(), tag1_id);

    {
        let results = db.search(&vec![&tag1]).unwrap();
        assert_eq!(results.len(), 2);

        assert_eq!(results[0].get_path(), &img3);
        assert_eq!(results[0].get_id(), img3_id);

        assert_eq!(results[1].get_path(), &img1);
        assert_eq!(results[1].get_id(), img1_id);
    }
}
