use tifari::{
    AddTagsRequest, ErrorResponse, Image, RemoveTagsRequest, Tag, TagQueueSizeResponse,
    TagWithUsage,
};

#[test]
fn tag_record_roundtrip() {
    let t = Tag::new(7, "cat".to_string());
    assert_eq!(t.get_id(), 7);
    assert_eq!(t.get_name(), "cat");
}

#[test]
fn tag_with_usage_record_roundtrip() {
    let t = TagWithUsage::new(3, "dog".to_string(), 11);
    assert_eq!(t.get_id(), 3);
    assert_eq!(t.get_name(), "dog");
    assert_eq!(t.get_times_used(), 11);
}

#[test]
fn image_record_roundtrip() {
    let tags = vec![Tag::new(1, "a".to_string()), Tag::new(2, "b".to_string())];
    let img = Image::new(5, "x.png".to_string(), 1234, tags);
    assert_eq!(img.get_id(), 5);
    assert_eq!(img.get_path(), "x.png");
    assert_eq!(img.get_created_at_time(), 1234);
    assert_eq!(img.get_tags().len(), 2);
    assert_eq!(img.get_tags()[1].get_name(), "b");

    let bare = Image::new_no_tags(6, "y.png".to_string(), 99);
    assert_eq!(bare.get_id(), 6);
    assert_eq!(bare.get_path(), "y.png");
    assert_eq!(bare.get_created_at_time(), 99);
    assert_eq!(bare.get_tags().len(), 0);
}

#[test]
fn error_response_record_roundtrip() {
    let e = ErrorResponse::new(500, "boom".to_string());
    assert_eq!(e.get_status(), 500);
    assert_eq!(e.get_message(), "boom");
}

#[test]
fn request_records_roundtrip() {
    let add = AddTagsRequest::new(vec!["cat".to_string()], vec![1, 2]);
    assert_eq!(add.get_tags(), &vec!["cat".to_string()]);
    assert_eq!(add.get_image_ids(), &vec![1, 2]);

    let rem = RemoveTagsRequest::new(vec![9], vec![3]);
    assert_eq!(rem.get_tag_ids(), &vec![9]);
    assert_eq!(rem.get_image_ids(), &vec![3]);

    let size = TagQueueSizeResponse::new(42);
    assert_eq!(size.get_tag_queue_size(), 42);
}
