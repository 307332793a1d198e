//! The plain record types the store hands to its callers.

use vstd::prelude::*;

verus! {

/// A tag: its id and its name.
#[derive(Debug, Clone)]
pub struct Tag {
    id: i64,
    name: String,
}

impl Tag {
    /// The tag's id.
    pub closed spec fn spec_id(self) -> i64 {
        self.id
    }

    /// The tag's name.
    pub closed spec fn spec_name(self) -> Seq<char> {
        self.name@
    }

    pub fn new(id: i64, name: String) -> (t: Tag)
        ensures
            t.spec_id() == id,
            t.spec_name() == name@,
    {
        Tag { id, name }
    }

    pub fn get_id(&self) -> (r: i64)
        ensures
            r == self.spec_id(),
    {
        self.id
    }

    pub fn get_name(&self) -> (r: &String)
        ensures
            r@ == self.spec_name(),
    {
        &self.name
    }
}

/// A tag together with the number of images carrying it.
#[derive(Debug, Clone)]
pub struct TagWithUsage {
    id: i64,
    name: String,
    times_used: i64,
}

impl TagWithUsage {
    /// The tag's id.
    pub closed spec fn spec_id(self) -> i64 {
        self.id
    }

    /// The tag's name.
    pub closed spec fn spec_name(self) -> Seq<char> {
        self.name@
    }

    /// How many images carry the tag.
    pub closed spec fn spec_times_used(self) -> i64 {
        self.times_used
    }

    pub fn new(id: i64, name: String, times_used: i64) -> (t: TagWithUsage)
        ensures
            t.spec_id() == id,
            t.spec_name() == name@,
            t.spec_times_used() == times_used,
    {
        TagWithUsage { id, name, times_used }
    }

    pub fn get_id(&self) -> (r: i64)
        ensures
            r == self.spec_id(),
    {
        self.id
    }

    pub fn get_name(&self) -> (r: &String)
        ensures
            r@ == self.spec_name(),
    {
        &self.name
    }

    pub fn get_times_used(&self) -> (r: i64)
        ensures
            r == self.spec_times_used(),
    {
        self.times_used
    }
}

/// An image: its id, path, creation time and the tags it carries.
#[derive(Debug, Clone)]
pub struct Image {
    id: i64,
    path: String,
    created_at_time: i64,
    tags: Vec<Tag>,
}

impl Image {
    /// The image's id.
    pub closed spec fn spec_id(self) -> i64 {
        self.id
    }

    /// The image's path.
    pub closed spec fn spec_path(self) -> Seq<char> {
        self.path@
    }

    /// The image's creation time, in seconds since the Unix epoch.
    pub closed spec fn spec_created_at_time(self) -> i64 {
        self.created_at_time
    }

    /// The tags the image carries.
    pub closed spec fn spec_tags(self) -> Seq<Tag> {
        self.tags@
    }

    pub fn new(id: i64, path: String, created_at_time: i64, tags: Vec<Tag>) -> (img: Image)
        ensures
            img.spec_id() == id,
            img.spec_path() == path@,
            img.spec_created_at_time() == created_at_time,
            img.spec_tags() == tags@,
    {
        Image { id, path, created_at_time, tags }
    }

    pub fn new_no_tags(id: i64, path: String, created_at_time: i64) -> (img: Image)
        ensures
            img.spec_id() == id,
            img.spec_path() == path@,
            img.spec_created_at_time() == created_at_time,
            img.spec_tags() == Seq::<Tag>::empty(),
    {
        let img = Image { id, path, created_at_time, tags: Vec::new() };
        proof {
            assert(img.spec_tags() =~= Seq::<Tag>::empty());
        }
        img
    }

    pub fn get_id(&self) -> (r: i64)
        ensures
            r == self.spec_id(),
    {
        self.id
    }

    pub fn get_path(&self) -> (r: &String)
        ensures
            r@ == self.spec_path(),
    {
        &self.path
    }

    pub fn get_created_at_time(&self) -> (r: i64)
        ensures
            r == self.spec_created_at_time(),
    {
        self.created_at_time
    }

    pub fn get_tags(&self) -> (r: &Vec<Tag>)
        ensures
            r@ == self.spec_tags(),
    {
        &self.tags
    }
}

/// An error reply: a status code and a message.
#[derive(Debug, Clone)]
pub struct ErrorResponse {
    status: u32,
    message: String,
}

impl ErrorResponse {
    /// The reply's status code.
    pub closed spec fn spec_status(self) -> u32 {
        self.status
    }

    /// The reply's message.
    pub closed spec fn spec_message(self) -> Seq<char> {
        self.message@
    }

    pub fn new(status: u32, message: String) -> (r: ErrorResponse)
        ensures
            r.spec_status() == status,
            r.spec_message() == message@,
    {
        ErrorResponse { status, message }
    }

    pub fn get_status(&self) -> (r: u32)
        ensures
            r == self.spec_status(),
    {
        self.status
    }

    pub fn get_message(&self) -> (r: &String)
        ensures
            r@ == self.spec_message(),
    {
        &self.message
    }
}

/// A request to assign each named tag to each listed image.
#[derive(Debug, Clone)]
pub struct AddTagsRequest {
    tags: Vec<String>,
    image_ids: Vec<i64>,
}

impl AddTagsRequest {
    /// The names of the tags to assign.
    pub closed spec fn spec_tags(self) -> Seq<String> {
        self.tags@
    }

    /// The ids of the images to tag.
    pub closed spec fn spec_image_ids(self) -> Seq<i64> {
        self.image_ids@
    }

    pub fn new(tags: Vec<String>, image_ids: Vec<i64>) -> (r: AddTagsRequest)
        ensures
            r.spec_tags() == tags@,
            r.spec_image_ids() == image_ids@,
    {
        AddTagsRequest { tags, image_ids }
    }

    pub fn get_tags(&self) -> (r: &Vec<String>)
        ensures
            r@ == self.spec_tags(),
    {
        &self.tags
    }

    pub fn get_image_ids(&self) -> (r: &Vec<i64>)
        ensures
            r@ == self.spec_image_ids(),
    {
        &self.image_ids
    }
}

/// A request to remove each listed tag from each listed image.
#[derive(Debug, Clone)]
pub struct RemoveTagsRequest {
    tag_ids: Vec<i64>,
    image_ids: Vec<i64>,
}

impl RemoveTagsRequest {
    /// The ids of the tags to remove.
    pub closed spec fn spec_tag_ids(self) -> Seq<i64> {
        self.tag_ids@
    }

    /// The ids of the images to strip.
    pub closed spec fn spec_image_ids(self) -> Seq<i64> {
        self.image_ids@
    }

    pub fn new(tag_ids: Vec<i64>, image_ids: Vec<i64>) -> (r: RemoveTagsRequest)
        ensures
            r.spec_tag_ids() == tag_ids@,
            r.spec_image_ids() == image_ids@,
    {
        RemoveTagsRequest { tag_ids, image_ids }
    }

    pub fn get_tag_ids(&self) -> (r: &Vec<i64>)
        ensures
            r@ == self.spec_tag_ids(),
    {
        &self.tag_ids
    }

    pub fn get_image_ids(&self) -> (r: &Vec<i64>)
        ensures
            r@ == self.spec_image_ids(),
    {
        &self.image_ids
    }
}

/// A reply carrying the number of images in the tag queue.
#[derive(Debug, Clone)]
pub struct TagQueueSizeResponse {
    tag_queue_size: i64,
}

impl TagQueueSizeResponse {
    /// The number of images in the tag queue.
    pub closed spec fn spec_size(self) -> i64 {
        self.tag_queue_size
    }

    pub fn new(tag_queue_size: i64) -> (r: TagQueueSizeResponse)
        ensures
            r.spec_size() == tag_queue_size,
    {
        TagQueueSizeResponse { tag_queue_size }
    }

    pub fn get_tag_queue_size(&self) -> (r: i64)
        ensures
            r == self.spec_size(),
    {
        self.tag_queue_size
    }
}

/// What the service reports about its own state.
#[derive(Debug, Clone, Copy, PartialEq, Eq, Structural)]
pub enum APIStatusEnum {
    /// The image folder exists and no scan is running.
    Valid,
    /// The configured image folder could not be read.
    InvalidImageFolder,
    /// The configured image folder is not a folder.
    ImageFolderIsNotAFolder,
    /// A reconciliation pass is running.
    Scanning,
}

impl APIStatusEnum {
    /// The numeric code the service reports for this state.
    pub fn status_code(&self) -> (r: i64)
        ensures
            r == match self {
                APIStatusEnum::Valid => 0i64,
                APIStatusEnum::InvalidImageFolder => 1i64,
                APIStatusEnum::ImageFolderIsNotAFolder => 2i64,
                APIStatusEnum::Scanning => 3i64,
            },
    {
        match self {
            APIStatusEnum::Valid => 0,
            APIStatusEnum::InvalidImageFolder => 1,
            APIStatusEnum::ImageFolderIsNotAFolder => 2,
            APIStatusEnum::Scanning => 3,
        }
    }
}

} // verus!
