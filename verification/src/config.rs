//! The service configuration: addresses, storage location and image root.

use vstd::prelude::*;

verus! {

/// The service configuration. The store and the reconciliation worker
/// treat every field as an opaque string for their lifetime.
#[derive(Debug, Clone)]
pub struct TifariConfig {
    api_address: String,
    frontend_address: String,
    db_root: String,
    image_root: String,
}

/// A partial configuration: each present field replaces the current one.
#[derive(Debug, Clone)]
pub struct ConfigPatch {
    pub api_address: Option<String>,
    pub frontend_address: Option<String>,
    pub db_root: Option<String>,
    pub image_root: Option<String>,
}

impl TifariConfig {
    /// The address the API listens on.
    pub closed spec fn spec_api_address(self) -> Seq<char> {
        self.api_address@
    }

    /// The address the frontend listens on.
    pub closed spec fn spec_frontend_address(self) -> Seq<char> {
        self.frontend_address@
    }

    /// Where the store keeps its data.
    pub closed spec fn spec_db_root(self) -> Seq<char> {
        self.db_root@
    }

    /// The directory whose files the store indexes.
    pub closed spec fn spec_image_root(self) -> Seq<char> {
        self.image_root@
    }

    pub fn new(
        api_address: String,
        frontend_address: String,
        db_root: String,
        image_root: String,
    ) -> (c: TifariConfig)
        ensures
            c.spec_api_address() == api_address@,
            c.spec_frontend_address() == frontend_address@,
            c.spec_db_root() == db_root@,
            c.spec_image_root() == image_root@,
    {
        TifariConfig { api_address, frontend_address, db_root, image_root }
    }

    /// The configuration the service starts with when none is stored.
    pub fn default() -> (c: TifariConfig)
        ensures
            c.spec_api_address() == "127.0.0.1:8001"@,
            c.spec_frontend_address() == "127.0.0.1:3555"@,
            c.spec_db_root() == "image_and_tag.db"@,
            c.spec_image_root() == ""@,
    {
        TifariConfig {
            api_address: "127.0.0.1:8001".to_owned(),
            frontend_address: "127.0.0.1:3555".to_owned(),
            db_root: "image_and_tag.db".to_owned(),
            image_root: "".to_owned(),
        }
    }

    pub fn get_api_address(&self) -> (r: &String)
        ensures
            r@ == self.spec_api_address(),
    {
        &self.api_address
    }

    pub fn get_frontend_address(&self) -> (r: &String)
        ensures
            r@ == self.spec_frontend_address(),
    {
        &self.frontend_address
    }

    pub fn get_root(&self) -> (r: &String)
        ensures
            r@ == self.spec_image_root(),
    {
        &self.image_root
    }

    pub fn get_db_root(&self) -> (r: &String)
        ensures
            r@ == self.spec_db_root(),
    {
        &self.db_root
    }

    /// Applies a partial configuration: each present field replaces the
    /// current value, each absent one is kept.
    pub fn update(&mut self, patch: &ConfigPatch)
        ensures
            final(self).spec_api_address() == (match patch.api_address {
                Some(s) => s@,
                None => old(self).spec_api_address(),
            }),
            final(self).spec_frontend_address() == (match patch.frontend_address {
                Some(s) => s@,
                None => old(self).spec_frontend_address(),
            }),
            final(self).spec_db_root() == (match patch.db_root {
                Some(s) => s@,
                None => old(self).spec_db_root(),
            }),
            final(self).spec_image_root() == (match patch.image_root {
                Some(s) => s@,
                None => old(self).spec_image_root(),
            }),
    {
        match &patch.api_address {
            Some(v) => {
                self.api_address = v.clone();
            },
            None => {},
        }
        match &patch.frontend_address {
            Some(v) => {
                self.frontend_address = v.clone();
            },
            None => {},
        }
        match &patch.db_root {
            Some(v) => {
                self.db_root = v.clone();
            },
            None => {},
        }
        match &patch.image_root {
            Some(v) => {
                self.image_root = v.clone();
            },
            None => {},
        }
    }
}

} // verus!
