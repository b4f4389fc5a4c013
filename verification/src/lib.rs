use vstd::prelude::*;

pub mod account;
pub mod api_json;
pub mod config;
pub mod listing;
pub mod markup;
pub mod migration;
pub mod model;
pub mod narou;
pub mod narou_doc;
pub mod pages;
pub mod pdf;
pub mod paths;
pub mod pixiv;
pub mod pixiv_client;
pub mod pixiv_works;
pub mod pixiv_update;
pub mod responses;
pub mod rotation;
pub mod site_index;
pub mod sites;
pub mod tasks;
pub mod text;
pub mod followed;
pub mod image_store;
pub mod json;
pub mod legacy;
pub mod work_pages;
pub mod work_key;

verus! {
} // verus!
