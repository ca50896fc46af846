//! The decisions of a porch camera: which frames are kept, how they are named,
//! listed, labelled and served, and when the camera runs.

pub mod api;
pub mod api_laws;
pub mod calendar;
pub mod camera;
pub mod controller;
pub mod files;
pub mod inference;
pub mod listing;
pub mod listing_laws;
pub mod pipeline;
pub mod store;
pub mod store_laws;
pub mod text;
pub mod time;
pub mod trace;
pub mod training;
pub mod training_laws;
pub mod webserver;
pub mod writing;
