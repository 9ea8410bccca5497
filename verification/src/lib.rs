//! Builds and checks the lists of calendar image URLs that the preview and
//! overlay checks request, and keeps the decisions of the checking workers.

pub mod text;
pub mod url;
pub mod overlay;
pub mod preview;
pub mod url_handler;
pub mod receiver;
pub mod handler;
pub mod worker;
