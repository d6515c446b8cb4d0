//! Collecting the cover images of a book.io collection: the registry check,
//! the page-by-page traversal of the collection's assets, the selection of
//! each asset's cover image, the capped and deduplicated collection of image
//! locators, and the plan of which images still have to be fetched.
pub mod assets;
pub mod collector;
pub mod dedup;
pub mod download;
pub mod registry;
pub mod text;
