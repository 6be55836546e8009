//! Verified core of a light-novel scraper that packs chapters into EPUB
//! books and stores them in Tencent Cloud object storage.
pub mod text;
pub mod cos;
pub mod archive;
pub mod args;
pub mod img;
pub mod book;
pub mod wenku8;
pub mod bili;
pub mod retry;


