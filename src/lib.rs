//! Core of a chunked comic/manga reader: page segmentation into reading
//! chunks, bounded page caches, the document providers and pagination.

pub mod image;
pub mod chunk;
pub mod segment;
pub mod fifo;
pub mod listing;
pub mod provider;
pub mod metaprovider;
pub mod pager;
pub mod metadata;
pub mod archive;
