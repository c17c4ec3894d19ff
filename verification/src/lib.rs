//! Reading and writing of pack archives and of the structured records stored in them.

pub mod background;
pub mod binary;
pub mod error;
pub mod fastbin;
pub mod icons;
pub mod pack;
pub mod schema;
pub mod table;
pub mod search;
pub mod text;
pub mod uic;
pub mod utils;
