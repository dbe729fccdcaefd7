pub mod error;
pub mod text;
pub mod byte_order;
pub mod file_manipulator;
pub mod framing;
pub mod collectible_database;
pub mod dct;
pub mod zlib;
pub mod packfile;
pub mod cursor_laws;
pub mod scene_id;
pub mod string_table;
pub mod scene_value;
pub mod scene_file;
pub mod scene_merge;
pub mod format_laws;
pub mod id_laws;
pub mod catalog_laws;
pub mod pool_laws;
pub mod dct_laws;
pub mod packfile_laws;
