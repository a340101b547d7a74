//! The data layer: values, rows, the dataset with its column indices, the
//! loaders and the filter.

pub mod csv_loader;
pub mod failure;
pub mod filter;
pub mod json_loader;
pub mod loader;
pub mod model;
pub mod parquet_loader;
pub mod text_map;
pub mod value;
pub mod value_set;
pub mod widen;
