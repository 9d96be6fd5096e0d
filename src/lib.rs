pub mod text;
pub mod front_matter;
pub mod collections;
pub mod template;
pub mod config;
pub mod pipeline;
pub mod round_trip;

pub use collections::{aggregate_collections, is_published, parse_collections, Aggregate};
pub use config::{Config, ConfigError};
pub use front_matter::{get_tags, ErrorKind, Tags};
pub use pipeline::{poem_collections, update_collection_document};
pub use template::{
    create_collection_template, parse_collection_template, update_collection_poems,
    CollectionData,
};
