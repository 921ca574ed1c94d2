//! Building blocks of a streaming database, each with its behaviour stated and proved: hash keys
//! for grouping and joining rows, tables of rows over a versioned key-value store, plans that
//! aggregate sorted input, and the configuration file of the metrics server.

// Values of columns, and their byte forms.
pub mod wire;
pub mod decimal;
pub mod float;
pub mod temporal;
pub mod scalar;
pub mod value_encoding;
pub mod value_laws;

// Columns, and hash keys over them.
pub mod array;
pub mod data_chunk;
pub mod hash_code;
pub mod null_bitmap;
pub mod hash_key_serde;
pub mod hash_key;
pub mod hash_key_laws;

// Stores, and tables over them.
pub mod byte_order;
pub mod number_keys;
pub mod ordered;
pub mod ordered_laws;
pub mod store;
pub mod memory;
pub mod keyspace;
pub mod mem_table;
pub mod cell_based_table;
pub mod state_table;
pub mod state_table_laws;

// Plans.
pub mod property;
pub mod expr;
pub mod batch_plan;
pub mod plan_laws;
pub mod plan_display;

// Text and configuration.
pub mod text;
pub mod prometheus;
