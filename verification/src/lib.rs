//! Page storage for a columnar writer, with completed pages in memory up to a shared
//! budget and the overflow in one shared temp file.
//!
//! [`store`], [`budget`] and [`spill`] decide where a page goes; the file itself is
//! opened, written and read by the caller, as their results say. [`columns`] states
//! what holds of all columns together. [`settings`], [`table`], [`text`] and
//! [`progress`] make up the wide, skewed table that exercises the stores, batch by
//! batch. [`blob`] and [`arrays`] hold what is taken on trust of other crates.
pub mod arrays;
pub mod blob;
pub mod budget;
pub mod columns;
pub mod progress;
pub mod settings;
pub mod spill;
pub mod store;
pub mod table;
pub mod text;
