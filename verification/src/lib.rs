//! A batch transform for order events.
//!
//! The crate turns three comma-separated tables (an event feed, a product
//! table and a country table) into one summary table:
//!
//! 1. [`dims`] reads the product and the country table;
//! 2. [`events`] reads the feed, accepts or drops each row and keeps of
//!    the rows with one event identifier the survivor;
//! 3. [`enrich`] derives a record with money amounts and buckets from
//!    each survivor, and [`spend`] sums what each customer spent on each
//!    day;
//! 4. [`aggregate`] groups the records by a six-part key and sums each
//!    group;
//! 5. [`report`] writes the groups as text.
//!
//! [`pipeline::transform`] runs the five steps. [`text`], [`rows`] and
//! [`arith`] hold what the steps share: bytes as text, lines and fields,
//! clamping and rounded division.
//!
//! Text is handled as bytes throughout. Every function is total on the
//! inputs its contract admits, and its result is stated over a
//! mathematical model of its arguments.

pub mod aggregate;
pub mod arith;
pub mod assoc;
pub mod dims;
pub mod enrich;
pub mod events;
pub mod model;
pub mod pipeline;
pub mod reorder;
pub mod report;
pub mod rows;
pub mod spend;
pub mod text;

pub use crate::arith::{clamp_i64, round_div};
pub use crate::dims::{load_country_dim, load_product_dim};
pub use crate::enrich::{order_size_bucket, parse_event_hour, time_bucket_from_hour};
pub use crate::pipeline::{transform, TransformError, TransformOutput};
pub use crate::rows::split_csv_line;
pub use crate::text::parse_i64;
