//! Sampling of the processor and memory use of one application on an attached
//! device: parsing of the inspection tool's output, the timed sampler, the run
//! window shared by the samplers, summary statistics and the report table.

pub mod aggregator;
pub mod coordinator;
pub mod decimal;
pub mod metric;
pub mod parser;
pub mod report;
pub mod sample;
pub mod sampler;
pub mod series;
pub mod sheet;
pub mod stamp;
pub mod text;
