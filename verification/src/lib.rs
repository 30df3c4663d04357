//! Execution core of a push/pull dataflow query engine: single-slot ports,
//! the processor event protocol, pipes and pipelines, a cooperative driver,
//! and a two-phase hash aggregation transform.

pub mod aggregate;
pub mod aggregate_function;
pub mod aggregator_final;
pub mod aggregator_params;
pub mod aggregator_partial;
pub mod aggregator_single_key;
pub mod arena;
pub mod bind_context;
pub mod block;
pub mod error;
pub mod executor;
pub mod expression;
pub mod github;
pub mod pipeline;
pub mod pipeline_builder;
pub mod port;
pub mod transform_aggregator;

pub use error::ErrorCode;
