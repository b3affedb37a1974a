//! Scrape collector for Prometheus targets: configuration, the scrape
//! pipeline, the hot sample buffer with its range queries, the job queue, the
//! target registry, collector status and the decisions behind the HTTP
//! surface. Input, output and floating-point arithmetic stay outside.
pub mod api;
pub mod cli;
pub mod clock;
pub mod cold;
pub mod config;
pub mod control;
pub mod counts;
pub mod cycle;
pub mod exposition;
pub mod labels;
pub mod matrix;
pub mod numbers;
pub mod proxy;
pub mod query;
pub mod query_laws;
pub mod queue;
pub mod queue_laws;
pub mod range;
pub mod scrape;
pub mod scrape_laws;
pub mod selector;
pub mod status;
pub mod target_laws;
pub mod targets;
pub mod text;
pub mod urls;
