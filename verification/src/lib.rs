//! A pull-based metrics service core: a shared store of named gauges, four
//! kinds of data-source adapters that refresh them from fetched payloads, a
//! bounded-concurrency poll planner, and a text exposition renderer.
pub mod adapter_factory;
pub mod adapters;
pub mod config;
pub mod exposition;
pub mod extraction;
pub mod poller;
pub mod store;
pub mod text;
