//! The decisions of a billing service for projects that run on a serverless platform.
//!
//! Organisations hold a credit of tokens. Their projects run as services, whose usage
//! is metered and taken off the credit. When the credit is used up the services are
//! deleted, and when it is filled up they are rolled out again.
//!
//! Nothing here touches the network, the database or the clock. A process that needs
//! them hands out what is to be done as an [`effects::Action`] and goes on with the
//! [`effects::Event`] that answers it.

pub mod accounting;
pub mod billing;
pub mod config;
pub mod credit;
pub mod database;
pub mod effects;
pub mod errors;
pub mod health;
pub mod json;
pub mod metrics;
pub mod org;
pub mod project;
pub mod rollout;
pub mod text;
pub mod webhook;
