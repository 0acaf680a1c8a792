//! A news-aggregation core: feed scheduling, per-feed fetch rounds, entry
//! normalization, multi-stage deduplication, translation-provider state and
//! the store rules that tie them together.
pub mod charops;
pub mod config;
pub mod dedup;
pub mod engine;
pub mod feedio;
pub mod fetchround;
pub mod html;
pub mod langrules;
pub mod llmproto;
pub mod model;
pub mod pipeline;
pub mod store;
pub mod text;
pub mod urlnorm;
