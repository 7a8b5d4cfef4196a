//! Price-history aggregation core: a cache-aside chain over pluggable data
//! sources, a technical-indicator battery computed from fetched series, and a
//! registry of forecasting strategies.
//!
//! Prices are carried as fixed-point integers: a value of `PRICE_SCALE`
//! stands for one currency unit. Every formula below is stated exactly over
//! that representation.

pub mod clock;
pub mod fake_stock_repository;
pub mod generic_stock_data_dto;
pub mod indicators;
pub mod memory_stock_repository;
pub mod num;
pub mod predicators;
pub mod prediction_point;
pub mod prediction_service;
pub mod provider_clients;
pub mod stock_insights;
pub mod stock_insights_builder;
pub mod stock_manager;
pub mod stock_repository;
pub mod stock_summary;
pub mod summary_index;
pub mod time_series;
pub mod utils;
