//! Application catalogue, window identity, resource accounting and activation
//! policy for a desktop launcher.

pub mod accounting_laws;
pub mod action;
pub mod aggregate;
pub mod bucket_laws;
pub mod catalog;
pub mod catalog_laws;
pub mod change_laws;
pub mod clock;
pub mod counter_laws;
pub mod cursor;
pub mod desktop_entry;
pub mod disk;
pub mod disk_laws;
pub mod energy;
pub mod event_laws;
pub mod events;
pub mod execution;
pub mod execution_laws;
pub mod gpu;
pub mod gpu_laws;
pub mod history;
pub mod history_laws;
pub mod hyprland;
pub mod identity;
pub mod identity_laws;
pub mod key_values;
pub mod launch;
pub mod launch_laws;
pub mod ledger_laws;
pub mod lowercase;
pub mod metrics;
pub mod metrics_laws;
pub mod model;
pub mod network;
pub mod network_laws;
pub mod operations;
pub mod outcome_laws;
pub mod overview;
pub mod platform;
pub mod power_laws;
pub mod process_tree;
pub mod procfs;
pub mod protocol;
pub mod query;
pub mod query_laws;
pub mod reading_laws;
pub mod resources;
pub mod retention_laws;
pub mod sampler;
pub mod sampler_laws;
pub mod search;
pub mod search_laws;
pub mod series;
pub mod series_laws;
pub mod service;
pub mod service_laws;
pub mod settings;
pub mod settings_laws;
pub mod snapshot;
pub mod splitting_laws;
pub mod summary;
pub mod table;
pub mod text;
pub mod text_laws;
pub mod transcript;
pub mod usage_laws;
pub mod value_laws;
pub mod window_laws;
