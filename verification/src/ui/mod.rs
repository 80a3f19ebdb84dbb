//! The interactive front end, apart from the terminal itself.

pub mod actions;
pub mod attribution;
pub mod attribution_laws;
pub mod churn;
pub mod config;
pub mod console;
pub mod failed_tests;
pub mod failure_keys;
pub mod failure_panes;
pub mod failure_summary;
pub mod filter;
pub mod filter_meaning;
pub mod frame;
pub mod key_laws;
pub mod keys;
pub mod launch;
pub mod layout;
pub mod leaf_results;
pub mod message_laws;
pub mod mouse;
pub mod outcome_laws;
pub mod output;
pub mod overlay_keys;
pub mod place_laws;
pub mod preset_laws;
pub mod presets;
pub mod press_laws;
pub mod rediscovery;
pub mod rows;
pub mod run_events;
pub mod run_laws;
pub mod run_results;
pub mod screen_laws;
pub mod search;
pub mod search_laws;
pub mod session;
pub mod settings_keys;
pub mod startup;
pub mod tally;
pub mod tree_keys;
