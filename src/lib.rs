pub mod config;
pub mod decimal;
pub mod event_history;
pub mod event_model;
pub mod keyboard_input;
pub mod keyboard_model;
pub mod midi_mapping;
pub mod midi_routing;
pub mod midi_translation;
pub mod notation;
