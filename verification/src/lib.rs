//! A Hearthstone Arena companion: log reading, deck analysis and draft support.

pub mod analysis;
pub mod capture_laws;
pub mod capture_workers;
pub mod card_data;
pub mod card_laws;
pub mod checkpoint;
pub mod client;
pub mod client_laws;
pub mod composite;
pub mod config_laws;
pub mod daemon;
pub mod deck_laws;
pub mod deck_profile;
pub mod draft_view;
pub mod facts_laws;
pub mod fingerprint;
pub mod following;
pub mod frame;
pub mod import_laws;
pub mod imports;
pub mod ini;
pub mod live;
pub mod log_component;
pub mod log_config;
pub mod log_parser;
pub mod log_reader;
pub mod merge;
pub mod message_laws;
pub mod observer;
pub mod observer_laws;
pub mod offer;
pub mod offer_laws;
pub mod offer_ocr;
pub mod option_laws;
pub mod options;
pub mod overlay;
pub mod paths;
pub mod pattern;
pub mod popup;
pub mod ratings;
pub mod recognition;
pub mod rules;
pub mod score_laws;
pub mod scoring;
pub mod session;
pub mod setup_laws;
pub mod sidebar;
pub mod sidebar_laws;
pub mod single;
pub mod snapshot;
pub mod state;
pub mod stream_laws;
pub mod tail_attach;
pub mod tail_laws;
pub mod tailer;
pub mod text;
pub mod text_map;
pub mod view_laws;
pub mod vision_laws;
