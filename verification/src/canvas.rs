//! The infinite plane: its cards, what they are called, and what the canvas does.
pub mod actions;
pub mod choice_laws;
pub mod closing_laws;
pub mod deed_laws;
pub mod doc;
pub mod doc_laws;
pub mod drag;
pub mod event_laws;
pub mod face;
pub mod face_laws;
pub mod find_laws;
pub mod frame;
pub mod host;
pub mod keep_laws;
pub mod live_laws;
pub mod moves;
pub mod msg;
pub mod plane_laws;
pub mod reconcile_laws;
pub mod screen_laws;
pub mod screens;
pub mod search;
pub mod search_laws;
pub mod settle_laws;
pub mod shells;
pub mod stage_laws;
pub mod stream_laws;
pub mod streams;
pub mod terms;
pub mod title_laws;
pub mod titles;
pub mod view;
