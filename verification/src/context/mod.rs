//! The context engine.
pub mod answer_laws;
pub mod apply;
pub mod conclusion_laws;
pub mod content_laws;
pub mod continuation;
pub mod continuation_laws;
pub mod deletion;
pub mod inference;
pub mod inference_laws;
pub mod intent_laws;
pub mod intents;
pub mod package;
pub mod path_laws;
pub mod pin_guard;
pub mod project;
pub mod project_laws;
pub mod prompt_laws;
pub mod rehydrate;
pub mod render;
pub mod render_laws;
pub mod reply_laws;
pub mod resolver;
pub mod resolver_laws;
pub mod sensitivity;
pub mod session_hub;
pub mod session_state;
pub mod slug;
pub mod state_laws;
pub mod temporal;
pub mod temporal_laws;
pub mod title_laws;
pub mod titles;
pub mod trailer;
pub mod trailer_laws;
pub mod wording_laws;
