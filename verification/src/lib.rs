//! Game logic of the InfoLit "who is lying" discussion game: actor and
//! deception catalogs, line-up assembly, the per-session transcript and
//! scoring, turn direction and the post-processing of model replies.

pub mod text;
pub mod fragments;
pub mod fragment_laws;
pub mod shared;
pub mod gateway;
pub mod actor;
pub mod deception;
pub mod chance;
pub mod pacing;
pub mod selector;
pub mod prompts;
pub mod session;
pub mod turn_director;
pub mod importer;
pub mod game_laws;
pub mod play;
pub mod debug_log;
