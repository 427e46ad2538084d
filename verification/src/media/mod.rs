//! Making a video out of licensed pictures.
//!
//! Every picture enters through the manifest, which says where it comes from,
//! and admission, which says whether it may be used; only then it stands on the
//! timeline, from which the credits and the render plan are made.

pub mod credits;
pub mod fetch;
pub mod gate;
pub mod openverse;
pub mod pipeline;
pub mod provenance;
pub mod query;
pub mod render;
pub mod video;
