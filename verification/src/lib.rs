use vstd::prelude::*;

pub mod api;
pub mod browser;
pub mod conflict;
pub mod display;
pub mod json;
pub mod listing;
pub mod naming;
pub mod number;
pub mod player;
pub mod preview;
pub mod projects;
pub mod selection;
pub mod subtitles;
pub mod text;
pub mod ui;
pub mod upload;
pub mod uri;

verus! {

} // verus!
