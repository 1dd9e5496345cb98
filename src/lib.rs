//! Story-graph engine for slide-based interactive fiction: virtual paths,
//! scene descriptions, the player's session, scene layout with hit-testing,
//! and a reachability check over the story tree.

pub mod path;
pub mod keys;
pub mod coords;
pub mod scene;
pub mod game;
pub mod draw;
pub mod check;
pub mod asset;
