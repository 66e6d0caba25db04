pub mod answer_plan;
pub mod cli;
pub mod clipboard;
pub mod config;
pub mod diff;
pub mod export;
pub mod model;
pub mod paths;
pub mod storage;
pub mod stamp;
pub mod syntax;
pub mod text;
pub mod theme;
pub mod tui;
pub mod util;

use vstd::prelude::*;

verus! {

} // verus!
