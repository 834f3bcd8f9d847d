use vstd::prelude::*;

pub mod text;
pub mod paths;
pub mod model;
pub mod archive;
pub mod zipfile;
pub mod logs;
pub mod profiles;
pub mod mods;
pub mod diagnostics;
pub mod nexus;
pub mod oauth;
pub mod game;
pub mod scan;
pub mod modpack;
pub mod report;
pub mod release;

verus! {

} // verus!
