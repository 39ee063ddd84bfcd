pub mod admin;
pub mod config;
pub mod contact;
pub mod content;
pub mod date;
pub mod feeds;
pub mod frontmatter;
pub mod health;
pub mod models;
pub mod text;
pub mod views;

use vstd::prelude::*;

verus! {

} // verus!
