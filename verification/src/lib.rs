//! Verified core of a document translation robot driven by an LLM.
use vstd::prelude::*;

pub mod strutil;
pub mod config;
pub mod settings;
pub mod route;
pub mod llm;
pub mod progress;
pub mod tagged;
pub mod html;
pub mod markdown;
pub mod text;
pub mod toc;
pub mod book;
pub mod mdpass;
pub mod htmlpass;

verus! {

} // verus!
