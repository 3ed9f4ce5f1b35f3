//! Plans the download of a novel: what its pages and directories tell about it,
//! and which chapters it has.
//!
//! - [`text`], [`json`], [`pattern`]: texts, JSON documents and regular expressions.
//! - [`search`], [`chapters`], [`page`], [`book_info`]: what documents and pages
//!   hold about a book.
//! - [`web`], [`cover`]: how the site is asked, and what follows each reply.
//! - [`models`], [`plan`], [`web_plan`], [`official_plan`]: the plan itself.

use vstd::prelude::*;

pub mod book_info;
pub mod chapters;
pub mod cover;
pub mod json;
pub mod models;
pub mod official_plan;
pub mod page;
pub mod pattern;
pub mod plan;
pub mod search;
pub mod text;
pub mod web;
pub mod web_plan;

verus! {

} // verus!
