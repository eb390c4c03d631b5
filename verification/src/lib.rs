//! The verified core of Cosmic Comic.
use vstd::prelude::*;

pub mod app;
pub mod archive;
pub mod comic;
pub mod comicinfo;
pub mod comicvine;
pub mod epub;
pub mod imaging;
pub mod laws;
pub mod library;
pub mod metadata;
pub mod number;
pub mod opening;
pub mod order;
pub mod panels;
pub mod paths;
pub mod reading;
pub mod screens;
pub mod settings;
pub mod shelf;
pub mod steps;
pub mod tasks;
pub mod text;
pub mod update;
pub mod weburl;
pub mod window;
pub mod xml;

verus! {

} // verus!
