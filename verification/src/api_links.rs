use vstd::prelude::*;

verus! {

use crate::links::Links;

/// The manifest of the modding API itself: its version text, its download
/// links, and the files the download must contain.
#[derive(Debug)]
pub struct ApiLinks {
    pub version: String,
    pub links: Links,
    pub files: Vec<String>,
}

} // verus!
