//! A small content-rendering library for a community groups page.
//!
//! Groups (name, description, url, tags) are filtered by a whitespace-split
//! search query, their descriptions run through a lightweight inline markup
//! dialect, matches of the search term are highlighted, and the result is
//! substituted into an HTML template in place of a placeholder token.

pub mod filter;
pub mod group;
pub mod highlight;
pub mod markup;
pub mod render;
pub mod text;
