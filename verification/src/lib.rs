//! Text helpers of a rich-text view: list item markers and the resolution of
//! document image URLs.

pub mod decimal;
pub mod utf8_facts;
pub mod list_marker;
pub mod percent;
pub mod path_text;
pub mod image_url;
