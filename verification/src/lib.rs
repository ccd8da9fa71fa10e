//! A transpiler from a line-oriented markup with tab indentation to HTML.
//!
//! A document is read line by line. Its lines form layers, one for each
//! depth of indentation; a layer turns its lines into lists, code fences,
//! raw HTML, headings, images, rules and text, and the text of a line is
//! scanned for emphasis, code spans, links and math. The result is a
//! fragment of HTML for the body of a page.
//!
//! Each function states what it returns as a spec function of its
//! arguments, over sequences of characters; where math is rendered, the
//! places at which the renderer failed are one of them. `laws` holds what
//! follows for every document.

pub mod hot_reload;
pub mod images;
pub mod laws;
pub mod layer;
pub mod math;
pub mod parsing;
pub mod text;
pub mod types;
pub mod utils;
