//! Conversion of Gemtext documents into CommonMark-flavoured Markdown.
//!
//! The conversion runs in stages, each a verified function with an exact
//! contract over the models of `model`:
//!
//! - `pipeline::gather_preformatted` drops fence-marker lines and tags every
//!   other line with whether it lies in a preformatted region;
//! - `pipeline::decode_lines` gathers each preformatted run into one line and
//!   classifies the others (`classify::line_of_string`);
//! - `pipeline::blocks_of_lines` groups consecutive links into one block and
//!   stops at the first malformed line, handing back the blocks finished
//!   before it together with the error;
//! - `render` turns blocks into Markdown text.
//!
//! Pending links are flushed only when some are pending: a blank line after
//! no links, or the end of the input, emits no empty links block.
//! `laws` states and proves the general properties of the conversion.

pub mod classify;
pub mod laws;
pub mod model;
pub mod pipeline;
pub mod render;
pub mod text;
