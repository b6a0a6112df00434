//! A tree of tagged stones, the masons that work on it, and the frame loop
//! that shows the result.
//!
//! A document is read into a [`stone::StoneTree`], an arena of stones, and a
//! [`tags::TagIndex`] that lists, for every tag, the stones carrying it.
//! Masons ([`mason::StoneMason`]) then work on the tree one after another and
//! each reports the stones it has used up. The reports are united, the
//! stones in the union are taken out, and the tree is compacted
//! ([`removal::apply_removals`]). What is left is drawn by a frame loop whose
//! decisions are made by [`frame::FrameState`]. A mason that draws other
//! files into the document keeps track of them in an
//! [`import::ImportChain`], which refuses a file that draws in itself.
pub mod frame;
pub mod import;
pub mod mason;
pub mod removal;
pub mod stone;
pub mod tags;
