//! A style-cascade resolver and block-level box layout engine.
//!
//! From a markup tree and a stylesheet, the crate computes a tree of
//! absolutely positioned rectangular boxes: selectors are matched and
//! ranked by specificity, declarations are cascaded into per-element
//! property maps, a box tree is synthesized (with anonymous blocks to
//! host inline content), and block geometry is resolved top-down for
//! widths and positions, bottom-up for heights.

pub mod css;
pub mod dom;
pub mod layout;
pub mod parser;
pub mod strutil;
pub mod style;
