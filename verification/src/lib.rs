//! Verified core of a JSX-like component macro for Bevy UI trees.
//!
//! The library works on a plain model of a token stream ([`tokens::Token`]):
//! it parses the input of a component definition ([`syntax`]), rewrites
//! `..rest` spreads in the build body ([`spread`]) and produces the full
//! expansion of the definition ([`expand`]). The types that carry spawnable
//! trees ([`element`]) live here too.

pub mod element;
pub mod expand;
pub mod spread;
pub mod syntax;
pub mod tokens;

pub use element::{WithChildren, WithMarker};
pub use expand::jsx_component;
