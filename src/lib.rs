//! Compile-time module templates over token trees.
//!
//! A template is a module whose items carry slot markers: `#[__CONSTRUCT(pattern as NAME)]`
//! binds a value at the start of a function body, `#[__SUBSTITUTE(NAME)]` puts annotations
//! (and extra parameters) on an item. Declaring the template ([`template::define`]) checks every
//! marker against the slot registry and gives a compile check of the body; each instantiation
//! ([`pair::__monomorphize_mod`]) checks its definitions against the registry in both
//! directions and rewrites every marker, at any depth ([`walker::substitute_attributes`]).
//! The rewrites leave attributes that [`construct::construct`] and
//! [`extend::extend_parameter_list`] apply to a function.
pub mod construct;
pub mod definitions;
pub mod diagnostic;
pub mod extend;
pub mod helper;
pub mod marker;
pub mod names;
pub mod pair;
pub mod registry;
pub mod scaffold;
pub mod shape;
pub mod split;
pub mod template;
pub mod token;
pub mod walker;
