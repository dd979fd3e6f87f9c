//! Vector icon compilation: an exact geometric model of icons, a checked reader of a small
//! subset of vector markup, and the emitter of constant declarations for the icon geometry.
pub mod number;
pub mod shape;
pub mod markup;
pub mod parse;
pub mod emit;
pub mod catalog;
