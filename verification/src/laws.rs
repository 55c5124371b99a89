//! What the library does, in the fields, bytes and numbers of what goes in and what comes out.
//!
//! The laws here speak of results alone: where a byte stands, which number it stands for, which
//! range is registered, which page is dropped. Most are about what one operation returns for what
//! it is given, or how the results of two calls relate.

pub mod calls;
pub mod conversations;
pub mod drivers;
pub mod frames;
pub mod handoffs;
pub mod operations;
pub mod pages;
pub mod sessions;
pub mod steps;
pub mod texts;
