//! Turning a chat completions request into one prompt for the back end.
//!
//! A conversation of several turns becomes one prompt with role tags. The
//! tools are described in words, to the system and in the open `<think>` block
//! after the last `<｜Assistant｜>` tag.

pub mod normalize;
pub mod prompt;
pub mod resolver;
pub mod tools;
