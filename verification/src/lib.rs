//! Quirks for chat text: each character who speaks in a text has an ordered
//! list of operations that rewrite what the character says, and a handful
//! of commands that become announcements.
//!
//! The module `quirk` holds the characters and their operations and names
//! what most callers need. `characters` tells the lines of a text apart and
//! rewrites the text; `rule` reads the rule file of a character; `jsonc`
//! strips the comments that rule files may hold; `laws` states what holds of
//! all of this together.

pub mod casing;
pub mod chance;
pub mod characters;
pub mod draw;
pub mod json;
pub mod jsonc;
pub mod laws;
pub mod literal;
pub mod pattern;
pub mod quirk;
pub mod rule;
pub mod segment;
pub mod style;
pub mod text;
