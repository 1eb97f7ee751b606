//! Named ASCII bytes used by the parser and the payload builders.

use vstd::prelude::*;

verus! {

pub const LF: u8 = 10;

pub const CR: u8 = 13;

pub const SPACE: u8 = 32;

pub const HASH: u8 = 35;

pub const QUOTE: u8 = 34;

pub const COMMA: u8 = 44;

pub const DOT: u8 = 46;

pub const EQUALS: u8 = 61;

pub const LBRACE: u8 = 123;

pub const RBRACE: u8 = 125;

pub const PLUS: u8 = 43;

pub const MINUS: u8 = 45;

pub const BACKSLASH: u8 = 92;

} // verus!
