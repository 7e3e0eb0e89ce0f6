//! What a renderer hands out for one frame: coloured glyphs and the waits around
//! them.

use vstd::prelude::*;
use vstd::std_specs::iter::IteratorSpec;

verus! {

/// One glyph in one colour.
#[derive(Debug, Clone, Copy, PartialEq, Eq)]
pub struct Cell {
    pub glyph: char,
    pub color: (u8, u8, u8),
}

/// The waits around one frame, in milliseconds, in the order in which they fall:
/// three before the frame is drawn, two after.
#[derive(Debug, Clone, Copy, PartialEq, Eq, Structural)]
pub struct FrameTiming {
    /// Before the first frame of a cycle.
    pub cycle_pre_delay: Option<u64>,
    /// On the frame on which the sweep turns back.
    pub switchback_delay: Option<u64>,
    /// While the sweep is near the place where it is to linger.
    pub pause: Option<u64>,
    /// After every frame.
    pub frame_delay: u64,
    /// After the last frame of a cycle.
    pub cycle_post_delay: Option<u64>,
}

/// `String::push` of the standard library, which appends a character: afterwards
/// the string is what it was with `ch` behind it. This is taken on trust from the
/// method's documentation.
pub assume_specification[ String::push ](s: &mut String, ch: char)
    ensures
        final(s)@ == old(s)@.push(ch),
;

/// The characters of a text, in order.
pub fn chars_of(text: &str) -> (chars: Vec<char>)
    ensures
        chars@ == text@,
{
    broadcast use vstd::string::group_string_axioms;

    let mut chars: Vec<char> = Vec::new();
    let mut rest = text.chars();
    loop
        invariant
            chars@ + rest.remaining() == text@,
            rest.decrease() is Some,
        decreases rest.decrease()->0,
    {
        let ghost before = rest.remaining();
        match rest.next() {
            Some(c) => {
                assert(before == seq![c] + rest.remaining());
                chars.push(c);
            },
            None => {
                assert(chars@ + rest.remaining() == chars@);
                return chars;
            },
        }
    }
}

} // verus!
