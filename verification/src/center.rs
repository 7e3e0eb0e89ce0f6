//! Centring a block of text in the terminal.

use vstd::prelude::*;
use vstd::string::StrSliceExecFns;
use crate::frame::chars_of;

verus! {

/// Where the top left corner of a centred block goes: rows from the top, columns
/// from the left.
#[derive(Debug, Clone, Copy, PartialEq, Eq, Structural)]
pub struct CenteringOffsets {
    pub top: u16,
    pub left: u16,
}

impl Default for CenteringOffsets {
    fn default() -> (offsets: Self)
        ensures
            offsets == (CenteringOffsets { top: 0, left: 0 }),
    {
        CenteringOffsets { top: 0, left: 0 }
    }
}

/// Whether a character is an ASCII letter: a letter ends an escape sequence.
pub open spec fn is_ascii_letter(ch: char) -> bool {
    ('a' <= ch && ch <= 'z') || ('A' <= ch && ch <= 'Z')
}

/// What is left of `chars` from place `i` on, once the escape sequences are taken
/// out, for a scan that is inside a sequence at `i` or is not.
///
/// An escape character with an opening bracket behind it opens a sequence, inside
/// another sequence as well as outside. Inside a sequence every other character
/// is dropped, and the first letter among them ends the sequence. Outside, every
/// other character is kept.
pub open spec fn strip_from(chars: Seq<char>, i: int, in_escape: bool) -> Seq<char>
    decreases chars.len() - i,
{
    if i < 0 || i >= chars.len() {
        Seq::empty()
    } else if chars[i] == '\x1b' && i + 1 < chars.len() && chars[i + 1] == '[' {
        strip_from(chars, i + 2, true)
    } else if in_escape {
        strip_from(chars, i + 1, !is_ascii_letter(chars[i]))
    } else {
        seq![chars[i]] + strip_from(chars, i + 1, false)
    }
}

/// A text without its escape sequences.
pub open spec fn stripped(chars: Seq<char>) -> Seq<char> {
    strip_from(chars, 0, false)
}

/// Stripping never lengthens a text.
pub proof fn lemma_strip_shortens(chars: Seq<char>, i: int, in_escape: bool)
    requires
        0 <= i <= chars.len(),
    ensures
        strip_from(chars, i, in_escape).len() <= chars.len() - i,
    decreases chars.len() - i,
{
    if i < chars.len() {
        if chars[i] == '\x1b' && i + 1 < chars.len() && chars[i + 1] == '[' {
            lemma_strip_shortens(chars, i + 2, true);
        } else if in_escape {
            lemma_strip_shortens(chars, i + 1, !is_ascii_letter(chars[i]));
        } else {
            lemma_strip_shortens(chars, i + 1, false);
        }
    }
}

/// A text without an escape character is left as it is.
pub proof fn lemma_strip_plain(chars: Seq<char>, i: int)
    requires
        0 <= i <= chars.len(),
        forall|k: int| 0 <= k < chars.len() ==> chars[k] != '\x1b',
    ensures
        strip_from(chars, i, false) == chars.subrange(i, chars.len() as int),
    decreases chars.len() - i,
{
    if i < chars.len() {
        lemma_strip_plain(chars, i + 1);
        assert(seq![chars[i]] + chars.subrange(i + 1, chars.len() as int) =~= chars.subrange(
            i,
            chars.len() as int,
        ));
    } else {
        assert(chars.subrange(i, chars.len() as int) =~= Seq::<char>::empty());
    }
}

/// Takes the terminal escape sequences out of a text: from an escape character
/// with an opening bracket behind it up to the next ASCII letter.
pub fn strip_ansi_codes(input: &str) -> (result: String)
    ensures
        result@ == stripped(input@),
{
    let chars = chars_of(input);
    let mut result = String::new();
    let mut in_escape = false;
    let mut i: usize = 0;
    while i < chars.len()
        invariant
            i <= chars@.len(),
            chars@ == input@,
            result@ + strip_from(chars@, i as int, in_escape) == stripped(chars@),
        decreases chars@.len() - i,
    {
        let ch = chars[i];
        if ch == '\x1b' && i + 1 < chars.len() && chars[i + 1] == '[' {
            in_escape = true;
            i += 2;
        } else if in_escape {
            if (ch >= 'a' && ch <= 'z') || (ch >= 'A' && ch <= 'Z') {
                in_escape = false;
            }
            i += 1;
        } else {
            let ghost kept = result@;
            result.push(ch);
            proof {
                assert(kept.push(ch) + strip_from(chars@, i + 1, false) =~= kept + (seq![ch]
                    + strip_from(chars@, i + 1, false)));
            }
            i += 1;
        }
    }
    proof {
        assert(result@ + Seq::<char>::empty() =~= result@);
    }
    result
}

/// The length of the longest of the lines, each without its escape sequences.
pub open spec fn widest_line(lines: Seq<String>) -> int
    decreases lines.len(),
{
    if lines.len() == 0 {
        0
    } else {
        let rest = widest_line(lines.drop_last());
        let last = stripped(lines.last()@).len() as int;
        if last > rest {
            last
        } else {
            rest
        }
    }
}

/// Half of the room that `content` leaves in `space`, rounded down, and 0 where it
/// leaves none.
pub open spec fn centered(space: int, content: int) -> int {
    if space > content {
        (space - content) / 2
    } else {
        0
    }
}

/// The offsets that centre a block of lines in a terminal of the given size. The
/// block is as high as it has lines and as wide as its longest line without escape
/// sequences; both are counted in 16 bits, that is modulo 65536. Without lines both
/// offsets are 0.
pub fn calculate_centering_offsets(
    input_lines: &[String],
    terminal_width: u16,
    terminal_height: u16,
) -> (offsets: CenteringOffsets)
    ensures
        input_lines@.len() == 0 ==> offsets == (CenteringOffsets { top: 0, left: 0 }),
        input_lines@.len() > 0 ==> offsets.top as int == centered(
            terminal_height as int,
            (input_lines@.len() % 0x1_0000) as int,
        ) && offsets.left as int == centered(
            terminal_width as int,
            widest_line(input_lines@) % 0x1_0000,
        ),
{
    if input_lines.len() == 0 {
        return CenteringOffsets::default();
    }
    let mut widest: usize = 0;
    let mut i: usize = 0;
    proof {
        assert(input_lines@.take(0) =~= Seq::<String>::empty());
    }
    while i < input_lines.len()
        invariant
            i <= input_lines@.len(),
            widest as int == widest_line(input_lines@.take(i as int)),
        decreases input_lines@.len() - i,
    {
        proof {
            assert(input_lines@.take(i + 1).drop_last() =~= input_lines@.take(i as int));
        }
        let plain = strip_ansi_codes(input_lines[i].as_str());
        let length = plain.as_str().unicode_len();
        if length > widest {
            widest = length;
        }
        i += 1;
    }
    proof {
        assert(input_lines@.take(i as int) =~= input_lines@);
    }
    let content_height: u16 = (input_lines.len() % 0x1_0000) as u16;
    let max_width: u16 = (widest % 0x1_0000) as u16;
    let top: u16 = if terminal_height > content_height {
        (terminal_height - content_height) / 2
    } else {
        0
    };
    let left: u16 = if terminal_width > max_width {
        (terminal_width - max_width) / 2
    } else {
        0
    };
    CenteringOffsets { top, left }
}

} // verus!
