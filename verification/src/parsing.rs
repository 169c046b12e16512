//! Support for the external parser layer: the context it threads through
//! parsing, and the translation of line/column positions into character
//! offsets for diagnostics.

use vstd::prelude::*;

verus! {

/// The context the parser layer carries: the source text, kept for error
/// reporting.
#[derive(Debug)]
pub struct ParserContext {
    pub source: String,
}

impl ParserContext {
    /// Wraps the source text.
    pub fn new(source: String) -> (r: ParserContext)
        ensures
            r.source@ == source@,
    {
        ParserContext { source }
    }
}

/// The character offset in `s` reached by scanning for the given
/// one-based line and column, counting positions from `i` with the
/// scanner at line `cur_line`, column position `cur_pos`; the text's
/// length when the position is never reached.
pub open spec fn position_from(
    s: Seq<char>,
    i: int,
    cur_line: int,
    cur_pos: int,
    line: int,
    column: int,
) -> int
    decreases s.len() - i,
{
    if i < 0 || i >= s.len() {
        s.len() as int
    } else if cur_line == line && cur_pos + 1 == column {
        i
    } else if s[i] == '\n' {
        position_from(s, i + 1, cur_line + 1, 0, line, column)
    } else {
        position_from(s, i + 1, cur_line, cur_pos + 1, line, column)
    }
}

/// Translates a one-based line and column into a character offset into
/// the source, realising [`position_from`]; the source length stands for
/// a position that is never reached.
#[verifier::loop_isolation(false)]
pub fn calculate_position(src: &str, line: usize, column: usize) -> (r: usize)
    requires
        src@.len() < usize::MAX,
    ensures
        r as int == position_from(src@, 0, 1, 0, line as int, column as int),
{
    let len = src.unicode_len();
    let mut i: usize = 0;
    let mut current_line: usize = 1;
    let mut current_pos: usize = 0;
    while i < len
        invariant
            i <= len,
            current_line <= 1 + i,
            current_pos <= i,
            position_from(src@, 0, 1, 0, line as int, column as int) == position_from(src@,
                i as int, current_line as int, current_pos as int, line as int, column as int),
        decreases len - i,
    {
        if current_line == line && current_pos + 1 == column {
            return i;
        }
        let c = src.get_char(i);
        if c == '\n' {
            current_line += 1;
            current_pos = 0;
        } else {
            current_pos += 1;
        }
        i += 1;
    }
    len
}

} // verus!
