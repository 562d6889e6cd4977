//! The module's display.
use vstd::prelude::*;
use crate::mt32::rom::characters;
use crate::text::{copy_chars, is_white, text_of, white};

verus! {

/// What the module puts in a part's place while the part is sounding: a
/// character that the display is given a shape of its own for.
pub const ACTIVE_PART: char = '\u{1}';

/// A text without the white space behind it.
pub open spec fn trimmed_end(s: Seq<char>) -> Seq<char>
    decreases s.len(),
{
    if s.len() > 0 && is_white(s.last()) {
        trimmed_end(s.drop_last())
    } else {
        s
    }
}

/// What the display reads, from its cells.
pub fn display(cells: &[u8]) -> (r: String)
    ensures
        r@ == trimmed_end(characters(cells@)),
{
    let mut chars: Vec<char> = Vec::new();
    let mut i: usize = 0;
    while i < cells.len()
        invariant
            i <= cells@.len(),
            chars@ =~= characters(cells@).take(i as int),
        decreases cells@.len() - i,
    {
        let c: char = if cells[i] == 1 {
            ACTIVE_PART
        } else {
            cells[i] as char
        };
        chars.push(c);
        i += 1;
    }
    assert(chars@ =~= characters(cells@));
    let mut end: usize = chars.len();
    assert(chars@.take(end as int) =~= chars@);
    while end > 0 && white(chars[end - 1])
        invariant
            end <= chars@.len(),
            trimmed_end(chars@) == trimmed_end(chars@.take(end as int)),
        decreases end,
    {
        assert(chars@.take(end as int).last() == chars@[end - 1]);
        assert(chars@.take(end as int).drop_last() =~= chars@.take(end - 1));
        end -= 1;
    }
    proof {
        if end > 0 {
            assert(chars@.take(end as int).last() == chars@[end - 1]);
        }
    }
    let bare = copy_chars(chars.as_slice(), 0, end);
    assert(bare@ =~= chars@.take(end as int));
    text_of(bare.as_slice())
}

} // verus!
