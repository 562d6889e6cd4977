//! What is read out of a control ROM: the version it names itself by.
use vstd::prelude::*;
use crate::text::{text_of, trim, trimmed};

verus! {

/// How wide the display is.
pub const LCD_WIDTH: usize = 20;

pub open spec fn is_printable(b: u8) -> bool {
    0x20 <= b < 0x7f
}

/// A figure of a version. Unreleased images carry a letter in its place.
pub open spec fn is_figure(b: u8) -> bool {
    0x30 <= b <= 0x39 || b == 0x58 || b == 0x78
}

/// A figure, a point and two more figures.
pub open spec fn version_at(w: Seq<u8>, i: int) -> bool {
    is_figure(w[i]) && w[i + 1] == 0x2e && is_figure(w[i + 2]) && is_figure(w[i + 3])
}

/// A run of characters that carries a version.
pub open spec fn carries_version(w: Seq<u8>) -> bool {
    exists|i: int| 0 <= i && i + 4 <= w.len() && #[trigger] version_at(w, i)
}

/// A line of the display's width that reads as a version.
pub open spec fn version_line_at(image: Seq<u8>, at: int) -> bool {
    let line = image.subrange(at, at + LCD_WIDTH);
    &&& forall|i: int| 0 <= i < LCD_WIDTH ==> is_printable(#[trigger] line[i])
    &&& carries_version(line)
}

/// The characters of printable bytes.
pub open spec fn characters(bytes: Seq<u8>) -> Seq<char> {
    bytes.map_values(|b: u8| b as char)
}

fn figure(b: u8) -> (r: bool)
    ensures
        r == is_figure(b),
{
    (0x30 <= b && b <= 0x39) || b == 0x58 || b == 0x78
}

/// Whether a line of an image reads as a version.
fn reads_as_version(image: &[u8], at: usize) -> (r: bool)
    requires
        at + LCD_WIDTH <= image.len(),
    ensures
        r == version_line_at(image@, at as int),
{
    let ghost line = image@.subrange(at as int, at + LCD_WIDTH);
    let mut i: usize = 0;
    while i < LCD_WIDTH
        invariant
            i <= LCD_WIDTH,
            at + LCD_WIDTH <= image.len(),
            line == image@.subrange(at as int, at + LCD_WIDTH),
            forall|j: int| 0 <= j < i ==> is_printable(#[trigger] line[j]),
        decreases LCD_WIDTH - i,
    {
        let b: u8 = image[at + i];
        assert(line[i as int] == b);
        if !(0x20 <= b && b < 0x7f) {
            return false;
        }
        i += 1;
    }
    let mut k: usize = 0;
    while k + 4 <= LCD_WIDTH
        invariant
            k <= LCD_WIDTH - 3,
            at + LCD_WIDTH <= image.len(),
            line == image@.subrange(at as int, at + LCD_WIDTH),
            forall|j: int| 0 <= j < LCD_WIDTH ==> is_printable(#[trigger] line[j]),
            forall|j: int| 0 <= j < k ==> !#[trigger] version_at(line, j),
        decreases LCD_WIDTH - k,
    {
        assert(line[k as int] == image@[at + k]);
        assert(line[k + 1] == image@[at + k + 1]);
        assert(line[k + 2] == image@[at + k + 2]);
        assert(line[k + 3] == image@[at + k + 3]);
        if figure(image[at + k]) && image[at + k + 1] == 0x2e && figure(image[at + k + 2])
            && figure(image[at + k + 3]) {
            assert(version_at(line, k as int));
            return true;
        }
        k += 1;
    }
    false
}

/// The version and date that a control ROM names itself by: the first line's
/// worth of printable characters that read as a version, without the white
/// space around it. There is none in an image that carries no such line.
pub fn version_line(image: &[u8]) -> (r: Option<String>)
    ensures
        match r {
            Some(line) => exists|at: int|
                0 <= at && at + 20 <= image@.len() && #[trigger] version_line_at(image@, at)
                    && (forall|j: int| 0 <= j < at ==> !#[trigger] version_line_at(image@, j))
                    && line@ == trimmed(characters(image@.subrange(at, at + 20))),
            None => forall|at: int|
                0 <= at && at + 20 <= image@.len() ==> !#[trigger] version_line_at(
                    image@,
                    at,
                ),
        },
{
    if image.len() < LCD_WIDTH {
        return None;
    }
    let mut at: usize = 0;
    while at <= image.len() - LCD_WIDTH
        invariant
            image@.len() >= LCD_WIDTH,
            at <= image@.len() - LCD_WIDTH + 1,
            forall|j: int| 0 <= j < at ==> !#[trigger] version_line_at(image@, j),
        decreases image@.len() - at,
    {
        if reads_as_version(image, at) {
            let ghost line = image@.subrange(at as int, at + LCD_WIDTH);
            let mut chars: Vec<char> = Vec::new();
            let mut i: usize = 0;
            while i < LCD_WIDTH
                invariant
                    i <= LCD_WIDTH,
                    at + LCD_WIDTH <= image.len(),
                    line == image@.subrange(at as int, at + LCD_WIDTH),
                    chars@ =~= characters(line).take(i as int),
                decreases LCD_WIDTH - i,
            {
                assert(line[i as int] == image@[at + i]);
                chars.push(image[at + i] as char);
                i += 1;
            }
            assert(chars@ =~= characters(line));
            let bare = trim(chars.as_slice());
            return Some(text_of(bare.as_slice()));
        }
        at += 1;
    }
    None
}

} // verus!
