//! Text as sequences of characters.
use vstd::prelude::*;

verus! {

/// `std::string::String::push` appends the character.
pub assume_specification[ String::push ](s: &mut String, ch: char)
    ensures
        final(s)@ == old(s)@.push(ch),
;

/// `std::str::from_utf8`. Claimed of it: it succeeds on valid UTF-8 and on
/// nothing else.
#[verifier::external_body]
pub(crate) fn is_utf8(bytes: &[u8]) -> (r: bool)
    ensures
        r == vstd::utf8::valid_utf8(bytes@),
{
    std::str::from_utf8(bytes).is_ok()
}

/// A text in lower case, as the standard library's tables have it.
pub uninterp spec fn lowercase_text(s: Seq<char>) -> Seq<char>;

/// `str::to_lowercase`. Claimed of it: what it returns is a function of the
/// text alone. Which character becomes which is left unsaid.
#[verifier::external_body]
pub(crate) fn lowercase(s: &str) -> (r: String)
    ensures
        r@ == lowercase_text(s@),
{
    s.to_lowercase()
}

/// The characters of a string.
pub fn chars_of(s: &str) -> (r: Vec<char>)
    ensures
        r@ == s@,
{
    let mut r: Vec<char> = Vec::new();
    for c in it: s.chars()
        invariant
            r@ == it.seq().take(it.index() as int),
            it.seq() == s@,
    {
        r.push(c);
        assert(r@ =~= it.seq().take(it.index() as int + 1));
    }
    assert(r@ =~= s@);
    r
}

/// The string of some characters.
pub fn text_of(chars: &[char]) -> (r: String)
    ensures
        r@ == chars@,
{
    let mut r = String::new();
    let mut i: usize = 0;
    while i < chars.len()
        invariant
            i <= chars.len(),
            r@ == chars@.take(i as int),
        decreases chars.len() - i,
    {
        r.push(chars[i]);
        i += 1;
        assert(r@ =~= chars@.take(i as int));
    }
    assert(chars@.take(i as int) =~= chars@);
    r
}

/// Append every character of a slice.
pub fn push_chars(out: &mut Vec<char>, more: &[char])
    ensures
        final(out)@ == old(out)@ + more@,
{
    let mut i: usize = 0;
    assert(out@ =~= old(out)@ + more@.take(0));
    while i < more.len()
        invariant
            i <= more.len(),
            out@ == old(out)@ + more@.take(i as int),
        decreases more.len() - i,
    {
        out.push(more[i]);
        i += 1;
        assert(out@ =~= old(out)@ + more@.take(i as int));
    }
    assert(more@.take(i as int) =~= more@);
}

/// Append every character of a string.
pub fn push_text(out: &mut Vec<char>, more: &str)
    ensures
        final(out)@ == old(out)@ + more@,
{
    let chars = chars_of(more);
    push_chars(out, chars.as_slice());
}

/// A copy of the characters from `from` to `to`.
pub fn copy_chars(chars: &[char], from: usize, to: usize) -> (r: Vec<char>)
    requires
        from <= to <= chars@.len(),
    ensures
        r@ == chars@.subrange(from as int, to as int),
{
    let mut r: Vec<char> = Vec::new();
    let mut i: usize = from;
    while i < to
        invariant
            from <= i <= to <= chars@.len(),
            r@ == chars@.subrange(from as int, i as int),
        decreases to - i,
    {
        r.push(chars[i]);
        i += 1;
        assert(r@ =~= chars@.subrange(from as int, i as int));
    }
    r
}

/// Whether two character sequences are the same.
pub fn same_chars(a: &[char], b: &[char]) -> (r: bool)
    ensures
        r == (a@ == b@),
{
    if a.len() != b.len() {
        return false;
    }
    let mut i: usize = 0;
    while i < a.len()
        invariant
            i <= a.len(),
            a@.len() == b@.len(),
            forall|j: int| 0 <= j < i ==> a@[j] == b@[j],
        decreases a.len() - i,
    {
        if a[i] != b[i] {
            return false;
        }
        i += 1;
    }
    assert(a@ =~= b@);
    true
}

/// Whether some characters spell a given text.
pub fn spells(chars: &[char], text: &str) -> (r: bool)
    ensures
        r == (chars@ == text@),
{
    let wanted = chars_of(text);
    same_chars(chars, wanted.as_slice())
}

/// Unicode's white space.
pub open spec fn is_white(c: char) -> bool {
    let u = c as u32;
    ||| 0x09 <= u <= 0x0d
    ||| u == 0x20
    ||| u == 0x85
    ||| u == 0xa0
    ||| u == 0x1680
    ||| 0x2000 <= u <= 0x200a
    ||| u == 0x2028
    ||| u == 0x2029
    ||| u == 0x202f
    ||| u == 0x205f
    ||| u == 0x3000
}

pub fn white(c: char) -> (r: bool)
    ensures
        r == is_white(c),
{
    let u: u32 = c as u32;
    (u >= 0x09 && u <= 0x0d) || u == 0x20 || u == 0x85 || u == 0xa0 || u == 0x1680 || (u >= 0x2000
        && u <= 0x200a) || u == 0x2028 || u == 0x2029 || u == 0x202f || u == 0x205f || u == 0x3000
}

/// Text without the white space it starts and ends with.
pub open spec fn trimmed(s: Seq<char>) -> Seq<char>
    decreases s.len(),
{
    if s.len() > 0 && is_white(s[0]) {
        trimmed(s.drop_first())
    } else if s.len() > 0 && is_white(s.last()) {
        trimmed(s.drop_last())
    } else {
        s
    }
}

/// Text without the white space it starts and ends with.
pub fn trim(chars: &[char]) -> (r: Vec<char>)
    ensures
        r@ == trimmed(chars@),
{
    let mut from: usize = 0;
    let mut to: usize = chars.len();
    assert(chars@.subrange(0, to as int) =~= chars@);
    while from < to && white(chars[from])
        invariant
            from <= to == chars@.len(),
            trimmed(chars@.subrange(from as int, to as int)) == trimmed(chars@),
        decreases to - from,
    {
        assert(chars@.subrange(from as int, to as int).drop_first() =~= chars@.subrange(
            from + 1,
            to as int,
        ));
        from += 1;
    }
    while from < to && white(chars[to - 1])
        invariant
            from <= to <= chars@.len(),
            from < to ==> !is_white(chars@[from as int]),
            trimmed(chars@.subrange(from as int, to as int)) == trimmed(chars@),
        decreases to - from,
    {
        assert(chars@.subrange(from as int, to as int).drop_last() =~= chars@.subrange(
            from as int,
            to - 1,
        ));
        to -= 1;
    }
    copy_chars(chars, from, to)
}

/// Whether `s` starts with `prefix`.
pub open spec fn has_prefix(s: Seq<char>, prefix: Seq<char>) -> bool {
    prefix.len() <= s.len() && s.take(prefix.len() as int) == prefix
}

pub fn starts_with(chars: &[char], prefix: &str) -> (r: bool)
    ensures
        r == has_prefix(chars@, prefix@),
{
    let wanted = chars_of(prefix);
    if wanted.len() > chars.len() {
        return false;
    }
    let head = copy_chars(chars, 0, wanted.len());
    assert(head@ =~= chars@.take(wanted@.len() as int));
    same_chars(head.as_slice(), wanted.as_slice())
}

/// An ASCII capital as the small letter; any other character as it is.
pub open spec fn ascii_lower(c: char) -> char {
    if 'A' <= c <= 'Z' {
        ((c as u32 + 32) as u8) as char
    } else {
        c
    }
}

pub fn lower(c: char) -> (r: char)
    ensures
        r == ascii_lower(c),
{
    if c >= 'A' && c <= 'Z' {
        ((c as u32 + 32) as u8) as char
    } else {
        c
    }
}

/// Text with its ASCII capitals made small.
pub open spec fn lowered(s: Seq<char>) -> Seq<char> {
    s.map_values(|c: char| ascii_lower(c))
}

pub fn to_lower(chars: &[char]) -> (r: Vec<char>)
    ensures
        r@ == lowered(chars@),
{
    let mut r: Vec<char> = Vec::new();
    let mut i: usize = 0;
    while i < chars.len()
        invariant
            i <= chars.len(),
            r@ == lowered(chars@.take(i as int)),
        decreases chars.len() - i,
    {
        r.push(lower(chars[i]));
        i += 1;
        assert(r@ =~= lowered(chars@.take(i as int)));
    }
    assert(chars@.take(i as int) =~= chars@);
    r
}

/// What a hexadecimal digit counts for.
pub open spec fn hex_value(c: char) -> Option<int> {
    if '0' <= c <= '9' {
        Some(c as int - '0' as int)
    } else if 'a' <= c <= 'f' {
        Some(c as int - 'a' as int + 10)
    } else if 'A' <= c <= 'F' {
        Some(c as int - 'A' as int + 10)
    } else {
        None
    }
}

pub fn hex_digit(c: char) -> (r: Option<u8>)
    ensures
        match r {
            Some(v) => hex_value(c) == Some(v as int) && v < 16,
            None => hex_value(c) is None,
        },
{
    let u: u32 = c as u32;
    if c >= '0' && c <= '9' {
        Some((u - 0x30) as u8)
    } else if c >= 'a' && c <= 'f' {
        Some((u - 0x61 + 10) as u8)
    } else if c >= 'A' && c <= 'F' {
        Some((u - 0x41 + 10) as u8)
    } else {
        None
    }
}

/// A number in decimal digits.
pub open spec fn decimal(n: nat) -> Seq<char>
    decreases n,
{
    let digit = ((48 + n % 10) as u8) as char;
    if n < 10 {
        seq![digit]
    } else {
        decimal(n / 10).push(digit)
    }
}

/// Append a number in decimal digits.
pub fn push_decimal(out: &mut Vec<char>, n: u64)
    ensures
        final(out)@ == old(out)@ + decimal(n as nat),
    decreases n,
{
    if n >= 10 {
        push_decimal(out, n / 10);
    }
    out.push((48 + (n % 10) as u8) as char);
    assert(out@ =~= old(out)@ + decimal(n as nat));
}

/// The bytes of ASCII text.
pub open spec fn ascii_bytes(s: Seq<char>) -> Seq<u8> {
    s.map_values(|c: char| c as u8)
}

/// Nothing but ASCII.
pub open spec fn is_ascii_text(s: Seq<char>) -> bool {
    forall|i: int| 0 <= i < s.len() ==> (#[trigger] s[i] as u32) < 128
}

/// The bytes of ASCII text.
pub fn ascii_of(s: &str) -> (r: Vec<u8>)
    requires
        is_ascii_text(s@),
    ensures
        r@ == ascii_bytes(s@),
{
    let chars = chars_of(s);
    let mut r: Vec<u8> = Vec::new();
    let mut i: usize = 0;
    while i < chars.len()
        invariant
            i <= chars@.len(),
            chars@ == s@,
            is_ascii_text(s@),
            r@ =~= ascii_bytes(s@.take(i as int)),
        decreases chars@.len() - i,
    {
        r.push(chars[i] as u8);
        i += 1;
    }
    assert(s@.take(i as int) =~= s@);
    r
}

/// The digit for a value below sixteen.
pub open spec fn hex_char(v: int) -> char {
    if v < 10 {
        ((48 + v) as u8) as char
    } else {
        ((87 + v) as u8) as char
    }
}

/// A byte in two hexadecimal digits.
pub open spec fn hex_byte(b: u8) -> Seq<char> {
    seq![hex_char(b as int / 16), hex_char(b as int % 16)]
}

/// Append a byte in two hexadecimal digits.
pub fn push_hex(out: &mut Vec<char>, b: u8)
    ensures
        final(out)@ == old(out)@ + hex_byte(b),
{
    let high: u8 = b / 16;
    let low: u8 = b % 16;
    out.push(
        (if high < 10 {
            48 + high
        } else {
            87 + high
        }) as char,
    );
    out.push(
        (if low < 10 {
            48 + low
        } else {
            87 + low
        }) as char,
    );
    assert(out@ =~= old(out)@ + hex_byte(b));
}

/// Whether `a` comes before `b` in dictionary order of their characters.
pub open spec fn before(a: Seq<char>, b: Seq<char>) -> bool
    decreases a.len(),
{
    if b.len() == 0 {
        false
    } else if a.len() == 0 {
        true
    } else if a[0] != b[0] {
        (a[0] as int) < (b[0] as int)
    } else {
        before(a.drop_first(), b.drop_first())
    }
}

fn code_point(c: char) -> (r: u32)
    ensures
        r as int == c as int,
{
    c as u32
}

/// Dictionary order, as a decision.
pub fn comes_before(a: &[char], b: &[char]) -> (r: bool)
    ensures
        r == before(a@, b@),
{
    let mut i: usize = 0;
    assert(a@.skip(0) =~= a@);
    assert(b@.skip(0) =~= b@);
    while i < a.len() && i < b.len()
        invariant
            i <= a@.len(),
            i <= b@.len(),
            before(a@, b@) == before(a@.skip(i as int), b@.skip(i as int)),
        decreases a@.len() - i,
    {
        let ghost x = a@.skip(i as int);
        let ghost y = b@.skip(i as int);
        assert(x[0] == a@[i as int] && y[0] == b@[i as int]);
        if a[i] != b[i] {
            return code_point(a[i]) < code_point(b[i]);
        }
        assert(x.drop_first() =~= a@.skip(i + 1));
        assert(y.drop_first() =~= b@.skip(i + 1));
        i += 1;
    }
    i < b.len()
}

/// Dictionary order is an order: nothing precedes itself, what precedes does
/// not follow, and precedence carries over.
pub proof fn lemma_before_is_an_order(a: Seq<char>, b: Seq<char>, c: Seq<char>)
    ensures
        !before(a, a),
        before(a, b) ==> !before(b, a),
        before(a, b) && before(b, c) ==> before(a, c),
        !before(a, b) && !before(b, a) ==> a == b,
    decreases a.len() + b.len() + c.len(),
{
    if a.len() > 0 {
        lemma_before_is_an_order(
            a.drop_first(),
            if b.len() > 0 {
                b.drop_first()
            } else {
                b
            },
            if c.len() > 0 {
                c.drop_first()
            } else {
                c
            },
        );
        if b.len() > 0 && a[0] == b[0] && a.drop_first() == b.drop_first() {
            assert forall|i: int| 0 <= i < a.len() implies a[i] == b[i] by {
                if i > 0 {
                    assert(a[i] == a.drop_first()[i - 1]);
                    assert(b[i] == b.drop_first()[i - 1]);
                }
            }
            assert(a.len() == a.drop_first().len() + 1);
            assert(b.len() == b.drop_first().len() + 1);
            assert(a =~= b);
        }
    } else if b.len() == 0 {
        assert(a =~= b);
    }
}

/// The pieces of a text between separators.
pub open spec fn split(s: Seq<char>, separator: char) -> Seq<Seq<char>>
    decreases s.len(),
{
    if s.len() == 0 {
        seq![Seq::empty()]
    } else {
        let before = split(s.drop_last(), separator);
        if s.last() == separator {
            before.push(Seq::empty())
        } else {
            before.drop_last().push(before.last().push(s.last()))
        }
    }
}

/// The texts of a list.
pub open spec fn texts(list: Seq<Vec<char>>) -> Seq<Seq<char>> {
    list.map_values(|t: Vec<char>| t@)
}

/// The pieces of a text between separators.
pub fn split_text(text: &[char], separator: char) -> (r: Vec<Vec<char>>)
    ensures
        r@.len() > 0,
        texts(r@) == split(text@, separator),
{
    let mut pieces: Vec<Vec<char>> = Vec::new();
    let mut piece: Vec<char> = Vec::new();
    let mut i: usize = 0;
    proof {
        assert(text@.take(0) =~= Seq::empty());
        assert(texts(pieces@).push(piece@) =~= split(text@.take(0), separator));
    }
    while i < text.len()
        invariant
            i <= text@.len(),
            texts(pieces@).push(piece@) == split(text@.take(i as int), separator),
        decreases text@.len() - i,
    {
        let ghost taken = text@.take(i as int);
        let ghost views = texts(pieces@);
        let ghost piece0 = piece@;
        proof {
            assert(text@.take(i + 1).drop_last() =~= taken);
            assert(text@.take(i + 1).last() == text@[i as int]);
            assert(split(taken, separator).last() == piece0);
            assert(split(taken, separator).drop_last() =~= views);
        }
        if text[i] == separator {
            pieces.push(piece);
            piece = Vec::new();
            assert(texts(pieces@) =~= views.push(piece0));
            assert(piece@ =~= Seq::empty());
        } else {
            piece.push(text[i]);
        }
        i += 1;
    }
    assert(text@.take(i as int) =~= text@);
    let ghost views = texts(pieces@);
    let ghost piece0 = piece@;
    pieces.push(piece);
    assert(texts(pieces@) =~= views.push(piece0));
    pieces
}

/// There is always a piece.
pub proof fn lemma_split_len(s: Seq<char>, separator: char)
    ensures
        split(s, separator).len() > 0,
    decreases s.len(),
{
    if s.len() > 0 {
        lemma_split_len(s.drop_last(), separator);
    }
}

/// A text without separators is one piece.
pub proof fn lemma_split_whole(s: Seq<char>, separator: char)
    requires
        !s.contains(separator),
    ensures
        split(s, separator) == seq![s],
    decreases s.len(),
{
    if s.len() == 0 {
        assert(s =~= Seq::empty());
    } else {
        assert(!s.drop_last().contains(separator)) by {
            if s.drop_last().contains(separator) {
                let i = choose|i: int| 0 <= i < s.len() - 1 && s.drop_last()[i] == separator;
                assert(s[i] == separator);
            }
        }
        lemma_split_whole(s.drop_last(), separator);
        assert(s[s.len() - 1] != separator);
        assert(s.drop_last().push(s.last()) =~= s);
        assert(split(s, separator) =~= seq![s]);
    }
}

/// A separator parts the pieces on both sides of it.
pub proof fn lemma_split_parts(a: Seq<char>, b: Seq<char>, separator: char)
    ensures
        split(a.push(separator) + b, separator) == split(a, separator) + split(b, separator),
    decreases b.len(),
{
    let whole = a.push(separator) + b;
    lemma_split_len(a, separator);
    lemma_split_len(b, separator);
    if b.len() == 0 {
        assert(whole =~= a.push(separator));
        assert(whole.drop_last() =~= a);
        assert(split(whole, separator) =~= split(a, separator) + split(b, separator));
    } else {
        assert(whole.drop_last() =~= a.push(separator) + b.drop_last());
        assert(whole.last() == b.last());
        lemma_split_parts(a, b.drop_last(), separator);
        lemma_split_len(b.drop_last(), separator);
        let left = split(a, separator);
        let right = split(b.drop_last(), separator);
        assert((left + right).last() == right.last());
        assert((left + right).drop_last() =~= left + right.drop_last());
        assert(split(whole, separator) =~= left + split(b, separator));
    }
}

/// No piece holds a separator.
pub proof fn lemma_pieces_are_whole(s: Seq<char>, separator: char)
    ensures
        forall|i: int|
            0 <= i < split(s, separator).len() ==> !(#[trigger] split(s, separator)[i]).contains(
                separator,
            ),
    decreases s.len(),
{
    if s.len() > 0 {
        lemma_pieces_are_whole(s.drop_last(), separator);
        lemma_split_len(s.drop_last(), separator);
        let before = split(s.drop_last(), separator);
        assert forall|i: int| 0 <= i < split(s, separator).len() implies !(#[trigger] split(
            s,
            separator,
        )[i]).contains(separator) by {
            let piece = split(s, separator)[i];
            if i < before.len() - 1 {
                assert(piece == before[i]);
            } else if s.last() == separator {
                if i == before.len() - 1 {
                    assert(piece == before[i]);
                }
            } else {
                assert(!before[before.len() - 1].contains(separator));
                if piece.contains(separator) {
                    let k = choose|k: int| 0 <= k < piece.len() && piece[k] == separator;
                    assert(k < before.last().len() ==> before.last()[k] == separator);
                    assert(k < before.last().len());
                }
            }
        }
    }
}

/// A text occurs in another.
pub open spec fn occurs(s: Seq<char>, part: Seq<char>) -> bool {
    exists|i: int| occurs_at(s, part, i)
}

/// A text occurs in another at a place.
pub open spec fn occurs_at(s: Seq<char>, part: Seq<char>, i: int) -> bool {
    0 <= i && i + part.len() <= s.len() && s.subrange(i, i + part.len()) == part
}

/// Whether a text occurs in another.
pub fn contains(s: &[char], part: &[char]) -> (r: bool)
    ensures
        r == occurs(s@, part@),
{
    if part.len() > s.len() {
        return false;
    }
    let last: usize = s.len() - part.len();
    let mut i: usize = 0;
    while i <= last
        invariant
            part.len() <= s.len(),
            last == s.len() - part.len(),
            i <= last + 1,
            forall|j: int| 0 <= j < i ==> !occurs_at(s@, part@, j),
        decreases last + 1 - i,
    {
        let piece = copy_chars(s, i, i + part.len());
        if same_chars(piece.as_slice(), part) {
            assert(occurs_at(s@, part@, i as int));
            return true;
        }
        if i == last {
            assert forall|j: int| !occurs_at(s@, part@, j) by {}
            return false;
        }
        i += 1;
    }
    false
}

/// The value of a decimal digit.
pub open spec fn digit(c: char) -> Option<nat> {
    if '0' <= c && c <= '9' {
        Some((c as int - '0' as int) as nat)
    } else {
        None
    }
}

/// The number that digits write.
pub open spec fn digits_value(s: Seq<char>) -> Option<nat>
    decreases s.len(),
{
    if s.len() == 0 {
        Some(0)
    } else {
        match (digits_value(s.drop_last()), digit(s.last())) {
            (Some(high), Some(low)) => Some(10 * high + low),
            _ => None,
        }
    }
}

/// The number that a text writes: digits, with a plus sign before them or
/// not, and no more than a limit.
pub open spec fn number_of(s: Seq<char>, limit: nat) -> Option<nat> {
    let digits = if s.len() > 0 && s[0] == '+' {
        s.skip(1)
    } else {
        s
    };
    match digits_value(digits) {
        Some(n) => if digits.len() > 0 && n <= limit {
            Some(n)
        } else {
            None
        },
        None => None,
    }
}

proof fn lemma_digits_grow(s: Seq<char>, n: int)
    requires
        0 <= n <= s.len(),
    ensures
        digits_value(s.take(n)) is None ==> digits_value(s) is None,
        digits_value(s) matches Some(v) ==> digits_value(s.take(n)).unwrap() <= v,
    decreases s.len() - n,
{
    if n < s.len() {
        lemma_digits_grow(s, n + 1);
        assert(s.take(n + 1).drop_last() =~= s.take(n));
    } else {
        assert(s.take(n) =~= s);
    }
}

/// Read a number of at most thirty-two bits.
pub fn parse_u32(s: &str) -> (r: Option<u32>)
    ensures
        match r {
            Some(n) => number_of(s@, u32::MAX as nat) == Some(n as nat),
            None => number_of(s@, u32::MAX as nat) is None,
        },
{
    let chars = chars_of(s);
    let start: usize = if chars.len() > 0 && chars[0] == '+' {
        1
    } else {
        0
    };
    let digits = copy_chars(chars.as_slice(), start, chars.len());
    assert(digits@ =~= (if start == 1 {
        s@.skip(1)
    } else {
        s@
    }));
    if digits.len() == 0 {
        return None;
    }
    let mut value: u32 = 0;
    let mut i: usize = 0;
    assert(digits@.take(0) =~= Seq::empty());
    while i < digits.len()
        invariant
            i <= digits@.len(),
            digits@.len() > 0,
            digits@ == (if s@.len() > 0 && s@[0] == '+' {
                s@.skip(1)
            } else {
                s@
            }),
            digits_value(digits@.take(i as int)) == Some(value as nat),
        decreases digits@.len() - i,
    {
        let c: char = digits[i];
        proof {
            assert(digits@.take(i + 1).drop_last() =~= digits@.take(i as int));
            assert(digits@.take(i + 1).last() == c);
            lemma_digits_grow(digits@, i + 1);
        }
        if c < '0' || c > '9' {
            return None;
        }
        let low: u32 = code_point(c) - code_point('0');
        let wide: u64 = 10 * value as u64 + low as u64;
        if wide > u32::MAX as u64 {
            return None;
        }
        value = wide as u32;
        i += 1;
    }
    assert(digits@.take(i as int) =~= digits@);
    Some(value)
}

/// Trimming takes the white space off both ends and nothing else: what is
/// left begins and ends with something, and comes out of any white space put
/// round it.
pub proof fn law_trimming_takes_the_ends_off(a: Seq<char>, s: Seq<char>, b: Seq<char>)
    requires
        forall|i: int| 0 <= i < a.len() ==> is_white(#[trigger] a[i]),
        forall|i: int| 0 <= i < b.len() ==> is_white(#[trigger] b[i]),
        s.len() > 0 ==> !is_white(s[0]) && !is_white(s.last()),
    ensures
        trimmed(a + s + b) == s,
    decreases a.len() + b.len(),
{
    let all = a + s + b;
    if a.len() > 0 {
        let rest = a.drop_first();
        assert(all[0] == a[0]);
        assert(all.drop_first() =~= rest + s + b);
        assert forall|i: int| 0 <= i < rest.len() implies is_white(#[trigger] rest[i]) by {
            assert(rest[i] == a[i + 1]);
        }
        law_trimming_takes_the_ends_off(rest, s, b);
    } else if b.len() > 0 {
        let rest = b.drop_last();
        assert forall|i: int| 0 <= i < rest.len() implies is_white(#[trigger] rest[i]) by {
            assert(rest[i] == b[i]);
        }
        law_trimming_takes_the_ends_off(a, s, rest);
        assert(all.last() == b.last());
        if s.len() > 0 {
            assert(all[0] == s[0]);
            assert(all.drop_last() =~= a + s + rest);
        } else {
            let tail = b.drop_first();
            assert forall|i: int| 0 <= i < tail.len() implies is_white(#[trigger] tail[i]) by {
                assert(tail[i] == b[i + 1]);
            }
            assert(all[0] == b[0]);
            assert(all.drop_first() =~= a + s + tail);
            law_trimming_takes_the_ends_off(a, s, tail);
        }
    } else {
        assert(all =~= s);
    }
}

/// White space, of the characters below 128, is the blank, the tab, the ends
/// of lines and of pages, and nothing else.
pub proof fn law_white_space_is_blank(c: char)
    requires
        (c as u32) < 128,
    ensures
        is_white(c) <==> c == ' ' || c == '\t' || c == '\n' || c == '\r' || c as u32 == 11 || c as u32
            == 12,
{
}

/// Letters from `A` to `Z` become those from `a` to `z`, and nothing else
/// changes.
pub proof fn law_lower_case_keeps_the_rest(s: Seq<char>, i: int)
    requires
        0 <= i < s.len(),
    ensures
        lowered(s).len() == s.len(),
        'A' <= s[i] <= 'Z' ==> lowered(s)[i] as int - 'a' as int == s[i] as int - 'A' as int,
        !('A' <= s[i] <= 'Z') ==> lowered(s)[i] == s[i],
{
}

/// Sixteen values have a digit each, the small letters for those past nine,
/// and a digit reads as its value, a capital one too.
pub proof fn law_hexadecimal_digits_read_back(v: int)
    requires
        0 <= v < 16,
    ensures
        hex_value(hex_char(v)) == Some(v),
        v < 10 ==> hex_char(v) as int == '0' as int + v,
        v >= 10 ==> hex_char(v) as int == 'a' as int + v - 10,
        v >= 10 ==> forall|c: char| c as int == 'A' as int + v - 10 ==> #[trigger] hex_value(c) == Some(v),
{
}

/// A byte is written as two digits, the high one first.
pub proof fn law_bytes_are_two_digits(b: u8)
    ensures
        hex_byte(b).len() == 2,
        16 * hex_value(hex_byte(b)[0])->0 + hex_value(hex_byte(b)[1])->0 == b,
        hex_value(hex_byte(b)[0]) is Some && hex_value(hex_byte(b)[1]) is Some,
        !('A' <= hex_byte(b)[0] <= 'F') && !('A' <= hex_byte(b)[1] <= 'F'),
{
    law_hexadecimal_digits_read_back(b as int / 16);
    law_hexadecimal_digits_read_back(b as int % 16);
}

/// A number reads back as it was written, without a zero in front.
pub proof fn law_numbers_read_back(n: nat)
    ensures
        digits_value(decimal(n)) == Some(n),
        decimal(n).len() > 0,
        n > 0 ==> decimal(n)[0] != '0',
        forall|i: int| 0 <= i < decimal(n).len() ==> '0' <= #[trigger] decimal(n)[i] <= '9',
    decreases n,
{
    let text = decimal(n);
    if n < 10 {
        assert(text.drop_last() =~= Seq::empty());
        assert(digits_value(Seq::<char>::empty()) == Some(0nat));
        assert(digit(text.last()) == Some(n));
    } else {
        law_numbers_read_back(n / 10);
        assert(text.drop_last() =~= decimal(n / 10));
        assert(text[0] == decimal(n / 10)[0]);
        assert(digit(text.last()) == Some(n % 10));
    }
}

/// A number is taken where it is digits alone, with or without a plus in
/// front, and no greater than the limit.
pub proof fn law_numbers_are_taken_up_to_the_limit(n: nat, limit: nat)
    ensures
        number_of(decimal(n), limit) == (if n <= limit {
            Some(n)
        } else {
            None
        }),
        number_of(seq!['+'] + decimal(n), limit) == (if n <= limit {
            Some(n)
        } else {
            None
        }),
        number_of(Seq::empty(), limit) is None,
        number_of(seq!['+'], limit) is None,
        number_of(decimal(n).push('-'), limit) is None,
        number_of(decimal(n).push(' '), limit) is None,
{
    law_numbers_read_back(n);
    assert((seq!['+'] + decimal(n)).skip(1) =~= decimal(n));
    assert(decimal(n)[0] != '+');
    assert(seq!['+'].skip(1) =~= Seq::empty());
    assert(decimal(n).push('-').drop_last() =~= decimal(n));
    assert(decimal(n).push(' ').drop_last() =~= decimal(n));
}

/// Texts are ordered like words in a dictionary: by the first character in
/// which they differ, and the shorter first where there is none.
pub proof fn law_texts_are_ordered_by_their_first_difference(
    common: Seq<char>,
    a: Seq<char>,
    b: Seq<char>,
)
    requires
        a.len() == 0 || b.len() == 0 || a[0] != b[0],
    ensures
        before(common + a, common + b) <==> (a.len() == 0 && b.len() > 0) || (a.len() > 0 && b.len()
            > 0 && (a[0] as int) < (b[0] as int)),
    decreases common.len(),
{
    if common.len() == 0 {
        assert(common + a =~= a);
        assert(common + b =~= b);
    } else {
        let rest = common.drop_first();
        assert((common + a).drop_first() =~= rest + a);
        assert((common + b).drop_first() =~= rest + b);
        law_texts_are_ordered_by_their_first_difference(rest, a, b);
    }
}

/// Pieces with separators between them.
pub open spec fn rejoined(pieces: Seq<Seq<char>>, separator: char) -> Seq<char>
    decreases pieces.len(),
{
    if pieces.len() == 0 {
        Seq::empty()
    } else if pieces.len() == 1 {
        pieces[0]
    } else {
        rejoined(pieces.drop_last(), separator).push(separator) + pieces.last()
    }
}

/// A text is split at every separator and nowhere else: no piece holds one,
/// and the pieces with separators between them are the text.
pub proof fn law_pieces_make_the_text(s: Seq<char>, separator: char)
    ensures
        split(s, separator).len() > 0,
        rejoined(split(s, separator), separator) == s,
        forall|i: int|
            #![trigger split(s, separator)[i]]
            0 <= i < split(s, separator).len() ==> !split(s, separator)[i].contains(separator),
    decreases s.len(),
{
    let pieces = split(s, separator);
    if s.len() == 0 {
        assert(pieces =~= seq![Seq::<char>::empty()]);
    } else {
        let early = s.drop_last();
        let before = split(early, separator);
        law_pieces_make_the_text(early, separator);
        assert(s =~= early.push(s.last()));
        if s.last() == separator {
            assert(pieces.drop_last() =~= before);
            assert(pieces.last() =~= Seq::<char>::empty());
            assert(rejoined(pieces, separator) =~= early.push(separator));
            assert forall|i: int| #![trigger pieces[i]] 0 <= i < pieces.len() implies !pieces[i].contains(
                separator,
            ) by {
                if i < before.len() {
                    assert(pieces[i] == before[i]);
                }
            }
        } else {
            let last = before.last().push(s.last());
            assert(pieces.drop_last() =~= before.drop_last());
            assert(pieces.last() == last);
            assert(before[before.len() - 1] == before.last());
            assert(!before.last().contains(separator));
            assert(!last.contains(separator)) by {
                if last.contains(separator) {
                    let k = choose|k: int| 0 <= k < last.len() && last[k] == separator;
                    if k < before.last().len() {
                        assert(before.last()[k] == separator);
                    }
                }
            }
            if before.len() == 1 {
                assert(rejoined(pieces, separator) =~= s);
            } else {
                let head = rejoined(before.drop_last(), separator).push(separator);
                assert(rejoined(before, separator) == head + before.last());
                assert(rejoined(pieces, separator) == head + last);
                assert(head + last =~= (head + before.last()).push(s.last()));
            }
            assert forall|i: int| #![trigger pieces[i]] 0 <= i < pieces.len() implies !pieces[i].contains(
                separator,
            ) by {
                if i < before.len() - 1 {
                    assert(pieces[i] == before[i]);
                }
            }
        }
    }
}

/// A part occurs in a text where something stands before it and something
/// behind it that make the text; a prefix is one with nothing before it.
pub proof fn law_parts_occur_inside(a: Seq<char>, part: Seq<char>, b: Seq<char>)
    ensures
        occurs(a + part + b, part),
        has_prefix(part + b, part),
{
    let s = a + part + b;
    assert(s.subrange(a.len() as int, a.len() + part.len() as int) =~= part);
    assert(occurs_at(s, part, a.len() as int));
    assert((part + b).take(part.len() as int) =~= part);
}

/// Where a part occurs, the text is something, the part and something; and a
/// text with a prefix is the prefix and something.
pub proof fn law_occurrences_can_be_cut_out(s: Seq<char>, part: Seq<char>)
    ensures
        occurs(s, part) ==> exists|a: Seq<char>, b: Seq<char>| s == #[trigger] (a + part + b),
        has_prefix(s, part) ==> exists|b: Seq<char>| s == #[trigger] (part + b),
{
    if occurs(s, part) {
        let i = choose|i: int| occurs_at(s, part, i);
        let a = s.take(i);
        let b = s.skip(i + part.len());
        let inside = s.subrange(i, i + part.len());
        assert forall|k: int| 0 <= k < s.len() implies s[k] == (a + part + b)[k] by {
            if i <= k < i + part.len() {
                assert(inside[k - i] == s[k]);
            }
        }
        assert(s =~= a + part + b);
    }
    if has_prefix(s, part) {
        let b = s.skip(part.len() as int);
        assert forall|k: int| 0 <= k < s.len() implies s[k] == (part + b)[k] by {
            if k < part.len() {
                assert(s.take(part.len() as int)[k] == s[k]);
            }
        }
        assert(s =~= part + b);
    }
}

/// Past the characters below 128, white space is the next line, the blanks of
/// every width, and the ends of lines and of paragraphs.
pub proof fn law_wide_blanks_are_white(c: char)
    requires
        c as u32 >= 128,
    ensures
        is_white(c) <==> c == '\u{85}' || c == '\u{a0}' || c == '\u{1680}' || '\u{2000}' <= c
            <= '\u{200a}' || c == '\u{2028}' || c == '\u{2029}' || c == '\u{202f}' || c == '\u{205f}'
            || c == '\u{3000}',
{
}

} // verus!
