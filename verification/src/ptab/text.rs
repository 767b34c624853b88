//! Lexical layer of the partition document.
//!
//! A document is a sequence of bytes. Between tokens any run of spaces, tabs,
//! line feeds and carriage returns may stand. The tokens are single
//! punctuation bytes, unsigned numbers (decimal, or hexadecimal after `0x`),
//! and strings between double quotes. A string holds any bytes from the
//! space up, except the double quote and the backslash: there are no
//! escapes, and no control characters.
//!
//! Every reader takes a position and yields either a value with the position
//! after the token, or the offset of the byte at which the token went wrong.

use vstd::prelude::*;

verus! {

/// The double quote, which opens and closes a string.
pub const QUOTE: u8 = '"' as u8;

/// The backslash, which no string may hold.
pub const BACKSLASH: u8 = '\\' as u8;

/// The comma, which separates the items of a list and the members of an
/// object.
pub const COMMA: u8 = ',' as u8;

/// The colon, which separates a member's name from its value.
pub const COLON: u8 = ':' as u8;

/// The brace that opens an object.
pub const OPEN_BRACE: u8 = '{' as u8;

/// The brace that closes an object.
pub const CLOSE_BRACE: u8 = '}' as u8;

/// The bracket that opens a list.
pub const OPEN_BRACKET: u8 = '[' as u8;

/// The bracket that closes a list.
pub const CLOSE_BRACKET: u8 = ']' as u8;

/// The kinds of byte that form runs in a document.
#[derive(Clone, Copy, PartialEq, Eq, Structural, Debug)]
pub enum ByteClass {
    /// Space, tab, line feed, carriage return.
    Space,
    /// `0` to `9`.
    Digit,
    /// `0` to `9`, `a` to `f`, `A` to `F`.
    HexDigit,
    /// What may stand inside a string.
    Text,
}

impl ByteClass {
    /// Whether byte `b` belongs to this class.
    pub open spec fn has(self, b: u8) -> bool {
        match self {
            ByteClass::Space => b == ' ' as u8 || b == '\t' as u8 || b == '\n' as u8 || b == '\r'
                as u8,
            ByteClass::Digit => ('0' as u8) <= b <= ('9' as u8),
            ByteClass::HexDigit => ('0' as u8) <= b <= ('9' as u8) || ('a' as u8) <= b <= ('f'
                as u8) || ('A' as u8) <= b <= ('F' as u8),
            ByteClass::Text => b >= ' ' as u8 && b != QUOTE && b != BACKSLASH,
        }
    }

    /// Whether byte `b` belongs to this class.
    pub fn contains(self, b: u8) -> (r: bool)
        ensures
            r == self.has(b),
    {
        match self {
            ByteClass::Space => b == ' ' as u8 || b == '\t' as u8 || b == '\n' as u8 || b == '\r'
                as u8,
            ByteClass::Digit => ('0' as u8) <= b && b <= ('9' as u8),
            ByteClass::HexDigit => (('0' as u8) <= b && b <= ('9' as u8)) || (('a' as u8) <= b && b
                <= ('f' as u8)) || (('A' as u8) <= b && b <= ('F' as u8)),
            ByteClass::Text => b >= ' ' as u8 && b != QUOTE && b != BACKSLASH,
        }
    }
}

/// The end of the longest run of bytes of `class` that starts at `pos`:
/// the first position from `pos` on that holds no byte of the class.
pub open spec fn run_end(s: Seq<u8>, pos: int, class: ByteClass) -> int
    decreases s.len() - pos,
{
    if 0 <= pos < s.len() && class.has(s[pos]) {
        run_end(s, pos + 1, class)
    } else {
        pos
    }
}

/// A run ends at or after its start, inside the text, on a byte that is not
/// of the class, and holds bytes of the class only.
pub proof fn lemma_run_end(s: Seq<u8>, pos: int, class: ByteClass)
    ensures
        pos <= run_end(s, pos, class),
        pos <= s.len() ==> run_end(s, pos, class) <= s.len(),
        0 <= pos ==> forall|k: int| pos <= k < run_end(s, pos, class) ==> class.has(#[trigger] s[k]),
        0 <= run_end(s, pos, class) < s.len() ==> !class.has(s[run_end(s, pos, class)]),
    decreases s.len() - pos,
{
    if 0 <= pos < s.len() && class.has(s[pos]) {
        lemma_run_end(s, pos + 1, class);
    }
}

/// A position that the run reaches and that ends it is the run's end.
pub proof fn lemma_run_end_is(s: Seq<u8>, pos: int, end: int, class: ByteClass)
    requires
        0 <= pos <= end <= s.len(),
        forall|k: int| pos <= k < end ==> class.has(#[trigger] s[k]),
        end == s.len() || !class.has(s[end]),
    ensures
        run_end(s, pos, class) == end,
    decreases end - pos,
{
    if pos < end {
        assert(class.has(s[pos]));
        lemma_run_end_is(s, pos + 1, end, class);
    }
}

/// Walks over the run of `class` bytes that starts at `pos`.
pub(crate) fn scan_run(s: &[u8], pos: usize, class: ByteClass) -> (end: usize)
    ensures
        end == run_end(s@, pos as int, class),
        pos <= end,
        pos <= s.len() ==> end <= s.len(),
{
    if pos >= s.len() {
        return pos;
    }
    let mut i: usize = pos;
    while i < s.len() && class.contains(s[i])
        invariant
            pos <= i <= s.len(),
            forall|k: int| pos <= k < i ==> class.has(#[trigger] s@[k]),
        decreases s.len() - i,
    {
        i += 1;
    }
    proof {
        lemma_run_end_is(s@, pos as int, i as int, class);
    }
    i
}

/// The value of one digit, decimal or hexadecimal.
pub open spec fn digit_value(b: u8) -> int {
    if ('0' as u8) <= b <= ('9' as u8) {
        b - ('0' as u8)
    } else if ('a' as u8) <= b <= ('f' as u8) {
        b - ('a' as u8) + 10
    } else {
        b - ('A' as u8) + 10
    }
}

/// The number that `digits` write in positional notation to base `radix`.
pub open spec fn radix_value(digits: Seq<u8>, radix: int) -> int
    decreases digits.len(),
{
    if digits.len() == 0 {
        0
    } else {
        radix_value(digits.drop_last(), radix) * radix + digit_value(digits.last())
    }
}

/// The value of the digit `b`.
fn digit_of(b: u8) -> (d: u8)
    requires
        ByteClass::HexDigit.has(b),
    ensures
        d == digit_value(b),
        d < 16,
{
    if ('0' as u8) <= b && b <= ('9' as u8) {
        b - ('0' as u8)
    } else if ('a' as u8) <= b && b <= ('f' as u8) {
        b - ('a' as u8) + 10
    } else {
        b - ('A' as u8) + 10
    }
}

/// Reads the digits in `s[start..end]` to base `radix`. `None` where the
/// number does not fit in 64 bits.
fn fold_digits(s: &[u8], start: usize, end: usize, radix: u8) -> (r: Option<u64>)
    requires
        start <= end <= s.len(),
        radix == 10 || radix == 16,
        forall|k: int| start <= k < end ==> ByteClass::HexDigit.has(#[trigger] s@[k]),
    ensures
        r == (if radix_value(s@.subrange(start as int, end as int), radix as int) <= u64::MAX {
            Some(radix_value(s@.subrange(start as int, end as int), radix as int) as u64)
        } else {
            None
        }),
{
    let mut acc: u64 = 0;
    let mut over: bool = false;
    let mut i: usize = start;
    assert(s@.subrange(start as int, start as int).len() == 0);
    while i < end
        invariant
            start <= i <= end <= s.len(),
            radix == 10 || radix == 16,
            forall|k: int| start <= k < end ==> ByteClass::HexDigit.has(#[trigger] s@[k]),
            over ==> radix_value(s@.subrange(start as int, i as int), radix as int) > u64::MAX,
            !over ==> acc == radix_value(s@.subrange(start as int, i as int), radix as int),
        decreases end - i,
    {
        let d: u8 = digit_of(s[i]);
        let ghost before = radix_value(s@.subrange(start as int, i as int), radix as int);
        proof {
            let next = s@.subrange(start as int, i + 1);
            assert(next.drop_last() =~= s@.subrange(start as int, i as int));
            assert(next.last() == s@[i as int]);
            assert(radix_value(next, radix as int) == before * (radix as int) + d);
            if radix == 10 {
                assert(before * (radix as int) == before * 10);
            } else {
                assert(before * (radix as int) == before * 16);
            }
        }
        if !over {
            let scaled: u128 = if radix == 10 {
                acc as u128 * 10
            } else {
                acc as u128 * 16
            };
            let wide: u128 = scaled + d as u128;
            if wide > u64::MAX as u128 {
                over = true;
            } else {
                acc = wide as u64;
            }
        }
        i += 1;
    }
    if over {
        None
    } else {
        Some(acc)
    }
}

/// The number token at `pos`, after any white space.
///
/// A number is `0x` or `0X` followed by hexadecimal digits, or a run of
/// decimal digits that does not start with a superfluous `0`. It must fit in
/// 64 bits. A fault in the digits is reported at the token's first byte; a
/// `0x` without digits at the byte after it.
pub open spec fn number_at(s: Seq<u8>, pos: int) -> Result<(u64, int), int> {
    let start = run_end(s, pos, ByteClass::Space);
    if start + 1 < s.len() && s[start] == '0' as u8 && (s[start + 1] == 'x' as u8 || s[start + 1]
        == 'X' as u8) {
        let end = run_end(s, start + 2, ByteClass::HexDigit);
        let value = radix_value(s.subrange(start + 2, end), 16);
        if end == start + 2 {
            Err(end)
        } else if value > u64::MAX {
            Err(start)
        } else {
            Ok((value as u64, end))
        }
    } else {
        let end = run_end(s, start, ByteClass::Digit);
        let value = radix_value(s.subrange(start, end), 10);
        if end == start {
            Err(start)
        } else if s[start] == '0' as u8 && end > start + 1 {
            Err(start)
        } else if value > u64::MAX {
            Err(start)
        } else {
            Ok((value as u64, end))
        }
    }
}

/// Reads the number token at `pos`.
pub(crate) fn read_number(s: &[u8], pos: usize) -> (r: Result<(u64, usize), usize>)
    requires
        pos <= s.len(),
    ensures
        match r {
            Ok((value, next)) => number_at(s@, pos as int) == Ok::<(u64, int), int>(
                (value, next as int),
            ) && pos < next <= s.len(),
            Err(at) => number_at(s@, pos as int) == Err::<(u64, int), int>(at as int) && pos <= at
                <= s.len(),
        },
{
    let start: usize = scan_run(s, pos, ByteClass::Space);
    if start < s.len() && s.len() - start > 1 && s[start] == '0' as u8 && (s[start + 1] == 'x'
        as u8 || s[start + 1] == 'X' as u8) {
        let end: usize = scan_run(s, start + 2, ByteClass::HexDigit);
        if end == start + 2 {
            return Err(end);
        }
        proof {
            lemma_run_end(s@, start + 2, ByteClass::HexDigit);
        }
        match fold_digits(s, start + 2, end, 16) {
            Some(value) => Ok((value, end)),
            None => Err(start),
        }
    } else {
        let end: usize = scan_run(s, start, ByteClass::Digit);
        if end == start {
            return Err(start);
        }
        if s[start] == '0' as u8 && end > start + 1 {
            return Err(start);
        }
        proof {
            lemma_run_end(s@, start as int, ByteClass::Digit);
        }
        match fold_digits(s, start, end, 10) {
            Some(value) => Ok((value, end)),
            None => Err(start),
        }
    }
}

/// The string token at `pos`, after any white space: its content, without
/// the quotes. A fault is reported at the byte that should have been the
/// opening quote, or at the byte that ends the content without closing it.
pub open spec fn string_at(s: Seq<u8>, pos: int) -> Result<(Seq<u8>, int), int> {
    let start = run_end(s, pos, ByteClass::Space);
    if 0 <= start < s.len() && s[start] == QUOTE {
        let end = run_end(s, start + 1, ByteClass::Text);
        if 0 <= end < s.len() && s[end] == QUOTE {
            Ok((s.subrange(start + 1, end), end + 1))
        } else {
            Err(end)
        }
    } else {
        Err(start)
    }
}

/// Copies `s[from..to]`.
fn copy_range(s: &[u8], from: usize, to: usize) -> (v: Vec<u8>)
    requires
        from <= to <= s.len(),
    ensures
        v@ == s@.subrange(from as int, to as int),
{
    let mut v: Vec<u8> = Vec::new();
    let mut i: usize = from;
    while i < to
        invariant
            from <= i <= to <= s.len(),
            v@ == s@.subrange(from as int, i as int),
        decreases to - i,
    {
        v.push(s[i]);
        proof {
            assert(v@ =~= s@.subrange(from as int, i + 1));
        }
        i += 1;
    }
    v
}

/// Reads the string token at `pos`.
pub(crate) fn read_string(s: &[u8], pos: usize) -> (r: Result<(Vec<u8>, usize), usize>)
    requires
        pos <= s.len(),
    ensures
        match r {
            Ok((content, next)) => string_at(s@, pos as int) == Ok::<(Seq<u8>, int), int>(
                (content@, next as int),
            ) && pos < next <= s.len(),
            Err(at) => string_at(s@, pos as int) == Err::<(Seq<u8>, int), int>(at as int) && pos
                <= at <= s.len(),
        },
{
    let start: usize = scan_run(s, pos, ByteClass::Space);
    if start < s.len() && s[start] == QUOTE {
        let end: usize = scan_run(s, start + 1, ByteClass::Text);
        if end < s.len() && s[end] == QUOTE {
            Ok((copy_range(s, start + 1, end), end + 1))
        } else {
            Err(end)
        }
    } else {
        Err(start)
    }
}

/// The punctuation byte `symbol` at `pos`, after any white space: the
/// position after it, or the offset of the byte that stands in its place.
pub open spec fn symbol_at(s: Seq<u8>, pos: int, symbol: u8) -> Result<int, int> {
    let at = run_end(s, pos, ByteClass::Space);
    if 0 <= at < s.len() && s[at] == symbol {
        Ok(at + 1)
    } else {
        Err(at)
    }
}

/// Reads the punctuation byte `symbol` at `pos`.
pub(crate) fn read_symbol(s: &[u8], pos: usize, symbol: u8) -> (r: Result<usize, usize>)
    requires
        pos <= s.len(),
    ensures
        match r {
            Ok(next) => symbol_at(s@, pos as int, symbol) == Ok::<int, int>(next as int) && pos
                < next <= s.len(),
            Err(at) => symbol_at(s@, pos as int, symbol) == Err::<int, int>(at as int) && pos
                <= at <= s.len(),
        },
{
    let at: usize = scan_run(s, pos, ByteClass::Space);
    if at < s.len() && s[at] == symbol {
        Ok(at + 1)
    } else {
        Err(at)
    }
}

/// Whether the two byte strings are equal.
pub(crate) fn bytes_eq(a: &[u8], b: &[u8]) -> (r: bool)
    ensures
        r == (a@ == b@),
{
    if a.len() != b.len() {
        return false;
    }
    let mut i: usize = 0;
    while i < a.len()
        invariant
            i <= a.len(),
            a.len() == b.len(),
            forall|j: int| 0 <= j < i ==> a@[j] == b@[j],
        decreases a.len() - i,
    {
        if a[i] != b[i] {
            return false;
        }
        i += 1;
    }
    assert(a@ =~= b@);
    true
}

} // verus!
