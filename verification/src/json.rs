//! Text primitives of the wire format, which is a subset of JSON:
//! insignificant white space, quoted strings with their escapes, and
//! unsigned decimal numbers.
//!
//! Every reader works on a text held as a sequence of characters and a
//! position in it; what it accepts is stated by a spec function of the same
//! text and position.

use vstd::prelude::*;

verus! {

/// `String::push` appends one character to the string.
pub assume_specification[ String::push ](s: &mut String, ch: char)
    ensures
        final(s)@ == old(s)@.push(ch),
;

/// `char::from_u32` gives the character with the given scalar value, and
/// `None` for a surrogate or a number above `0x10FFFF`.
pub assume_specification[ char::from_u32 ](code: u32) -> (c: Option<char>)
    ensures
        c == (if is_scalar(code as int) {
            Some(code as char)
        } else {
            None::<char>
        }),
;

/// Whether `code` is a Unicode scalar value.
pub open spec fn is_scalar(code: int) -> bool {
    0 <= code < 0xD800 || 0xE000 <= code <= 0x10FFFF
}

/// The characters of a string slice, in order.
pub fn chars_of(s: &str) -> (v: Vec<char>)
    ensures
        v@ == s@,
{
    let mut v: Vec<char> = Vec::new();
    for c in it: s.chars()
        invariant
            v@ == it.seq().take(it.index() as int),
            it.seq() == s@,
    {
        v.push(c);
    }
    v
}

// ---------------------------------------------------------------------------
// White space and punctuation
// ---------------------------------------------------------------------------

/// The four characters that may separate the tokens of a frame.
pub open spec fn is_space(c: char) -> bool {
    c == ' ' || c == '\t' || c == '\n' || c == '\r'
}

/// The first position from `i` on that holds no white space.
pub open spec fn skip_spaces(s: Seq<char>, i: int) -> int
    decreases s.len() - i,
{
    if 0 <= i < s.len() && is_space(s[i]) {
        skip_spaces(s, i + 1)
    } else {
        i
    }
}

/// The position behind the character `c`, where `c` is the first character
/// from `i` on that is no white space.
pub open spec fn punct_at(s: Seq<char>, i: int, c: char) -> Option<int> {
    let j = skip_spaces(s, i);
    if 0 <= j < s.len() && s[j] == c {
        Some(j + 1)
    } else {
        None
    }
}

/// Whether nothing but white space stands from `i` on.
pub open spec fn ends_at(s: Seq<char>, i: int) -> bool {
    skip_spaces(s, i) == s.len()
}

pub(crate) fn pass_spaces(s: &Vec<char>, i: usize) -> (j: usize)
    requires
        i <= s.len(),
    ensures
        j == skip_spaces(s@, i as int),
        i <= j <= s.len(),
{
    let mut j: usize = i;
    while j < s.len() && (s[j] == ' ' || s[j] == '\t' || s[j] == '\n' || s[j] == '\r')
        invariant
            i <= j <= s.len(),
            skip_spaces(s@, i as int) == skip_spaces(s@, j as int),
        decreases s.len() - j,
    {
        j = j + 1;
    }
    j
}

pub(crate) fn pass_punct(s: &Vec<char>, i: usize, c: char) -> (r: Option<usize>)
    requires
        i <= s.len(),
    ensures
        match punct_at(s@, i as int, c) {
            Some(j) => r == Some(j as usize) && i < j <= s.len(),
            None => r is None,
        },
{
    let j = pass_spaces(s, i);
    if j < s.len() && s[j] == c {
        Some(j + 1)
    } else {
        None
    }
}

pub(crate) fn at_end(s: &Vec<char>, i: usize) -> (r: bool)
    requires
        i <= s.len(),
    ensures
        r == ends_at(s@, i as int),
{
    let j = pass_spaces(s, i);
    j == s.len()
}

// ---------------------------------------------------------------------------
// Quoted strings: reading
// ---------------------------------------------------------------------------

/// The value of a hexadecimal digit, of either case.
pub open spec fn hex_value(c: char) -> Option<int> {
    if '0' <= c <= '9' {
        Some(c as int - 48)
    } else if 'a' <= c <= 'f' {
        Some(c as int - 87)
    } else if 'A' <= c <= 'F' {
        Some(c as int - 55)
    } else {
        None
    }
}

/// The number that the four hexadecimal digits at `i` write.
pub open spec fn hex4_at(s: Seq<char>, i: int) -> Option<int> {
    if 0 <= i && i + 4 <= s.len() && hex_value(s[i]) is Some && hex_value(s[i + 1]) is Some
        && hex_value(s[i + 2]) is Some && hex_value(s[i + 3]) is Some {
        Some(
            ((hex_value(s[i])->0 * 16 + hex_value(s[i + 1])->0) * 16 + hex_value(s[i + 2])->0) * 16
                + hex_value(s[i + 3])->0,
        )
    } else {
        None
    }
}

/// The character that the escape at `i` stands for, and the position behind
/// the escape. `i` is the position behind the backslash.
///
/// A `u` escape names a UTF-16 code unit by four hexadecimal digits. A
/// leading surrogate must be followed by a second `u` escape that holds a
/// trailing surrogate, and the two together name one character; a surrogate
/// in any other place is refused.
pub open spec fn escape_at(s: Seq<char>, i: int) -> Option<(char, int)> {
    if !(0 <= i < s.len()) {
        None
    } else if s[i] == '"' {
        Some(('"', i + 1))
    } else if s[i] == '\\' {
        Some(('\\', i + 1))
    } else if s[i] == '/' {
        Some(('/', i + 1))
    } else if s[i] == 'b' {
        Some(('\u{8}', i + 1))
    } else if s[i] == 'f' {
        Some(('\u{c}', i + 1))
    } else if s[i] == 'n' {
        Some(('\n', i + 1))
    } else if s[i] == 'r' {
        Some(('\r', i + 1))
    } else if s[i] == 't' {
        Some(('\t', i + 1))
    } else if s[i] == 'u' {
        match hex4_at(s, i + 1) {
            None => None,
            Some(unit) => if unit < 0xD800 || 0xE000 <= unit {
                Some((unit as char, i + 5))
            } else if unit < 0xDC00 && i + 7 <= s.len() && s[i + 5] == '\\' && s[i + 6] == 'u' {
                match hex4_at(s, i + 7) {
                    None => None,
                    Some(low) => if 0xDC00 <= low < 0xE000 {
                        Some(((0x10000 + (unit - 0xD800) * 0x400 + (low - 0xDC00)) as char, i + 11))
                    } else {
                        None
                    },
                }
            } else {
                None
            },
        }
    } else {
        None
    }
}

/// The characters of a string from `i` up to its closing quote, and the
/// position behind that quote. `i` is a position inside the quotes. A
/// control character (below `0x20`) may only stand there as an escape.
pub open spec fn chars_at(s: Seq<char>, i: int) -> Option<(Seq<char>, int)>
    decreases s.len() - i,
{
    if !(0 <= i < s.len()) {
        None
    } else if s[i] == '"' {
        Some((Seq::<char>::empty(), i + 1))
    } else if s[i] == '\\' {
        match escape_at(s, i + 1) {
            None => None,
            Some((c, j)) => match chars_at(s, j) {
                None => None,
                Some((rest, k)) => Some((seq![c] + rest, k)),
            },
        }
    } else if (s[i] as u32) < 0x20 {
        None
    } else {
        match chars_at(s, i + 1) {
            None => None,
            Some((rest, k)) => Some((seq![s[i]] + rest, k)),
        }
    }
}

/// The string whose opening quote stands at `i`, and the position behind
/// its closing quote.
pub open spec fn string_at(s: Seq<char>, i: int) -> Option<(Seq<char>, int)> {
    if 0 <= i < s.len() && s[i] == '"' {
        chars_at(s, i + 1)
    } else {
        None
    }
}

/// The string that is the first token from `i` on.
pub open spec fn string_token(s: Seq<char>, i: int) -> Option<(Seq<char>, int)> {
    string_at(s, skip_spaces(s, i))
}

fn hex_digit_value(c: char) -> (r: Option<u32>)
    ensures
        match hex_value(c) {
            Some(v) => r == Some(v as u32) && 0 <= v < 16,
            None => r is None,
        },
{
    if '0' <= c && c <= '9' {
        Some(c as u32 - 48)
    } else if 'a' <= c && c <= 'f' {
        Some(c as u32 - 87)
    } else if 'A' <= c && c <= 'F' {
        Some(c as u32 - 55)
    } else {
        None
    }
}

fn read_hex4(s: &Vec<char>, i: usize) -> (r: Option<u32>)
    requires
        i <= s.len(),
    ensures
        match hex4_at(s@, i as int) {
            Some(v) => r == Some(v as u32) && 0 <= v < 0x10000,
            None => r is None,
        },
{
    if s.len() - i < 4 {
        return None;
    }
    let a = hex_digit_value(s[i]);
    let b = hex_digit_value(s[i + 1]);
    let c = hex_digit_value(s[i + 2]);
    let d = hex_digit_value(s[i + 3]);
    match (a, b, c, d) {
        (Some(a), Some(b), Some(c), Some(d)) => Some(((a * 16 + b) * 16 + c) * 16 + d),
        _ => None,
    }
}

fn read_escape(s: &Vec<char>, i: usize) -> (r: Option<(char, usize)>)
    requires
        i <= s.len(),
    ensures
        match escape_at(s@, i as int) {
            Some((c, j)) => r == Some((c, j as usize)) && i < j <= s.len(),
            None => r is None,
        },
{
    if i >= s.len() {
        return None;
    }
    let e = s[i];
    if e == '"' {
        Some(('"', i + 1))
    } else if e == '\\' {
        Some(('\\', i + 1))
    } else if e == '/' {
        Some(('/', i + 1))
    } else if e == 'b' {
        Some(('\u{8}', i + 1))
    } else if e == 'f' {
        Some(('\u{c}', i + 1))
    } else if e == 'n' {
        Some(('\n', i + 1))
    } else if e == 'r' {
        Some(('\r', i + 1))
    } else if e == 't' {
        Some(('\t', i + 1))
    } else if e == 'u' {
        let unit = match read_hex4(s, i + 1) {
            Some(unit) => unit,
            None => { return None; },
        };
        if unit < 0xD800 || 0xE000 <= unit {
            match char::from_u32(unit) {
                Some(c) => Some((c, i + 5)),
                None => None,
            }
        } else if unit < 0xDC00 && s.len() - i >= 7 && s[i + 5] == '\\' && s[i + 6] == 'u' {
            let low = match read_hex4(s, i + 7) {
                Some(low) => low,
                None => { return None; },
            };
            if 0xDC00 <= low && low < 0xE000 {
                match char::from_u32(0x10000 + (unit - 0xD800) * 0x400 + (low - 0xDC00)) {
                    Some(c) => Some((c, i + 11)),
                    None => None,
                }
            } else {
                None
            }
        } else {
            None
        }
    } else {
        None
    }
}

/// What `chars_at` gives at `i` when the characters `done` were read before
/// `i`.
pub open spec fn chars_after(done: Seq<char>, s: Seq<char>, i: int) -> Option<(Seq<char>, int)> {
    match chars_at(s, i) {
        Some((rest, k)) => Some((done + rest, k)),
        None => None,
    }
}

pub(crate) fn read_string(s: &Vec<char>, i: usize) -> (r: Option<(String, usize)>)
    requires
        i <= s.len(),
    ensures
        match string_at(s@, i as int) {
            Some((v, j)) => r matches Some((t, k)) && t@ == v && k == j && i < j <= s.len(),
            None => r is None,
        },
{
    if i >= s.len() || s[i] != '"' {
        return None;
    }
    let mut out = String::new();
    let mut j: usize = i + 1;
    loop
        invariant
            i < j <= s.len(),
            string_at(s@, i as int) == chars_after(out@, s@, j as int),
        decreases s.len() - j,
    {
        if j >= s.len() {
            return None;
        }
        let c = s[j];
        if c == '"' {
            assert(out@ + Seq::<char>::empty() == out@);
            return Some((out, j + 1));
        } else if c == '\\' {
            match read_escape(s, j + 1) {
                None => {
                    return None;
                },
                Some((e, k)) => {
                    proof {
                        let ghost before = out@;
                        assert forall|rest: Seq<char>| before + (seq![e] + rest) == before.push(e) + rest by {
                            assert(before + (seq![e] + rest) =~= before.push(e) + rest);
                        }
                    }
                    out.push(e);
                    j = k;
                },
            }
        } else if (c as u32) < 0x20 {
            return None;
        } else {
            proof {
                let ghost before = out@;
                assert forall|rest: Seq<char>| before + (seq![c] + rest) == before.push(c) + rest by {
                    assert(before + (seq![c] + rest) =~= before.push(c) + rest);
                }
            }
            out.push(c);
            j = j + 1;
        }
    }
}

pub(crate) fn read_string_token(s: &Vec<char>, i: usize) -> (r: Option<(String, usize)>)
    requires
        i <= s.len(),
    ensures
        match string_token(s@, i as int) {
            Some((v, j)) => r matches Some((t, k)) && t@ == v && k == j && i < j <= s.len(),
            None => r is None,
        },
{
    let j = pass_spaces(s, i);
    read_string(s, j)
}

// ---------------------------------------------------------------------------
// Quoted strings: writing
// ---------------------------------------------------------------------------

/// The lower-case hexadecimal digit of a number below sixteen.
pub open spec fn hex_digit(n: int) -> char {
    if n < 10 {
        (48 + n) as char
    } else {
        (87 + n) as char
    }
}

/// The written form of one character inside quotes: the quote, the
/// backslash and the control characters are escaped, every other character
/// stands for itself.
pub open spec fn escape_char(c: char) -> Seq<char> {
    if c == '"' {
        seq!['\\', '"']
    } else if c == '\\' {
        seq!['\\', '\\']
    } else if c == '\u{8}' {
        seq!['\\', 'b']
    } else if c == '\u{c}' {
        seq!['\\', 'f']
    } else if c == '\n' {
        seq!['\\', 'n']
    } else if c == '\r' {
        seq!['\\', 'r']
    } else if c == '\t' {
        seq!['\\', 't']
    } else if (c as u32) < 0x20 {
        seq!['\\', 'u', '0', '0', hex_digit(c as int / 16), hex_digit(c as int % 16)]
    } else {
        seq![c]
    }
}

/// The written form of a run of characters inside quotes.
pub open spec fn escape(v: Seq<char>) -> Seq<char>
    decreases v.len(),
{
    if v.len() == 0 {
        Seq::<char>::empty()
    } else {
        escape_char(v[0]) + escape(v.skip(1))
    }
}

/// The written form of a string: its escaped characters between quotes.
pub open spec fn quote(v: Seq<char>) -> Seq<char> {
    seq!['"'] + escape(v) + seq!['"']
}

/// Escaping goes character by character, so it can go on where it stopped.
pub proof fn escape_push(v: Seq<char>, c: char)
    ensures
        escape(v.push(c)) == escape(v) + escape_char(c),
    decreases v.len(),
{
    if v.len() == 0 {
        assert(v.push(c).skip(1) =~= Seq::<char>::empty());
        assert(escape(v.push(c).skip(1)) == Seq::<char>::empty());
        assert(escape(v.push(c)) =~= escape_char(c));
        assert(escape(v) + escape_char(c) =~= escape_char(c));
    } else {
        assert(v.push(c).skip(1) =~= v.skip(1).push(c));
        escape_push(v.skip(1), c);
        assert(escape(v.push(c)) =~= escape(v) + escape_char(c));
    }
}

fn hex_digit_char(n: u8) -> (c: char)
    requires
        n < 16,
    ensures
        c == hex_digit(n as int),
{
    if n < 10 {
        (48 + n) as char
    } else {
        (87 + n) as char
    }
}

fn write_char(out: &mut String, c: char)
    ensures
        final(out)@ == old(out)@ + escape_char(c),
{
    if c == '"' {
        out.push('\\');
        out.push('"');
    } else if c == '\\' {
        out.push('\\');
        out.push('\\');
    } else if c == '\u{8}' {
        out.push('\\');
        out.push('b');
    } else if c == '\u{c}' {
        out.push('\\');
        out.push('f');
    } else if c == '\n' {
        out.push('\\');
        out.push('n');
    } else if c == '\r' {
        out.push('\\');
        out.push('r');
    } else if c == '\t' {
        out.push('\\');
        out.push('t');
    } else if (c as u32) < 0x20 {
        let code: u8 = c as u32 as u8;
        out.push('\\');
        out.push('u');
        out.push('0');
        out.push('0');
        out.push(hex_digit_char(code / 16));
        out.push(hex_digit_char(code % 16));
    } else {
        out.push(c);
    }
    assert(out@ =~= old(out)@ + escape_char(c));
}

pub(crate) fn write_string(out: &mut String, v: &str)
    ensures
        final(out)@ == old(out)@ + quote(v@),
{
    out.push('"');
    for c in it: v.chars()
        invariant
            it.seq() == v@,
            out@ == old(out)@ + seq!['"'] + escape(v@.take(it.index() as int)),
    {
        proof {
            let k = it.index() as int;
            assert(v@.take(k + 1) =~= v@.take(k).push(v@[k]));
            escape_push(v@.take(k), v@[k]);
        }
        let ghost before = out@;
        write_char(out, c);
        assert(out@ =~= old(out)@ + seq!['"'] + escape(v@.take(it.index() as int + 1)));
    }
    assert(v@.take(v@.len() as int) =~= v@);
    out.push('"');
    assert(out@ =~= old(out)@ + quote(v@));
}

// ---------------------------------------------------------------------------
// Numbers
// ---------------------------------------------------------------------------

/// The ten decimal digits.
pub open spec fn is_digit(c: char) -> bool {
    '0' <= c <= '9'
}

/// The first position from `i` on that holds no digit.
pub open spec fn digits_end(s: Seq<char>, i: int) -> int
    decreases s.len() - i,
{
    if 0 <= i < s.len() && is_digit(s[i]) {
        digits_end(s, i + 1)
    } else {
        i
    }
}

/// The number that a run of digits writes in base ten.
pub open spec fn digits_value(d: Seq<char>) -> int
    decreases d.len(),
{
    if d.len() == 0 {
        0
    } else {
        digits_value(d.drop_last()) * 10 + (d.last() as int - 48)
    }
}

/// The number that starts at `i`, and the position behind it. A number is
/// a single `0`, or a run of digits that does not begin with `0` and whose
/// value fits in 32 bits.
pub open spec fn number_at(s: Seq<char>, i: int) -> Option<(u32, int)> {
    if !(0 <= i < s.len() && is_digit(s[i])) {
        None
    } else if s[i] == '0' {
        Some((0u32, i + 1))
    } else if digits_value(s.subrange(i, digits_end(s, i))) <= u32::MAX {
        Some((digits_value(s.subrange(i, digits_end(s, i))) as u32, digits_end(s, i)))
    } else {
        None
    }
}

/// The number that is the first token from `i` on.
pub open spec fn number_token(s: Seq<char>, i: int) -> Option<(u32, int)> {
    number_at(s, skip_spaces(s, i))
}

/// The decimal digit of a number below ten.
pub open spec fn digit_char(d: nat) -> char {
    (48 + d) as char
}

/// The written form of a number: its digits in base ten, without leading
/// zeros.
pub open spec fn decimal(n: nat) -> Seq<char>
    decreases n,
{
    if n < 10 {
        seq![digit_char(n)]
    } else {
        decimal(n / 10).push(digit_char(n % 10))
    }
}

pub proof fn digits_end_bounds(s: Seq<char>, i: int)
    requires
        0 <= i <= s.len(),
    ensures
        i <= digits_end(s, i) <= s.len(),
        forall|k: int| i <= k < digits_end(s, i) ==> is_digit(#[trigger] s[k]),
        digits_end(s, i) < s.len() ==> !is_digit(s[digits_end(s, i)]),
    decreases s.len() - i,
{
    if i < s.len() && is_digit(s[i]) {
        digits_end_bounds(s, i + 1);
    }
}

/// A run of digits ends where the first character that is no digit stands.
pub proof fn digits_end_is(s: Seq<char>, i: int, j: int)
    requires
        0 <= i <= j <= s.len(),
        forall|k: int| i <= k < j ==> is_digit(#[trigger] s[k]),
        j < s.len() ==> !is_digit(s[j]),
    ensures
        digits_end(s, i) == j,
    decreases j - i,
{
    if i < j {
        assert(is_digit(s[i]));
        digits_end_is(s, i + 1, j);
    }
}

/// More digits never write a smaller number.
pub proof fn digits_value_grows(s: Seq<char>, i: int, j: int, e: int)
    requires
        0 <= i <= j <= e <= s.len(),
        forall|k: int| i <= k < e ==> is_digit(#[trigger] s[k]),
    ensures
        0 <= digits_value(s.subrange(i, j)) <= digits_value(s.subrange(i, e)),
    decreases e - i,
{
    if i == e {
    } else if j == e {
        assert(s.subrange(i, e).drop_last() =~= s.subrange(i, e - 1));
        assert(is_digit(s[e - 1]));
        digits_value_grows(s, i, e - 1, e - 1);
    } else {
        assert(s.subrange(i, e).drop_last() =~= s.subrange(i, e - 1));
        assert(is_digit(s[e - 1]));
        digits_value_grows(s, i, j, e - 1);
    }
}

pub(crate) fn read_number(s: &Vec<char>, i: usize) -> (r: Option<(u32, usize)>)
    requires
        i <= s.len(),
    ensures
        match number_at(s@, i as int) {
            Some((v, j)) => r == Some((v, j as usize)) && i < j <= s.len(),
            None => r is None,
        },
{
    if i >= s.len() || !('0' <= s[i] && s[i] <= '9') {
        return None;
    }
    if s[i] == '0' {
        return Some((0, i + 1));
    }
    let mut acc: u64 = 0;
    let mut j: usize = i;
    while j < s.len() && '0' <= s[j] && s[j] <= '9'
        invariant
            i <= j <= s.len(),
            i < s.len(),
            is_digit(s@[i as int]),
            s@[i as int] != '0',
            forall|k: int| i <= k < j ==> is_digit(#[trigger] s@[k]),
            acc == digits_value(s@.subrange(i as int, j as int)),
            acc <= u32::MAX,
        decreases s.len() - j,
    {
        proof {
            assert(s@.subrange(i as int, j + 1).drop_last() =~= s@.subrange(i as int, j as int));
        }
        acc = acc * 10 + (s[j] as u32 - 48) as u64;
        j = j + 1;
        assert(acc == digits_value(s@.subrange(i as int, j as int)));
        if acc > u32::MAX as u64 {
            proof {
                let e = digits_end(s@, j as int);
                digits_end_bounds(s@, j as int);
                assert forall|k: int| i <= k < e implies is_digit(#[trigger] s@[k]) by {
                    if k >= j {
                    } else if k == j - 1 {
                    } else {
                    }
                }
                digits_end_is(s@, i as int, e);
                digits_value_grows(s@, i as int, j as int, e);
            }
            return None;
        }
    }
    proof {
        digits_end_is(s@, i as int, j as int);
    }
    Some((acc as u32, j))
}

pub(crate) fn read_number_token(s: &Vec<char>, i: usize) -> (r: Option<(u32, usize)>)
    requires
        i <= s.len(),
    ensures
        match number_token(s@, i as int) {
            Some((v, j)) => r == Some((v, j as usize)) && i < j <= s.len(),
            None => r is None,
        },
{
    let j = pass_spaces(s, i);
    read_number(s, j)
}

pub(crate) fn write_number(out: &mut String, n: u32)
    ensures
        final(out)@ == old(out)@ + decimal(n as nat),
    decreases n,
{
    if n >= 10 {
        write_number(out, n / 10);
    }
    out.push((48 + (n % 10) as u8) as char);
    assert(out@ =~= old(out)@ + decimal(n as nat));
}

// ---------------------------------------------------------------------------
// What is written is read back
// ---------------------------------------------------------------------------

/// Whether the characters `x` stand in `s` from position `i` on.
pub open spec fn has_at(s: Seq<char>, i: int, x: Seq<char>) -> bool {
    &&& 0 <= i
    &&& i + x.len() <= s.len()
    &&& forall|k: int| 0 <= k < x.len() ==> s[i + k] == #[trigger] x[k]
}

/// Two runs stand one behind the other where their concatenation stands.
pub proof fn has_at_split(s: Seq<char>, i: int, a: Seq<char>, b: Seq<char>)
    ensures
        has_at(s, i, a + b) <==> (has_at(s, i, a) && has_at(s, i + a.len(), b)),
{
    if has_at(s, i, a + b) {
        assert forall|k: int| 0 <= k < a.len() implies s[i + k] == #[trigger] a[k] by {
            assert((a + b)[k] == a[k]);
        }
        assert forall|k: int| 0 <= k < b.len() implies s[i + a.len() + k] == #[trigger] b[k] by {
            assert((a + b)[a.len() + k] == b[k]);
        }
    }
    if has_at(s, i, a) && has_at(s, i + a.len(), b) {
        assert forall|k: int| 0 <= k < (a + b).len() implies s[i + k] == #[trigger] (a + b)[k] by {
            if k < a.len() {
                assert((a + b)[k] == a[k]);
            } else {
                assert((a + b)[k] == b[k - a.len()]);
            }
        }
    }
}

/// A text stands at its own beginning.
pub proof fn has_at_whole(s: Seq<char>)
    ensures
        has_at(s, 0, s),
{
}

/// The written form of a character is read back as that character: either
/// it stands for itself, or it is a backslash and an escape.
pub proof fn escape_char_reads(s: Seq<char>, i: int, c: char)
    requires
        has_at(s, i, escape_char(c)),
    ensures
        escape_char(c).len() == 1 ==> s[i] == c && c != '"' && c != '\\' && (c as u32) >= 0x20,
        escape_char(c).len() != 1 ==> s[i] == '\\' && escape_at(s, i + 1) == Some(
            (c, i + escape_char(c).len()),
        ),
{
    let w = escape_char(c);
    assert(s[i + 0] == w[0]);
    if w.len() != 1 {
        assert(s[i + 1] == w[1]);
        if (c as u32) < 0x20 && c != '\u{8}' && c != '\u{c}' && c != '\n' && c != '\r' && c != '\t' {
            assert(s[i + 2] == w[2]);
            assert(s[i + 3] == w[3]);
            assert(s[i + 4] == w[4]);
            assert(s[i + 5] == w[5]);
            let high = c as int / 16;
            let low = c as int % 16;
            assert(0 <= high < 2);
            assert(hex_value(hex_digit(high)) == Some(high));
            assert(hex_value(hex_digit(low)) == Some(low));
            assert(hex_value('0') == Some(0int));
            assert(hex4_at(s, i + 2) == Some(c as int));
        }
    }
}

/// An escaped run of characters and a closing quote are read back as that
/// run.
pub proof fn chars_round_trip(s: Seq<char>, i: int, v: Seq<char>)
    requires
        has_at(s, i, escape(v) + seq!['"']),
    ensures
        chars_at(s, i) == Some((v, i + escape(v).len() + 1)),
    decreases v.len(),
{
    let close = seq!['"'];
    if v.len() == 0 {
        assert(s[i + 0] == (escape(v) + close)[0]);
        assert(v =~= Seq::<char>::empty());
    } else {
        let c = v[0];
        let rest = v.skip(1);
        assert(escape(v) + close =~= escape_char(c) + (escape(rest) + close));
        has_at_split(s, i, escape_char(c), escape(rest) + close);
        escape_char_reads(s, i, c);
        chars_round_trip(s, i + escape_char(c).len(), rest);
        assert(seq![c] + rest =~= v);
    }
}

/// A written string is read back as that string.
pub proof fn string_round_trip(s: Seq<char>, i: int, v: Seq<char>)
    requires
        has_at(s, i, quote(v)),
    ensures
        string_at(s, i) == Some((v, i + quote(v).len())),
        string_token(s, i) == Some((v, i + quote(v).len())),
{
    let open = seq!['"'];
    assert(quote(v) =~= open + (escape(v) + seq!['"']));
    has_at_split(s, i, open, escape(v) + seq!['"']);
    assert(s[i + 0] == open[0]);
    chars_round_trip(s, i + 1, v);
}

/// The written form of a number is a run of digits that begins with `0`
/// only for the number zero.
pub proof fn decimal_digits(n: nat)
    ensures
        decimal(n).len() >= 1,
        forall|k: int| 0 <= k < decimal(n).len() ==> is_digit(#[trigger] decimal(n)[k]),
        (decimal(n)[0] == '0') <==> n == 0,
    decreases n,
{
    if n >= 10 {
        decimal_digits(n / 10);
        assert(decimal(n)[0] == decimal(n / 10)[0]);
    }
}

/// The digits of a number write that number.
pub proof fn decimal_value(n: nat)
    ensures
        digits_value(decimal(n)) == n,
    decreases n,
{
    if n < 10 {
        assert(decimal(n).drop_last() =~= Seq::<char>::empty());
        assert(digits_value(decimal(n).drop_last()) == 0);
    } else {
        decimal_value(n / 10);
        assert(decimal(n).drop_last() =~= decimal(n / 10));
    }
}

/// A written number that no digit follows is read back as that number.
pub proof fn number_round_trip(s: Seq<char>, i: int, n: u32)
    requires
        has_at(s, i, decimal(n as nat)),
        i + decimal(n as nat).len() < s.len() ==> !is_digit(s[i + decimal(n as nat).len()]),
    ensures
        number_at(s, i) == Some((n, i + decimal(n as nat).len())),
        number_token(s, i) == Some((n, i + decimal(n as nat).len())),
{
    let d = decimal(n as nat);
    let j = i + d.len();
    decimal_digits(n as nat);
    decimal_value(n as nat);
    assert(s[i + 0] == d[0]);
    assert forall|k: int| i <= k < j implies is_digit(#[trigger] s[k]) by {
        assert(s[i + (k - i)] == d[k - i]);
    }
    digits_end_is(s, i, j);
    assert(s.subrange(i, j) =~= d) by {
        assert forall|k: int| 0 <= k < d.len() implies s.subrange(i, j)[k] == d[k] by {
            assert(s[i + k] == d[k]);
        }
    }
}

} // verus!
