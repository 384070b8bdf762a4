//! Reading JSON tokens from a byte cursor.

use vstd::prelude::*;
use vstd::string::StringSliceAdditionalSpecFns;
use vstd::utf8::{decode_utf8, valid_utf8};
use crate::error::Error;

verus! {

/// A cursor over bytes.
pub struct ByteIterator {
    bytes: Vec<u8>,
    position: usize,
}

/// Whether `b` is JSON whitespace.
pub open spec fn is_whitespace(b: u8) -> bool {
    b == 0x20 || b == 0x09 || b == 0x0a || b == 0x0d
}

/// The first position from `i` on that holds no whitespace.
pub open spec fn skip_ws(s: Seq<u8>, i: int) -> int
    decreases s.len() - i,
{
    if i >= s.len() || !is_whitespace(s[i]) {
        i
    } else {
        skip_ws(s, i + 1)
    }
}

impl ByteIterator {
    /// The bytes.
    pub closed spec fn bytes(&self) -> Seq<u8> {
        self.bytes@
    }

    /// The position of the next byte.
    pub closed spec fn pos(&self) -> int {
        self.position as int
    }

    /// The position lies within the bytes or just past them.
    pub closed spec fn wf(&self) -> bool {
        self.position <= self.bytes@.len()
    }

    /// A cursor at the first of `bytes`.
    pub fn new(bytes: Vec<u8>) -> (r: ByteIterator)
        ensures
            r.wf(),
            r.bytes() == bytes@,
            r.pos() == 0,
    {
        ByteIterator { bytes, position: 0 }
    }

    /// Whether the position lies within the bytes or just past them.
    pub fn is_consistent(&self) -> (r: bool)
        ensures
            r == self.wf(),
    {
        self.position <= self.bytes.len()
    }

    /// The number of bytes.
    pub fn byte_len(&self) -> (r: usize)
        ensures
            r == self.bytes().len(),
    {
        self.bytes.len()
    }

    /// The position of the next byte.
    pub fn position(&self) -> (r: usize)
        ensures
            r == self.pos(),
    {
        self.position
    }

    /// The next byte, if any, without moving on.
    pub fn peek_byte(&self) -> (r: Option<u8>)
        requires
            self.wf(),
        ensures
            self.pos() < self.bytes().len() ==> r == Some(self.bytes()[self.pos()]),
            self.pos() >= self.bytes().len() ==> r is None,
    {
        if self.position < self.bytes.len() {
            Some(self.bytes[self.position])
        } else {
            None
        }
    }

    /// The next byte without moving on; fails at the end.
    pub fn get_peek_byte(&self) -> (r: Result<u8, Error>)
        requires
            self.wf(),
        ensures
            self.pos() < self.bytes().len() ==> r == Ok::<u8, Error>(self.bytes()[self.pos()]),
            self.pos() >= self.bytes().len() ==> r == Err::<u8, Error>(Error::JsonError),
    {
        match self.peek_byte() {
            Some(b) => Ok(b),
            None => Err(Error::JsonError),
        }
    }

    /// Moves past the next byte, if any.
    pub fn skip_byte(&mut self)
        requires
            old(self).wf(),
        ensures
            final(self).wf(),
            final(self).bytes() == old(self).bytes(),
            final(self).pos() == if old(self).pos() < old(self).bytes().len() {
                old(self).pos() + 1
            } else {
                old(self).pos()
            },
    {
        if self.position < self.bytes.len() {
            self.position += 1;
        }
    }

    /// The next byte, moving past it; fails at the end.
    pub fn get_next_byte(&mut self) -> (r: Result<u8, Error>)
        requires
            old(self).wf(),
        ensures
            final(self).wf(),
            final(self).bytes() == old(self).bytes(),
            old(self).pos() < old(self).bytes().len() ==> r == Ok::<u8, Error>(
                old(self).bytes()[old(self).pos()],
            ) && final(self).pos() == old(self).pos() + 1,
            old(self).pos() >= old(self).bytes().len() ==> r == Err::<u8, Error>(Error::JsonError)
                && final(self).pos() == old(self).pos(),
    {
        let r = self.get_peek_byte();
        self.skip_byte();
        r
    }

    /// Moves past whitespace.
    pub fn skip_whitespace(&mut self)
        requires
            old(self).wf(),
        ensures
            final(self).wf(),
            final(self).bytes() == old(self).bytes(),
            final(self).pos() == skip_ws(old(self).bytes(), old(self).pos()),
            final(self).pos() >= old(self).pos(),
    {
        while self.position < self.bytes.len() && (self.bytes[self.position] == 0x20
            || self.bytes[self.position] == 0x09 || self.bytes[self.position] == 0x0a
            || self.bytes[self.position] == 0x0d)
            invariant
                self.wf(),
                self.bytes() == old(self).bytes(),
                skip_ws(self.bytes(), self.pos()) == skip_ws(old(self).bytes(), old(self).pos()),
                self.pos() >= old(self).pos(),
            decreases self.bytes@.len() - self.position,
        {
            self.position += 1;
        }
    }
}

/// The bytes of `s` from `i` on start with `t`.
pub open spec fn starts_with_at(s: Seq<u8>, i: int, t: Seq<u8>) -> bool {
    i + t.len() <= s.len() && s.subrange(i, i + t.len()) == t
}

/// Reads the bytes of `text`; fails at the first byte that differs.
pub fn parse_tag(iter: &mut ByteIterator, text: &str) -> (r: Result<(), Error>)
    requires
        old(iter).wf(),
    ensures
        final(iter).wf(),
        final(iter).bytes() == old(iter).bytes(),
        r is Ok <==> starts_with_at(old(iter).bytes(), old(iter).pos(), text.spec_bytes()),
        r is Ok ==> final(iter).pos() == old(iter).pos() + text.spec_bytes().len(),
        r matches Err(e) ==> e == Error::JsonError,
{
    let t = text.as_bytes();
    let start = iter.position();
    let mut i: usize = 0;
    proof {
        assert(iter.bytes().subrange(start as int, start as int) =~= t@.subrange(0, 0));
    }
    while i < t.len()
        invariant
            iter.wf(),
            iter.bytes() == old(iter).bytes(),
            start == old(iter).pos(),
            t@ == text.spec_bytes(),
            0 <= i <= t@.len(),
            iter.pos() == start + i,
            starts_with_at(iter.bytes(), start as int, t@.subrange(0, i as int)),
        decreases t@.len() - i,
    {
        let b = iter.get_next_byte();
        match b {
            Ok(b) => {
                if b != t[i] {
                    proof {
                        let s = old(iter).bytes();
                        if start + t@.len() <= s.len() {
                            assert(s.subrange(start as int, start + t@.len())[i as int] == b);
                        }
                    }
                    return Err(Error::JsonError);
                }
            },
            Err(e) => {
                return Err(e);
            },
        }
        proof {
            let s = iter.bytes();
            assert(s.subrange(start as int, start + i + 1) =~= s.subrange(start as int, start + i).push(s[start + i]));
            assert(t@.subrange(0, i + 1) =~= t@.subrange(0, i as int).push(t@[i as int]));
        }
        i += 1;
    }
    proof {
        assert(t@.subrange(0, t@.len() as int) =~= t@);
    }
    Ok(())
}

/// The byte may be part of a number.
pub open spec fn is_number_byte(b: u8) -> bool {
    (0x30 <= b <= 0x39) || b == 0x2d || b == 0x2e
}

/// The first position from `i` on that holds no number byte.
pub open spec fn number_end(s: Seq<u8>, i: int) -> int
    decreases s.len() - i,
{
    if i >= s.len() || !is_number_byte(s[i]) {
        i
    } else {
        number_end(s, i + 1)
    }
}

/// The characters of ASCII bytes.
pub open spec fn ascii_chars(s: Seq<u8>) -> Seq<char> {
    s.map_values(|b: u8| b as char)
}

/// Relies on `String::push`: the character is appended.
#[verifier::external_body]
pub(crate) fn push_char(s: &mut String, c: char)
    ensures
        final(s)@ == old(s)@.push(c),
{
    s.push(c);
}

/// Reads the longest run of digits, minus signs and dots, as text.
pub fn parse_number_as_string(iter: &mut ByteIterator) -> (r: Result<String, Error>)
    requires
        old(iter).wf(),
    ensures
        final(iter).wf(),
        final(iter).bytes() == old(iter).bytes(),
        final(iter).pos() == number_end(old(iter).bytes(), old(iter).pos()),
        r matches Ok(t) && t@ == ascii_chars(
            old(iter).bytes().subrange(old(iter).pos(), final(iter).pos()),
        ),
{
    let mut number = String::new();
    let start = iter.position();
    loop
        invariant
            iter.wf(),
            iter.bytes() == old(iter).bytes(),
            start == old(iter).pos(),
            start <= iter.pos(),
            number_end(iter.bytes(), iter.pos()) == number_end(old(iter).bytes(), old(iter).pos()),
            number@ == ascii_chars(iter.bytes().subrange(start as int, iter.pos())),
        ensures
            iter.pos() == number_end(old(iter).bytes(), old(iter).pos()),
        decreases iter.bytes().len() - iter.pos(),
    {
        match iter.peek_byte() {
            Some(c) => {
                if (0x30 <= c && c <= 0x39) || c == 0x2d || c == 0x2e {
                    let ghost p = iter.pos();
                    push_char(&mut number, c as char);
                    iter.skip_byte();
                    proof {
                        let s = iter.bytes();
                        assert(s.subrange(start as int, p + 1) =~= s.subrange(start as int, p).push(s[p]));
                        assert(ascii_chars(s.subrange(start as int, p + 1)) =~= ascii_chars(
                            s.subrange(start as int, p),
                        ).push(s[p] as char));
                    }
                } else {
                    proof {
                        assert(number_end(iter.bytes(), iter.pos()) == iter.pos());
                    }
                    break;
                }
            },
            None => {
                proof {
                    assert(number_end(iter.bytes(), iter.pos()) == iter.pos());
                }
                break;
            },
        }
    }
    Ok(number)
}

/// Relies on `String::from_utf8`: it succeeds exactly on valid UTF-8, and then holds the
/// characters that the bytes encode.
#[verifier::external_body]
pub(crate) fn string_from_utf8(bytes: Vec<u8>) -> (r: Option<String>)
    ensures
        r is Some <==> valid_utf8(bytes@),
        r matches Some(s) ==> s@ == decode_utf8(bytes@),
{
    match String::from_utf8(bytes) {
        Ok(s) => Some(s),
        Err(_) => None,
    }
}

/// The value of a hexadecimal digit, if `b` is one.
pub open spec fn hex_value(b: u8) -> Option<nat> {
    if 0x30 <= b <= 0x39 {
        Some((b - 0x30) as nat)
    } else if 0x61 <= b <= 0x66 {
        Some((b - 0x61 + 10) as nat)
    } else if 0x41 <= b <= 0x46 {
        Some((b - 0x41 + 10) as nat)
    } else {
        None
    }
}

/// The value of the hexadecimal digits `s[i..j]`, if they all are digits.
pub open spec fn hex_run(s: Seq<u8>, i: int, j: int) -> Option<nat>
    decreases j - i,
{
    if j <= i {
        Some(0)
    } else {
        match (hex_run(s, i, j - 1), hex_value(s[j - 1])) {
            (Some(a), Some(d)) => Some(a * 16 + d),
            _ => None,
        }
    }
}

/// The code point that the four bytes from `i` on give as an unsigned hexadecimal
/// number, with an optional leading plus sign.
pub open spec fn hex4(s: Seq<u8>, i: int) -> Option<nat> {
    if s[i] == 0x2b {
        hex_run(s, i + 1, i + 4)
    } else {
        hex_run(s, i, i + 4)
    }
}

/// The UTF-8 encoding of a code point below 0x10000.
pub open spec fn utf8_of(cp: nat) -> Seq<u8> {
    if cp < 0x80 {
        seq![cp as u8]
    } else if cp < 0x800 {
        seq![(0xc0 + cp / 64) as u8, (0x80 + cp % 64) as u8]
    } else {
        seq![(0xe0 + cp / 4096) as u8, (0x80 + (cp / 64) % 64) as u8, (0x80 + cp % 64) as u8]
    }
}

/// The byte that the escape `\e` stands for.
pub open spec fn unescaped(e: u8) -> u8 {
    if e == 0x62 {
        0x08
    } else if e == 0x66 {
        0x0c
    } else if e == 0x6e {
        0x0a
    } else if e == 0x72 {
        0x0d
    } else if e == 0x74 {
        0x09
    } else {
        e
    }
}

/// The bytes of a quoted string whose content starts at `i`, with its escapes resolved,
/// and the position after its closing quote; none where it is malformed or unterminated.
pub open spec fn quoted(s: Seq<u8>, i: int) -> Option<(Seq<u8>, int)>
    decreases s.len() - i,
{
    if i < 0 || i >= s.len() {
        None
    } else if s[i] == 0x22 {
        Some((Seq::empty(), i + 1))
    } else if s[i] == 0x5c {
        if i + 1 >= s.len() {
            None
        } else if s[i + 1] == 0x75 {
            if i + 6 > s.len() {
                None
            } else {
                match hex4(s, i + 2) {
                    Some(cp) => if 0xd800 <= cp <= 0xdfff {
                        None
                    } else {
                        match quoted(s, i + 6) {
                            Some((r, e)) => Some((utf8_of(cp) + r, e)),
                            None => None,
                        }
                    },
                    None => None,
                }
            }
        } else {
            match quoted(s, i + 2) {
                Some((r, e)) => Some((seq![unescaped(s[i + 1])] + r, e)),
                None => None,
            }
        }
    } else {
        match quoted(s, i + 1) {
            Some((r, e)) => Some((seq![s[i]] + r, e)),
            None => None,
        }
    }
}

/// What the rest of a quoted string gives, after `acc` was read.
pub open spec fn with_prefix(acc: Seq<u8>, q: Option<(Seq<u8>, int)>) -> Option<(Seq<u8>, int)> {
    match q {
        Some((r, e)) => Some((acc + r, e)),
        None => None,
    }
}

fn hex_digit(b: u8) -> (r: Option<u32>)
    ensures
        match hex_value(b) {
            Some(v) => r == Some(v as u32),
            None => r is None,
        },
{
    if 0x30 <= b && b <= 0x39 {
        Some((b - 0x30) as u32)
    } else if 0x61 <= b && b <= 0x66 {
        Some((b - 0x61 + 10) as u32)
    } else if 0x41 <= b && b <= 0x46 {
        Some((b - 0x41 + 10) as u32)
    } else {
        None
    }
}

spec fn pow16(n: nat) -> nat
    decreases n,
{
    if n == 0 {
        1
    } else {
        16 * pow16((n - 1) as nat)
    }
}

proof fn lemma_pow16_small(n: nat)
    requires
        n <= 4,
    ensures
        1 <= pow16(n) <= 0x10000,
{
    reveal_with_fuel(pow16, 5);
}

fn parse_hex_run(s: &Vec<u8>, i: usize, j: usize) -> (r: Option<u32>)
    requires
        i <= j <= s@.len(),
        j - i <= 4,
    ensures
        match hex_run(s@, i as int, j as int) {
            Some(v) => r == Some(v as u32) && v < 0x10000,
            None => r is None,
        },
{
    let mut v: u32 = 0;
    let mut k: usize = i;
    while k < j
        invariant
            i <= k <= j <= s@.len(),
            j - i <= 4,
            hex_run(s@, i as int, k as int) == Some(v as nat),
            v < pow16((k - i) as nat),
        decreases j - k,
    {
        proof {
            lemma_pow16_small((k - i) as nat);
            lemma_pow16_small((k - i + 1) as nat);
            assert(pow16((k - i + 1) as nat) == 16 * pow16((k - i) as nat));
        }
        match hex_digit(s[k]) {
            Some(d) => {
                proof {
                    let p = pow16((k - i) as nat);
                    assert(v * 16 + d < 16 * p) by (nonlinear_arith)
                        requires
                            v < p,
                            d < 16,
                    ;
                }
                v = v * 16 + d;
            },
            None => {
                proof {
                    lemma_hex_run_none(s@, i as int, k as int, j as int);
                }
                return None;
            },
        }
        k += 1;
    }
    proof {
        lemma_pow16_small((j - i) as nat);
    }
    Some(v)
}

proof fn lemma_hex_run_none(s: Seq<u8>, i: int, k: int, j: int)
    requires
        i <= k < j,
        hex_value(s[k]) is None,
    ensures
        hex_run(s, i, j) is None,
    decreases j - k,
{
    if j - 1 > k {
        lemma_hex_run_none(s, i, k, j - 1);
    }
}

/// Reads the escape whose backslash stands at `p`, the position before the cursor, and
/// appends the bytes it stands for.
fn read_escape(iter: &mut ByteIterator, bytes: &mut Vec<u8>, Ghost(p): Ghost<int>) -> (r: Result<
    (),
    Error,
>)
    requires
        old(iter).wf(),
        0 <= p < old(iter).bytes().len(),
        old(iter).bytes()[p] == 0x5c,
        old(iter).pos() == p + 1,
    ensures
        final(iter).wf(),
        final(iter).bytes() == old(iter).bytes(),
        r is Ok ==> with_prefix(final(bytes)@, quoted(final(iter).bytes(), final(iter).pos()))
            == with_prefix(old(bytes)@, quoted(old(iter).bytes(), p)),
        r is Ok ==> final(iter).pos() > p,
        r is Err ==> quoted(old(iter).bytes(), p) is None,
        r matches Err(e) ==> e == Error::JsonError,
{
    let ghost s = iter.bytes();
    let e = iter.get_next_byte()?;
    if e == 0x75 {
        if iter.bytes.len() - iter.position < 4 {
            return Err(Error::JsonError);
        }
        let q = iter.position;
        let cp = if iter.bytes[q] == 0x2b {
            parse_hex_run(&iter.bytes, q + 1, q + 4)
        } else {
            parse_hex_run(&iter.bytes, q, q + 4)
        };
        let cp = match cp {
            Some(cp) => cp,
            None => {
                return Err(Error::JsonError);
            },
        };
        if 0xd800 <= cp && cp <= 0xdfff {
            return Err(Error::JsonError);
        }
        iter.position = q + 4;
        let ghost before = bytes@;
        if cp < 0x80 {
            bytes.push(cp as u8);
        } else if cp < 0x800 {
            bytes.push((0xc0 + cp / 64) as u8);
            bytes.push((0x80 + cp % 64) as u8);
        } else {
            bytes.push((0xe0 + cp / 4096) as u8);
            bytes.push((0x80 + (cp / 64) % 64) as u8);
            bytes.push((0x80 + cp % 64) as u8);
        }
        proof {
            assert(bytes@ =~= before + utf8_of(cp as nat));
            match quoted(s, p + 6) {
                Some((r, e2)) => {
                    assert(bytes@ + r =~= before + (utf8_of(cp as nat) + r));
                },
                None => {},
            }
        }
    } else {
        let ghost before = bytes@;
        let b = if e == 0x62 {
            0x08
        } else if e == 0x66 {
            0x0c
        } else if e == 0x6e {
            0x0a
        } else if e == 0x72 {
            0x0d
        } else if e == 0x74 {
            0x09
        } else {
            e
        };
        bytes.push(b);
        proof {
            match quoted(s, p + 2) {
                Some((r, e2)) => {
                    assert(bytes@ + r =~= before + (seq![unescaped(e)] + r));
                },
                None => {},
            }
        }
    }
    Ok(())
}

/// Reads a quoted string, after optional whitespace: its escapes are resolved (`\uXXXX`
/// gives the UTF-8 bytes of that code point) and the bytes must form valid UTF-8.
pub fn parse_quoted_json_string(iter: &mut ByteIterator) -> (r: Result<String, Error>)
    requires
        old(iter).wf(),
    ensures
        final(iter).wf(),
        final(iter).bytes() == old(iter).bytes(),
        ({
            let s = old(iter).bytes();
            let j = skip_ws(s, old(iter).pos());
            &&& r is Ok <==> (j < s.len() && s[j] == 0x22 && quoted(s, j + 1) is Some && valid_utf8(
                quoted(s, j + 1)->Some_0.0,
            ))
            &&& r matches Ok(t) ==> t@ == decode_utf8(quoted(s, j + 1)->Some_0.0) && final(iter).pos()
                == quoted(s, j + 1)->Some_0.1
        }),
        r is Ok ==> final(iter).pos() > old(iter).pos(),
        r matches Err(e) ==> e == Error::JsonError,
{
    iter.skip_whitespace();
    let ghost s = iter.bytes();
    let ghost j = iter.pos();
    if iter.get_next_byte()? != 0x22 {
        return Err(Error::JsonError);
    }
    let mut bytes: Vec<u8> = Vec::new();
    proof {
        assert(with_prefix(bytes@, quoted(s, iter.pos())) =~= quoted(s, j + 1)) by {
            match quoted(s, j + 1) {
                Some((r, e)) => {
                    assert(bytes@ + r =~= r);
                },
                None => {},
            }
        }
    }
    loop
        invariant_except_break
            with_prefix(bytes@, quoted(s, iter.pos())) == quoted(s, j + 1),
        invariant
            iter.wf(),
            iter.bytes() == s,
            s == old(iter).bytes(),
            j == skip_ws(s, old(iter).pos()),
            j < s.len() && s[j] == 0x22,
            j >= old(iter).pos(),
            iter.pos() > j,
        ensures
            quoted(s, j + 1) == Some((bytes@, iter.pos() as int)),
        decreases s.len() - iter.pos(),
    {
        let ghost p = iter.pos();
        let c = match iter.get_next_byte() {
            Ok(c) => c,
            Err(e) => {
                return Err(e);
            },
        };
        if c == 0x22 {
            proof {
                assert(bytes@ + Seq::<u8>::empty() =~= bytes@);
            }
            break;
        } else if c == 0x5c {
            read_escape(iter, &mut bytes, Ghost(p))?;
        } else {
            let ghost before = bytes@;
            bytes.push(c);
            proof {
                match quoted(s, p + 1) {
                    Some((r, e2)) => {
                        assert(bytes@ + r =~= before + (seq![c] + r));
                    },
                    None => {},
                }
            }
        }
    }
    match string_from_utf8(bytes) {
        Some(t) => Ok(t),
        None => Err(Error::JsonError),
    }
}

/// Reads the value of one entry of a JSON array (without key) or object (with its key);
/// the caller implements it.
pub trait JsonValueParser {
    fn parse_value(&mut self, key: Option<String>, iter: &mut ByteIterator) -> Result<(), Error>;
}

/// Runs the value parser, then checks that the cursor is still consistent, over the same
/// number of bytes, and has not moved back.
fn run_value_parser<P: JsonValueParser>(
    parser: &mut P,
    key: Option<String>,
    iter: &mut ByteIterator,
) -> (r: Result<(), Error>)
    requires
        old(iter).wf(),
    ensures
        final(iter).wf(),
        r is Ok ==> final(iter).bytes().len() == old(iter).bytes().len() && final(iter).pos()
            >= old(iter).pos(),
{
    let len = iter.byte_len();
    let before = iter.position();
    let r = parser.parse_value(key, iter);
    if !iter.is_consistent() {
        *iter = ByteIterator::new(Vec::new());
        return Err(Error::JsonError);
    }
    r?;
    if iter.byte_len() != len || iter.position() < before {
        return Err(Error::JsonError);
    }
    Ok(())
}

/// Reads a JSON array after optional whitespace, handing each entry to `parser`. Fails
/// with `JsonError` where the brackets or commas are wrong, or where the parser leaves
/// the cursor inconsistent or moves it back; passes on the parser's own errors.
pub fn parse_array_entries<P: JsonValueParser>(iter: &mut ByteIterator, parser: &mut P) -> (r:
    Result<(), Error>)
    requires
        old(iter).wf(),
    ensures
        final(iter).wf(),
        ({
            let s = old(iter).bytes();
            let j = skip_ws(s, old(iter).pos());
            !(j < s.len() && s[j] == 0x5b) ==> r == Err::<(), Error>(Error::JsonError)
        }),
        r is Ok ==> final(iter).pos() > 0 && final(iter).bytes()[final(iter).pos() - 1] == 0x5d,
{
    iter.skip_whitespace();
    if iter.get_next_byte()? != 0x5b {
        return Err(Error::JsonError);
    }
    loop
        invariant
            iter.wf(),
            skip_ws(old(iter).bytes(), old(iter).pos()) < old(iter).bytes().len() && old(
                iter,
            ).bytes()[skip_ws(old(iter).bytes(), old(iter).pos())] == 0x5b,
        decreases iter.bytes().len() - iter.pos(),
    {
        iter.skip_whitespace();
        if iter.get_peek_byte()? == 0x5d {
            iter.skip_byte();
            return Ok(());
        }
        let ghost len = iter.bytes().len();
        let ghost before = iter.pos();
        run_value_parser(parser, None, iter)?;
        iter.skip_whitespace();
        let c = iter.get_peek_byte()?;
        if c == 0x2c {
            iter.skip_byte();
        } else if c == 0x5d {
            iter.skip_byte();
            return Ok(());
        } else {
            return Err(Error::JsonError);
        }
    }
}

/// Reads a JSON object after optional whitespace, handing each key, with the cursor at
/// its value, to `parser`. Fails with `JsonError` where the braces, keys, colons or
/// commas are wrong, or where the parser leaves the cursor inconsistent or moves it
/// back; passes on the parser's own errors.
pub fn parse_object_entries<P: JsonValueParser>(iter: &mut ByteIterator, parser: &mut P) -> (r:
    Result<(), Error>)
    requires
        old(iter).wf(),
    ensures
        final(iter).wf(),
        ({
            let s = old(iter).bytes();
            let j = skip_ws(s, old(iter).pos());
            !(j < s.len() && s[j] == 0x7b) ==> r == Err::<(), Error>(Error::JsonError)
        }),
        r is Ok ==> final(iter).pos() > 0 && final(iter).bytes()[final(iter).pos() - 1] == 0x7d,
{
    iter.skip_whitespace();
    if iter.get_next_byte()? != 0x7b {
        return Err(Error::JsonError);
    }
    loop
        invariant
            iter.wf(),
            skip_ws(old(iter).bytes(), old(iter).pos()) < old(iter).bytes().len() && old(
                iter,
            ).bytes()[skip_ws(old(iter).bytes(), old(iter).pos())] == 0x7b,
        decreases iter.bytes().len() - iter.pos(),
    {
        iter.skip_whitespace();
        let c = iter.get_peek_byte()?;
        if c == 0x7d {
            iter.skip_byte();
            return Ok(());
        }
        if c != 0x22 {
            return Err(Error::JsonError);
        }
        let ghost len = iter.bytes().len();
        let ghost before = iter.pos();
        let key = parse_quoted_json_string(iter)?;
        iter.skip_whitespace();
        if iter.get_peek_byte()? != 0x3a {
            return Err(Error::JsonError);
        }
        iter.skip_byte();
        iter.skip_whitespace();
        run_value_parser(parser, Some(key), iter)?;
        iter.skip_whitespace();
        let c = iter.get_peek_byte()?;
        if c == 0x2c {
            iter.skip_byte();
        } else if c == 0x7d {
            iter.skip_byte();
            return Ok(());
        } else {
            return Err(Error::JsonError);
        }
    }
}

} // verus!
