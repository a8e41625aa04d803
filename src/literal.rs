//! Values of literal tokens.
use vstd::prelude::*;
use vstd::utf8::{encode_utf8, valid_utf8};

use crate::lexicon::{is_digit, Base, LiteralKind, TokenKind};
use crate::pairing::TokenPair;
use crate::value::HugValue;

verus! {

/// Relies on std::str::from_utf8: it accepts exactly the well-formed UTF-8
/// byte sequences, and the text it returns encodes back to those bytes.
#[verifier::external_body]
pub(crate) fn text_of(bytes: &[u8]) -> (r: Option<String>)
    ensures
        r is Some <==> valid_utf8(bytes@),
        r matches Some(s) ==> encode_utf8(s@) == bytes@,
{
    std::str::from_utf8(bytes).ok().map(|s| s.to_string())
}

pub open spec fn radix(base: Base) -> int {
    match base {
        Base::Binary => 2,
        Base::Octal => 8,
        Base::Hexadecimal => 16,
        Base::Decimal => 10,
    }
}

/// The value of one digit byte (0 for a byte that is no digit).
pub open spec fn digit_value(b: u8) -> int {
    if is_digit(b) {
        b - 0x30
    } else if 0x61 <= b && b <= 0x66 {
        b - 0x61 + 10
    } else if 0x41 <= b && b <= 0x46 {
        b - 0x41 + 10
    } else {
        0
    }
}

/// The number that the digits `ds` write in `radix`; `_` separators are skipped.
pub open spec fn digits_value(ds: Seq<u8>, radix: int) -> int
    decreases ds.len(),
{
    if ds.len() == 0 {
        0
    } else if ds.last() == 0x5f {
        digits_value(ds.drop_last(), radix)
    } else {
        digits_value(ds.drop_last(), radix) * radix + digit_value(ds.last())
    }
}

/// The digits of an integer literal: what follows its base prefix.
pub open spec fn literal_digits(text: Seq<u8>, base: Base) -> Seq<u8> {
    if base == Base::Decimal {
        text
    } else {
        text.subrange(2, text.len() as int)
    }
}

/// The value of an integer literal, when it fits in an `Int32`.
pub open spec fn integer_literal(text: Seq<u8>, base: Base) -> Option<HugValue> {
    let v = digits_value(literal_digits(text, base), radix(base));
    if (base == Base::Decimal || text.len() >= 2) && v <= i32::MAX {
        Some(HugValue::Int32(v as i32))
    } else {
        None
    }
}

/// The bytes between the delimiters of a quoted literal: `lead` bytes before
/// (the quote, or `f` and the quote) and the closing quote after.
pub open spec fn quoted_body(text: Seq<u8>, lead: int) -> Option<Seq<u8>> {
    if text.len() >= lead + 1 {
        Some(text.subrange(lead, text.len() - 1))
    } else {
        None
    }
}

/// The string value of a quoted literal's body, when it is well-formed UTF-8.
pub open spec fn quoted_text_ok(text: Seq<u8>, lead: int, r: Option<HugValue>) -> bool {
    match quoted_body(text, lead) {
        Some(body) => if valid_utf8(body) {
            r matches Some(HugValue::String(s)) && encode_utf8(s@) == body
        } else {
            r is None
        },
        None => r is None,
    }
}

proof fn lemma_digits_value_nonneg(ds: Seq<u8>, radix: int)
    requires
        radix >= 2,
    ensures
        digits_value(ds, radix) >= 0,
    decreases ds.len(),
{
    if ds.len() > 0 {
        lemma_digits_value_nonneg(ds.drop_last(), radix);
        let v = digits_value(ds.drop_last(), radix);
        assert(v * radix >= 0) by (nonlinear_arith)
            requires
                v >= 0,
                radix >= 2,
        ;
    }
}

/// The value of the digits `s[start..end]` if it is at most `i32::MAX`.
fn digits_in_range(s: &[u8], start: usize, end: usize, base: Base) -> (r: Option<u64>)
    requires
        start <= end <= s@.len(),
    ensures
        ({
            let v = digits_value(s@.subrange(start as int, end as int), radix(base));
            &&& r matches Some(n) ==> n == v && v <= i32::MAX
            &&& r is None ==> v > i32::MAX
        }),
{
    let rad: u64 = match base {
        Base::Binary => 2,
        Base::Octal => 8,
        Base::Hexadecimal => 16,
        Base::Decimal => 10,
    };
    let mut acc: u64 = 0;
    let mut i: usize = start;
    while i < end
        invariant
            start <= i <= end <= s@.len(),
            rad == radix(base),
            acc == digits_value(s@.subrange(start as int, i as int), radix(base)),
            acc <= i32::MAX,
        decreases end - i,
    {
        let b = s[i];
        let ghost prefix = s@.subrange(start as int, i as int);
        assert(s@.subrange(start as int, i + 1).drop_last() =~= prefix);
        if b != 0x5f {
            let d: u64 = if 0x30 <= b && b <= 0x39 {
                (b - 0x30) as u64
            } else if 0x61 <= b && b <= 0x66 {
                (b - 0x61 + 10) as u64
            } else if 0x41 <= b && b <= 0x46 {
                (b - 0x41 + 10) as u64
            } else {
                0
            };
            assert(acc * rad <= 16 * 0x7fff_ffffu64) by (nonlinear_arith)
                requires
                    acc <= 0x7fff_ffff,
                    rad <= 16,
            ;
            acc = acc * rad + d;
            if acc > 0x7fff_ffff {
                proof {
                    lemma_digits_grow(s@.subrange(start as int, end as int), i - start + 1, radix(base));
                    assert(s@.subrange(start as int, end as int).take(i - start + 1) =~= s@.subrange(start as int, i + 1));
                }
                return None;
            }
        }
        i = i + 1;
    }
    Some(acc)
}

/// A longer run of digits never has a smaller value.
proof fn lemma_digits_grow(ds: Seq<u8>, k: int, radix: int)
    requires
        0 <= k <= ds.len(),
        radix >= 2,
    ensures
        digits_value(ds, radix) >= digits_value(ds.take(k), radix),
    decreases ds.len() - k,
{
    if k < ds.len() {
        lemma_digits_grow(ds, k + 1, radix);
        assert(ds.take(k + 1).drop_last() =~= ds.take(k));
        lemma_digits_value_nonneg(ds.take(k), radix);
        let v = digits_value(ds.take(k), radix);
        let d = digit_value(ds[k]);
        assert(v * radix + d >= v) by (nonlinear_arith)
            requires
                v >= 0,
                d >= 0,
                radix >= 2,
        ;
    } else {
        assert(ds.take(k) =~= ds);
    }
}

fn quoted_text(text: &[u8], lead: usize) -> (r: Option<HugValue>)
    requires
        lead <= 2,
    ensures
        quoted_text_ok(text@, lead as int, r),
{
    if text.len() < lead + 1 {
        return None;
    }
    let body = vstd::slice::slice_subrange(text, lead, text.len() - 1);
    match text_of(body) {
        Some(s) => Some(HugValue::String(s)),
        None => None,
    }
}

/// Whether the literal token `kind` over `text` has a value.
pub open spec fn literal_has_value(kind: TokenKind, text: Seq<u8>) -> bool {
    match kind {
        TokenKind::Literal(LiteralKind::Integer(base)) => integer_literal(text, base) is Some,
        TokenKind::Literal(LiteralKind::String) | TokenKind::Literal(LiteralKind::Char) => (
        quoted_body(text, 1) matches Some(b) && valid_utf8(b)),
        TokenKind::Literal(LiteralKind::FormatString) => (quoted_body(text, 2) matches Some(b)
            && valid_utf8(b)),
        _ => false,
    }
}

/// Whether `v` is the value of the literal token `kind` over `text`.
pub open spec fn literal_is(kind: TokenKind, text: Seq<u8>, v: HugValue) -> bool {
    match kind {
        TokenKind::Literal(LiteralKind::Integer(base)) => integer_literal(text, base) == Some(v),
        TokenKind::Literal(LiteralKind::String) | TokenKind::Literal(LiteralKind::Char) =>
            quoted_text_ok(text, 1, Some(v)),
        TokenKind::Literal(LiteralKind::FormatString) => quoted_text_ok(text, 2, Some(v)),
        _ => false,
    }
}

impl<'a> TokenPair<'a> {
    /// The value that a literal token writes: an `Int32` for an integer that
    /// fits, the text between the quotes for a string, format string or
    /// character. `None` for other tokens and for literals without a value
    /// here (floats, booleans, raw strings, integers out of range).
    pub fn parse_literal(&self) -> (r: Option<HugValue>)
        ensures
            match self.token.kind {
                TokenKind::Literal(LiteralKind::Integer(base)) => r == integer_literal(
                    self.text@,
                    base,
                ),
                TokenKind::Literal(LiteralKind::String) => quoted_text_ok(self.text@, 1, r),
                TokenKind::Literal(LiteralKind::Char) => quoted_text_ok(self.text@, 1, r),
                TokenKind::Literal(LiteralKind::FormatString) => quoted_text_ok(self.text@, 2, r),
                _ => r is None,
            },
            r is Some <==> literal_has_value(self.token.kind, self.text@),
            r matches Some(v) ==> literal_is(self.token.kind, self.text@, v),
    {
        match self.token.kind {
            TokenKind::Literal(LiteralKind::Integer(base)) => {
                let start: usize = if let Base::Decimal = base {
                    0
                } else {
                    if self.text.len() < 2 {
                        return None;
                    }
                    2
                };
                proof {
                    if base != Base::Decimal {
                        assert(self.text@.subrange(0, self.text@.len() as int) =~= self.text@);
                    }
                    assert(self.text@.subrange(start as int, self.text@.len() as int)
                        =~= literal_digits(self.text@, base));
                }
                match digits_in_range(self.text, start, self.text.len(), base) {
                    Some(v) => Some(HugValue::Int32(v as i32)),
                    None => None,
                }
            },
            TokenKind::Literal(LiteralKind::String) => quoted_text(self.text, 1),
            TokenKind::Literal(LiteralKind::Char) => quoted_text(self.text, 1),
            TokenKind::Literal(LiteralKind::FormatString) => quoted_text(self.text, 2),
            _ => None,
        }
    }
}

} // verus!
