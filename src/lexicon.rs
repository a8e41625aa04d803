//! Token kinds, byte classes, and the specification of one scanning step.
use vstd::prelude::*;
use vstd::string::StringSliceAdditionalSpecFns;

verus! {

/// One lexical unit: its kind and the number of source bytes it covers.
#[derive(Debug, Clone, Copy, PartialEq, Eq, Structural)]
pub struct Token {
    pub kind: TokenKind,
    pub len: usize,
}

#[derive(Debug, Clone, Copy, PartialEq, Eq, Structural)]
pub enum TokenKind {
    LineComment,
    BlockComment,
    Whitespace,
    Literal(LiteralKind),
    Keyword(KeywordKind),
    /// A name; its text is the source slice that the token covers.
    Identifier,
    Annotation(AnnotationKind),
    BuiltInType(TypeKind),
    Comma,
    Dot,
    OpenParenthesis,
    CloseParenthesis,
    OpenBrace,
    CloseBrace,
    OpenBracket,
    CloseBracket,
    Colon,
    Arrow,
    Assign,
    Add,
    Subtract,
    Multiply,
    Divide,
    Modulus,
    AddAssign,
    SubtractAssign,
    MultiplyAssign,
    DivideAssign,
    ModulusAssign,
    Not,
    And,
    Or,
    IsEqualTo,
    IsNotEqualTo,
    LessThan,
    GreaterThan,
    LessThanOrEquals,
    GreaterThanOrEquals,
    BinaryAnd,
    BinaryOr,
    BinaryNot,
    BinaryXOr,
    BinaryAndAssign,
    BinaryOrAssign,
    BinaryNotAssign,
    BinaryXOrAssign,
    ShiftLeft,
    ShiftRight,
    ShiftLeftOverflow,
    ShiftRightOverflow,
    Unknown,
}

#[derive(Debug, Clone, Copy, PartialEq, Eq, Structural)]
pub enum TypeKind {
    Int8,
    Int16,
    Int32,
    Int64,
    Int128,
    UInt8,
    UInt16,
    UInt32,
    UInt64,
    UInt128,
    Float32,
    Float64,
    String,
}

/// An annotation; the payload of `Other` is the source slice after the `@`.
#[derive(Debug, Clone, Copy, PartialEq, Eq, Structural)]
pub enum AnnotationKind {
    Extern,
    Other,
}

#[derive(Debug, Clone, Copy, PartialEq, Eq, Structural)]
pub enum KeywordKind {
    Enum,
    Fn,
    Return,
    Let,
    Module,
    Public,
    Type,
    Use,
}

#[derive(Debug, Clone, Copy, PartialEq, Eq, Structural)]
pub enum LiteralKind {
    Integer(Base),
    Float(Base),
    Char,
    String,
    RawString,
    FormatString,
    Boolean,
}

#[derive(Debug, Clone, Copy, PartialEq, Eq, Structural)]
pub enum Base {
    Binary,
    Octal,
    Hexadecimal,
    Decimal,
}

#[derive(Debug, Clone, Copy, PartialEq, Eq, Structural)]
pub enum LexErrorKind {
    UnterminatedString,
    UnterminatedComment,
    /// An emoji character.
    Emoji,
}

/// A lexical error and the byte offset of the token where it arose.
#[derive(Debug, Clone, Copy, PartialEq, Eq, Structural)]
pub struct LexError {
    pub kind: LexErrorKind,
    pub position: usize,
}

/// The byte at `i`, or 0 past either end (the scanner's lookahead sentinel).
pub open spec fn at(s: Seq<u8>, i: int) -> u8 {
    if 0 <= i < s.len() {
        s[i]
    } else {
        0
    }
}

pub open spec fn is_ws(b: u8) -> bool {
    b == 0x20 || (0x09 <= b && b <= 0x0d)
}

pub open spec fn is_digit(b: u8) -> bool {
    0x30 <= b && b <= 0x39
}

pub open spec fn is_alpha(b: u8) -> bool {
    (0x41 <= b && b <= 0x5a) || (0x61 <= b && b <= 0x7a)
}

pub open spec fn is_alnum(b: u8) -> bool {
    is_alpha(b) || is_digit(b)
}

pub open spec fn is_word(b: u8) -> bool {
    is_alnum(b) || b == 0x5f
}

pub open spec fn is_hex_digit(b: u8) -> bool {
    is_digit(b) || (0x41 <= b && b <= 0x46) || (0x61 <= b && b <= 0x66)
}

/// Whether `b` may continue a literal written in `base`, after its prefix.
pub open spec fn is_digit_in(base: Base, b: u8) -> bool {
    b == 0x5f || match base {
        Base::Binary => b == 0x30 || b == 0x31,
        Base::Octal => 0x30 <= b && b <= 0x37,
        Base::Hexadecimal => is_hex_digit(b),
        Base::Decimal => is_digit(b),
    }
}

/// The classes of bytes that the scanner consumes as runs.
#[derive(Debug, Clone, Copy, PartialEq, Eq, Structural)]
pub enum ByteClass {
    /// Any byte but a line feed.
    NotNewline,
    Whitespace,
    Alphanumeric,
    /// Letters, digits and `_`.
    Word,
    /// Digits of a base, and `_`.
    Digits(Base),
}

pub open spec fn in_class(class: ByteClass, b: u8) -> bool {
    match class {
        ByteClass::NotNewline => b != 0x0a,
        ByteClass::Whitespace => is_ws(b),
        ByteClass::Alphanumeric => is_alnum(b),
        ByteClass::Word => is_word(b),
        ByteClass::Digits(base) => is_digit_in(base, b),
    }
}

/// End of the maximal run of bytes of `class` that starts at `i`.
pub open spec fn run_end(s: Seq<u8>, i: int, class: ByteClass) -> int
    decreases s.len() - i,
{
    if 0 <= i < s.len() && in_class(class, s[i]) {
        run_end(s, i + 1, class)
    } else {
        i
    }
}

/// End of a line comment whose body starts at `i`: past the line feed that
/// ends it, or the end of the input.
pub open spec fn line_end(s: Seq<u8>, i: int) -> int {
    let e = run_end(s, i, ByteClass::NotNewline);
    if e < s.len() {
        e + 1
    } else {
        e
    }
}

/// End of a string body scanned from `i`: one past the first closing quote
/// that no backslash escapes; `None` when the input ends first.
pub open spec fn string_end(s: Seq<u8>, i: int, escaped: bool) -> Option<int>
    decreases s.len() - i,
{
    if !(0 <= i < s.len()) {
        None
    } else if escaped {
        string_end(s, i + 1, false)
    } else if s[i] == 0x5c {
        string_end(s, i + 1, true)
    } else if s[i] == 0x22 {
        Some(i + 1)
    } else {
        string_end(s, i + 1, false)
    }
}

/// One past the first `*/` that starts at or after `i`.
pub open spec fn block_end(s: Seq<u8>, i: int) -> Option<int>
    decreases s.len() - i,
{
    if !(0 <= i && i + 1 < s.len()) {
        None
    } else if s[i] == 0x2a && s[i + 1] == 0x2f {
        Some(i + 2)
    } else {
        block_end(s, i + 1)
    }
}

/// Scans the rest of a decimal literal from `i`: digits and `_`, and one
/// `.` or `f` that makes it a float; a second one ends the literal.
pub open spec fn decimal_end(s: Seq<u8>, i: int, float: bool) -> (int, bool)
    decreases s.len() - i,
{
    if !(0 <= i < s.len()) {
        (i, float)
    } else if s[i] == 0x2e || s[i] == 0x66 {
        if float {
            (i, true)
        } else {
            decimal_end(s, i + 1, true)
        }
    } else if is_digit(s[i]) || s[i] == 0x5f {
        decimal_end(s, i + 1, float)
    } else {
        (i, float)
    }
}

/// The base that a `0b`, `0o` or `0x` prefix at `p` selects.
pub open spec fn base_prefix(s: Seq<u8>, p: int) -> Option<Base> {
    if at(s, p) != 0x30 {
        None
    } else if at(s, p + 1) == 0x62 {
        Some(Base::Binary)
    } else if at(s, p + 1) == 0x6f {
        Some(Base::Octal)
    } else if at(s, p + 1) == 0x78 {
        Some(Base::Hexadecimal)
    } else {
        None
    }
}

/// A numeric literal that starts with the digit at `p`.
pub open spec fn scan_number(s: Seq<u8>, p: int) -> (TokenKind, int) {
    match base_prefix(s, p) {
        Some(base) => (
            TokenKind::Literal(LiteralKind::Integer(base)),
            run_end(s, p + 2, ByteClass::Digits(base)),
        ),
        None => {
            let (end, float) = decimal_end(s, p + 1, false);
            if float {
                (TokenKind::Literal(LiteralKind::Float(Base::Decimal)), end)
            } else {
                (TokenKind::Literal(LiteralKind::Integer(Base::Decimal)), end)
            }
        },
    }
}

/// An annotation that starts with the `@` at `p`.
pub open spec fn scan_annotation(s: Seq<u8>, p: int) -> (TokenKind, int) {
    let end = run_end(s, p + 1, ByteClass::Alphanumeric);
    let name = s.subrange(p + 1, end);
    if name == "extern".spec_bytes() {
        (TokenKind::Annotation(AnnotationKind::Extern), end)
    } else if name.len() == 0 || is_digit(name[0]) {
        (TokenKind::Unknown, end)
    } else {
        (TokenKind::Annotation(AnnotationKind::Other), end)
    }
}

/// The keyword, boolean literal or built-in type name that `w` spells.
pub open spec fn reserved_word(w: Seq<u8>) -> Option<TokenKind> {
    if w == "enum".spec_bytes() {
        Some(TokenKind::Keyword(KeywordKind::Enum))
    } else if w == "fn".spec_bytes() {
        Some(TokenKind::Keyword(KeywordKind::Fn))
    } else if w == "return".spec_bytes() {
        Some(TokenKind::Keyword(KeywordKind::Return))
    } else if w == "let".spec_bytes() {
        Some(TokenKind::Keyword(KeywordKind::Let))
    } else if w == "module".spec_bytes() {
        Some(TokenKind::Keyword(KeywordKind::Module))
    } else if w == "public".spec_bytes() {
        Some(TokenKind::Keyword(KeywordKind::Public))
    } else if w == "type".spec_bytes() {
        Some(TokenKind::Keyword(KeywordKind::Type))
    } else if w == "use".spec_bytes() {
        Some(TokenKind::Keyword(KeywordKind::Use))
    } else if w == "true".spec_bytes() || w == "false".spec_bytes() {
        Some(TokenKind::Literal(LiteralKind::Boolean))
    } else {
        reserved_type(w)
    }
}

pub open spec fn reserved_type(w: Seq<u8>) -> Option<TokenKind> {
    if w == "Int8".spec_bytes() {
        Some(TokenKind::BuiltInType(TypeKind::Int8))
    } else if w == "Int16".spec_bytes() {
        Some(TokenKind::BuiltInType(TypeKind::Int16))
    } else if w == "Int32".spec_bytes() {
        Some(TokenKind::BuiltInType(TypeKind::Int32))
    } else if w == "Int64".spec_bytes() {
        Some(TokenKind::BuiltInType(TypeKind::Int64))
    } else if w == "Int128".spec_bytes() {
        Some(TokenKind::BuiltInType(TypeKind::Int128))
    } else if w == "UInt8".spec_bytes() {
        Some(TokenKind::BuiltInType(TypeKind::UInt8))
    } else if w == "UInt16".spec_bytes() {
        Some(TokenKind::BuiltInType(TypeKind::UInt16))
    } else if w == "UInt32".spec_bytes() {
        Some(TokenKind::BuiltInType(TypeKind::UInt32))
    } else if w == "UInt64".spec_bytes() {
        Some(TokenKind::BuiltInType(TypeKind::UInt64))
    } else if w == "UInt128".spec_bytes() {
        Some(TokenKind::BuiltInType(TypeKind::UInt128))
    } else if w == "Float32".spec_bytes() {
        Some(TokenKind::BuiltInType(TypeKind::Float32))
    } else if w == "Float64".spec_bytes() {
        Some(TokenKind::BuiltInType(TypeKind::Float64))
    } else if w == "String".spec_bytes() {
        Some(TokenKind::BuiltInType(TypeKind::String))
    } else {
        None
    }
}

/// A word that starts at `p`: the byte there and the run of letters, digits
/// and `_` after it.
pub open spec fn scan_word(s: Seq<u8>, p: int) -> (TokenKind, int) {
    let end = run_end(s, p + 1, ByteClass::Word);
    match reserved_word(s.subrange(p, end)) {
        Some(k) => (k, end),
        None => if is_alpha(s[p]) {
            (TokenKind::Identifier, end)
        } else {
            (TokenKind::Unknown, end)
        },
    }
}

/// The punctuation mark that the single byte `c` is.
pub open spec fn punctuation(c: u8) -> Option<TokenKind> {
    if c == 0x2c {
        Some(TokenKind::Comma)
    } else if c == 0x2e {
        Some(TokenKind::Dot)
    } else if c == 0x28 {
        Some(TokenKind::OpenParenthesis)
    } else if c == 0x29 {
        Some(TokenKind::CloseParenthesis)
    } else if c == 0x7b {
        Some(TokenKind::OpenBrace)
    } else if c == 0x7d {
        Some(TokenKind::CloseBrace)
    } else if c == 0x5b {
        Some(TokenKind::OpenBracket)
    } else if c == 0x5d {
        Some(TokenKind::CloseBracket)
    } else if c == 0x3a {
        Some(TokenKind::Colon)
    } else {
        None
    }
}

/// The arithmetic or bitwise operator that the byte `c` starts.
pub open spec fn arithmetic(c: u8) -> Option<TokenKind> {
    if c == 0x2b {
        Some(TokenKind::Add)
    } else if c == 0x2d {
        Some(TokenKind::Subtract)
    } else if c == 0x2a {
        Some(TokenKind::Multiply)
    } else if c == 0x25 {
        Some(TokenKind::Modulus)
    } else if c == 0x7e {
        Some(TokenKind::BinaryNot)
    } else if c == 0x5e {
        Some(TokenKind::BinaryXOr)
    } else {
        None
    }
}

/// The compound-assignment form of an operator that has one.
pub open spec fn assign_form(k: TokenKind) -> Option<TokenKind> {
    match k {
        TokenKind::Add => Some(TokenKind::AddAssign),
        TokenKind::Subtract => Some(TokenKind::SubtractAssign),
        TokenKind::Multiply => Some(TokenKind::MultiplyAssign),
        TokenKind::Divide => Some(TokenKind::DivideAssign),
        TokenKind::Modulus => Some(TokenKind::ModulusAssign),
        TokenKind::BinaryNot => Some(TokenKind::BinaryNotAssign),
        TokenKind::BinaryXOr => Some(TokenKind::BinaryXOrAssign),
        TokenKind::BinaryAnd => Some(TokenKind::BinaryAndAssign),
        TokenKind::BinaryOr => Some(TokenKind::BinaryOrAssign),
        _ => None,
    }
}

/// The operator whose lookahead rules `condition` applies, by its first byte.
pub open spec fn condition_start(c: u8) -> Option<TokenKind> {
    if c == 0x3d {
        Some(TokenKind::Assign)
    } else if c == 0x21 {
        Some(TokenKind::Not)
    } else if c == 0x26 {
        Some(TokenKind::BinaryAnd)
    } else if c == 0x7c {
        Some(TokenKind::BinaryOr)
    } else if c == 0x3c {
        Some(TokenKind::LessThan)
    } else if c == 0x3e {
        Some(TokenKind::GreaterThan)
    } else {
        None
    }
}

/// `plain` of one byte, or `compound` of two when `=` follows at `p + 1`.
pub open spec fn with_assign(s: Seq<u8>, p: int, plain: TokenKind, compound: TokenKind) -> (
    TokenKind,
    int,
) {
    if at(s, p + 1) == 0x3d {
        (compound, p + 2)
    } else {
        (plain, p + 1)
    }
}

/// The comparison, logic or shift operator that starts at `p`, if `s[p]` is
/// one of `= ! & | < >`.
pub open spec fn scan_condition(s: Seq<u8>, p: int) -> Option<(TokenKind, int)> {
    let c = s[p];
    let n = at(s, p + 1);
    if c == 0x3d {
        Some(if n == 0x3d { (TokenKind::IsEqualTo, p + 2) } else { (TokenKind::Assign, p + 1) })
    } else if c == 0x21 {
        Some(if n == 0x3d { (TokenKind::IsNotEqualTo, p + 2) } else { (TokenKind::Not, p + 1) })
    } else if c == 0x26 {
        Some(
            if n == 0x26 {
                (TokenKind::And, p + 2)
            } else {
                with_assign(s, p, TokenKind::BinaryAnd, TokenKind::BinaryAndAssign)
            },
        )
    } else if c == 0x7c {
        Some(
            if n == 0x7c {
                (TokenKind::Or, p + 2)
            } else {
                with_assign(s, p, TokenKind::BinaryOr, TokenKind::BinaryOrAssign)
            },
        )
    } else if c == 0x3c {
        Some(
            if n == 0x3d {
                (TokenKind::LessThanOrEquals, p + 2)
            } else if n == 0x3c {
                if at(s, p + 2) == 0x3c {
                    (TokenKind::ShiftLeftOverflow, p + 3)
                } else {
                    (TokenKind::ShiftLeft, p + 2)
                }
            } else {
                (TokenKind::LessThan, p + 1)
            },
        )
    } else if c == 0x3e {
        Some(
            if n == 0x3d {
                (TokenKind::GreaterThanOrEquals, p + 2)
            } else if n == 0x3e {
                if at(s, p + 2) == 0x3e {
                    (TokenKind::ShiftRightOverflow, p + 3)
                } else {
                    (TokenKind::ShiftRight, p + 2)
                }
            } else {
                (TokenKind::GreaterThan, p + 1)
            },
        )
    } else {
        None
    }
}

/// Whether the character with scalar value `v` has the Unicode `Emoji`
/// property (false for a value that is no character).
pub uninterp spec fn emoji(v: u32) -> bool;

/// How many bytes the UTF-8 encoding of a character takes, by its first byte.
pub open spec fn utf8_width(b: u8) -> int {
    if b < 0xc0 {
        1
    } else if b < 0xe0 {
        2
    } else if b < 0xf0 {
        3
    } else {
        4
    }
}

/// The scalar value of the character whose UTF-8 encoding starts at `p`.
pub open spec fn scalar_at(s: Seq<u8>, p: int) -> u32 {
    let b0 = s[p] as u32;
    let b1 = (at(s, p + 1) & 0x3f) as u32;
    let b2 = (at(s, p + 2) & 0x3f) as u32;
    let b3 = (at(s, p + 3) & 0x3f) as u32;
    let w = utf8_width(s[p]);
    if w == 2 {
        ((b0 & 0x1f) << 6u32) | b1
    } else if w == 3 {
        ((b0 & 0x0f) << 12u32) | (b1 << 6u32) | b2
    } else if w == 4 {
        ((b0 & 0x07) << 18u32) | (b1 << 12u32) | (b2 << 6u32) | b3
    } else {
        b0
    }
}

/// Where the character that starts at `p` ends, within the input.
pub open spec fn char_end(s: Seq<u8>, p: int) -> int {
    if p + utf8_width(s[p]) <= s.len() {
        p + utf8_width(s[p])
    } else {
        s.len() as int
    }
}

/// The token that starts at byte `p` of `s`, with the offset where it ends.
#[verifier::opaque]
pub open spec fn scan(s: Seq<u8>, p: int) -> Result<(TokenKind, int), LexErrorKind> {
    let c = s[p];
    let n = at(s, p + 1);
    if c == 0x2f {
        if n == 0x2f {
            Ok((TokenKind::LineComment, line_end(s, p + 2)))
        } else if n == 0x2a {
            match block_end(s, p + 2) {
                Some(e) => Ok((TokenKind::BlockComment, e)),
                None => Err(LexErrorKind::UnterminatedComment),
            }
        } else {
            Ok(with_assign(s, p, TokenKind::Divide, TokenKind::DivideAssign))
        }
    } else if is_ws(c) {
        Ok((TokenKind::Whitespace, run_end(s, p + 1, ByteClass::Whitespace)))
    } else if c == 0x66 && n == 0x22 {
        match string_end(s, p + 2, false) {
            Some(e) => Ok((TokenKind::Literal(LiteralKind::FormatString), e)),
            None => Err(LexErrorKind::UnterminatedString),
        }
    } else if c == 0x22 {
        match string_end(s, p + 1, false) {
            Some(e) => Ok((TokenKind::Literal(LiteralKind::String), e)),
            None => Err(LexErrorKind::UnterminatedString),
        }
    } else if c == 0x27 {
        Ok((TokenKind::Literal(LiteralKind::Char), if p + 3 <= s.len() { p + 3 } else { s.len() as int }))
    } else if is_digit(c) {
        Ok(scan_number(s, p))
    } else if c == 0x40 {
        Ok(scan_annotation(s, p))
    } else if punctuation(c) is Some {
        Ok((punctuation(c)->0, p + 1))
    } else if c == 0x2d && n == 0x3e {
        Ok((TokenKind::Arrow, p + 2))
    } else {
        match arithmetic(c) {
            Some(plain) => Ok(with_assign(s, p, plain, assign_form(plain)->0)),
            None => match scan_condition(s, p) {
                Some(r) => Ok(r),
                None => if c >= 0x80 {
                    if emoji(scalar_at(s, p)) {
                        Err(LexErrorKind::Emoji)
                    } else {
                        Ok((TokenKind::Unknown, char_end(s, p)))
                    }
                } else {
                    Ok(scan_word(s, p))
                },
            },
        }
    }
}

/// The tokens of `s` from offset `p` to its end, or the first error.
pub open spec fn scan_all(s: Seq<u8>, p: int) -> Result<Seq<Token>, LexError>
    decreases s.len() - p,
{
    if !(0 <= p < s.len()) {
        Ok(Seq::empty())
    } else {
        match scan(s, p) {
            Err(kind) => Err(LexError { kind, position: p as usize }),
            Ok((kind, end)) => if end <= p || end > s.len() {
                // unreachable: every token covers at least one byte
                Ok(Seq::empty())
            } else {
                match scan_all(s, end) {
                    Ok(rest) => Ok(seq![Token { kind, len: (end - p) as usize }] + rest),
                    Err(e) => Err(e),
                }
            },
        }
    }
}

/// The outcome of a scan, with the token vector seen as a sequence.
pub open spec fn scanned(r: Result<Vec<Token>, LexError>) -> Result<Seq<Token>, LexError> {
    match r {
        Ok(tokens) => Ok(tokens@),
        Err(e) => Err(e),
    }
}

/// The number of bytes that `ts` covers.
pub open spec fn total_len(ts: Seq<Token>) -> int
    decreases ts.len(),
{
    if ts.len() == 0 {
        0
    } else {
        total_len(ts.drop_last()) + ts.last().len
    }
}

pub proof fn lemma_run_end_bounds(s: Seq<u8>, i: int, class: ByteClass)
    requires
        0 <= i <= s.len(),
    ensures
        i <= run_end(s, i, class) <= s.len(),
    decreases s.len() - i,
{
    if i < s.len() && in_class(class, s[i]) {
        lemma_run_end_bounds(s, i + 1, class);
    }
}

/// A run that stops where `class` first fails ends exactly there.
pub proof fn lemma_run_end_exact(s: Seq<u8>, i: int, j: int, class: ByteClass)
    requires
        0 <= i <= j <= s.len(),
        forall|k: int| i <= k < j ==> in_class(class, s[k]),
        j < s.len() ==> !in_class(class, s[j]),
    ensures
        run_end(s, i, class) == j,
    decreases j - i,
{
    if i < j {
        lemma_run_end_exact(s, i + 1, j, class);
    }
}

pub proof fn lemma_string_end_bounds(s: Seq<u8>, i: int, escaped: bool)
    requires
        0 <= i,
    ensures
        string_end(s, i, escaped) matches Some(e) ==> i < e <= s.len(),
    decreases s.len() - i,
{
    if 0 <= i < s.len() {
        lemma_string_end_bounds(s, i + 1, false);
        lemma_string_end_bounds(s, i + 1, true);
    }
}

pub proof fn lemma_block_end_bounds(s: Seq<u8>, i: int)
    requires
        0 <= i,
    ensures
        block_end(s, i) matches Some(e) ==> i < e <= s.len(),
    decreases s.len() - i,
{
    if 0 <= i && i + 1 < s.len() {
        lemma_block_end_bounds(s, i + 1);
    }
}

pub proof fn lemma_decimal_end_bounds(s: Seq<u8>, i: int, float: bool)
    requires
        0 <= i <= s.len(),
    ensures
        i <= decimal_end(s, i, float).0 <= s.len(),
    decreases s.len() - i,
{
    if 0 <= i < s.len() {
        lemma_decimal_end_bounds(s, i + 1, true);
        lemma_decimal_end_bounds(s, i + 1, float);
    }
}

pub proof fn lemma_scan_number_bounds(s: Seq<u8>, p: int)
    requires
        0 <= p < s.len(),
    ensures
        p < scan_number(s, p).1 <= s.len(),
{
    lemma_decimal_end_bounds(s, p + 1, false);
    if let Some(base) = base_prefix(s, p) {
        lemma_run_end_bounds(s, p + 2, ByteClass::Digits(base));
    }
}

pub proof fn lemma_scan_word_bounds(s: Seq<u8>, p: int)
    requires
        0 <= p < s.len(),
    ensures
        p < scan_annotation(s, p).1 <= s.len(),
        p < scan_word(s, p).1 <= s.len(),
{
    lemma_run_end_bounds(s, p + 1, ByteClass::Alphanumeric);
    lemma_run_end_bounds(s, p + 1, ByteClass::Word);
}

/// Every token covers at least one byte and stays inside the source.
pub proof fn lemma_scan_bounds(s: Seq<u8>, p: int)
    requires
        0 <= p < s.len(),
    ensures
        scan(s, p) matches Ok((_, e)) ==> p < e <= s.len(),
{
    reveal(scan);
    if p + 2 <= s.len() {
        lemma_run_end_bounds(s, p + 2, ByteClass::NotNewline);
    }
    lemma_run_end_bounds(s, p + 1, ByteClass::Whitespace);
    lemma_block_end_bounds(s, p + 2);
    lemma_string_end_bounds(s, p + 2, false);
    lemma_string_end_bounds(s, p + 1, false);
    lemma_scan_number_bounds(s, p);
    lemma_scan_word_bounds(s, p);
}

} // verus!
