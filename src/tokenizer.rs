//! The cursor-based scanner: one token per call, no backtracking.
use vstd::prelude::*;
use vstd::string::StringSliceAdditionalSpecFns;

use crate::lexicon::{
    arithmetic, assign_form, at, base_prefix, block_end, condition_start, decimal_end, emoji,
    in_class, is_alpha, char_end, scalar_at, utf8_width, is_digit, is_ws, lemma_run_end_exact, lemma_scan_bounds, line_end,
    punctuation, reserved_type, reserved_word, run_end, scan, scan_all, scan_annotation,
    scan_condition, scan_number, scan_word, scanned, string_end, with_assign, AnnotationKind, Base,
    ByteClass, KeywordKind, LexError, LexErrorKind, LiteralKind, Token, TokenKind, TypeKind,
};

verus! {

/// Relies on unic_emoji_char::is_emoji: whether the character with scalar
/// value `v` has the Unicode `Emoji` property, which depends on the
/// character alone; a value that is no character has no property.
#[verifier::external_body]
fn is_emoji(v: u32) -> (r: bool)
    ensures
        r == emoji(v),
{
    match char::from_u32(v) {
        Some(c) => unic_emoji_char::is_emoji(c),
        None => false,
    }
}

pub fn is_whitespace(b: u8) -> (r: bool)
    ensures
        r == is_ws(b),
{
    b == 0x20 || (0x09 <= b && b <= 0x0d)
}

pub fn is_decimal_digit(b: u8) -> (r: bool)
    ensures
        r == is_digit(b),
{
    0x30 <= b && b <= 0x39
}

pub fn is_letter(b: u8) -> (r: bool)
    ensures
        r == is_alpha(b),
{
    (0x41 <= b && b <= 0x5a) || (0x61 <= b && b <= 0x7a)
}

pub fn is_in_class(class: ByteClass, b: u8) -> (r: bool)
    ensures
        r == in_class(class, b),
{
    match class {
        ByteClass::NotNewline => b != 0x0a,
        ByteClass::Whitespace => is_whitespace(b),
        ByteClass::Alphanumeric => is_letter(b) || is_decimal_digit(b),
        ByteClass::Word => is_letter(b) || is_decimal_digit(b) || b == 0x5f,
        ByteClass::Digits(base) => b == 0x5f || match base {
            Base::Binary => b == 0x30 || b == 0x31,
            Base::Octal => 0x30 <= b && b <= 0x37,
            Base::Hexadecimal => is_decimal_digit(b) || (0x41 <= b && b <= 0x46) || (0x61 <= b
                && b <= 0x66),
            Base::Decimal => is_decimal_digit(b),
        },
    }
}

fn punctuation_of(c: u8) -> (r: Option<TokenKind>)
    ensures
        r == punctuation(c),
{
    if c == 0x2c {
        Some(TokenKind::Comma)
    } else if c == 0x2e {
        Some(TokenKind::Dot)
    } else if c == 0x28 {
        Some(TokenKind::OpenParenthesis)
    } else if c == 0x29 {
        Some(TokenKind::CloseParenthesis)
    } else if c == 0x7b {
        Some(TokenKind::OpenBrace)
    } else if c == 0x7d {
        Some(TokenKind::CloseBrace)
    } else if c == 0x5b {
        Some(TokenKind::OpenBracket)
    } else if c == 0x5d {
        Some(TokenKind::CloseBracket)
    } else if c == 0x3a {
        Some(TokenKind::Colon)
    } else {
        None
    }
}

fn arithmetic_of(c: u8) -> (r: Option<TokenKind>)
    ensures
        r == arithmetic(c),
{
    if c == 0x2b {
        Some(TokenKind::Add)
    } else if c == 0x2d {
        Some(TokenKind::Subtract)
    } else if c == 0x2a {
        Some(TokenKind::Multiply)
    } else if c == 0x25 {
        Some(TokenKind::Modulus)
    } else if c == 0x7e {
        Some(TokenKind::BinaryNot)
    } else if c == 0x5e {
        Some(TokenKind::BinaryXOr)
    } else {
        None
    }
}

fn condition_start_of(c: u8) -> (r: Option<TokenKind>)
    ensures
        r == condition_start(c),
{
    if c == 0x3d {
        Some(TokenKind::Assign)
    } else if c == 0x21 {
        Some(TokenKind::Not)
    } else if c == 0x26 {
        Some(TokenKind::BinaryAnd)
    } else if c == 0x7c {
        Some(TokenKind::BinaryOr)
    } else if c == 0x3c {
        Some(TokenKind::LessThan)
    } else if c == 0x3e {
        Some(TokenKind::GreaterThan)
    } else {
        None
    }
}

/// Whether `s[start..end]` spells the bytes of `w`.
fn spells(s: &[u8], start: usize, end: usize, w: &str) -> (r: bool)
    requires
        start <= end <= s@.len(),
    ensures
        r == (s@.subrange(start as int, end as int) == w.spec_bytes()),
{
    let wb = w.as_bytes();
    if end - start != wb.len() {
        proof {
            assert(s@.subrange(start as int, end as int).len() != w.spec_bytes().len());
        }
        return false;
    }
    let mut i: usize = 0;
    while i < wb.len()
        invariant
            start <= end <= s@.len(),
            end - start == wb@.len(),
            wb@ == w.spec_bytes(),
            i <= wb@.len(),
            forall|k: int| 0 <= k < i ==> s@[start + k] == wb@[k],
        decreases wb@.len() - i,
    {
        if s[start + i] != wb[i] {
            proof {
                assert(s@.subrange(start as int, end as int)[i as int] != w.spec_bytes()[i as int]);
            }
            return false;
        }
        i = i + 1;
    }
    proof {
        assert(s@.subrange(start as int, end as int) =~= w.spec_bytes());
    }
    true
}

/// The built-in type name that `s[start..end]` spells.
fn reserved_type_of(s: &[u8], start: usize, end: usize) -> (r: Option<TokenKind>)
    requires
        start <= end <= s@.len(),
    ensures
        r == reserved_type(s@.subrange(start as int, end as int)),
{
    if spells(s, start, end, "Int8") {
        Some(TokenKind::BuiltInType(TypeKind::Int8))
    } else if spells(s, start, end, "Int16") {
        Some(TokenKind::BuiltInType(TypeKind::Int16))
    } else if spells(s, start, end, "Int32") {
        Some(TokenKind::BuiltInType(TypeKind::Int32))
    } else if spells(s, start, end, "Int64") {
        Some(TokenKind::BuiltInType(TypeKind::Int64))
    } else if spells(s, start, end, "Int128") {
        Some(TokenKind::BuiltInType(TypeKind::Int128))
    } else if spells(s, start, end, "UInt8") {
        Some(TokenKind::BuiltInType(TypeKind::UInt8))
    } else if spells(s, start, end, "UInt16") {
        Some(TokenKind::BuiltInType(TypeKind::UInt16))
    } else if spells(s, start, end, "UInt32") {
        Some(TokenKind::BuiltInType(TypeKind::UInt32))
    } else if spells(s, start, end, "UInt64") {
        Some(TokenKind::BuiltInType(TypeKind::UInt64))
    } else if spells(s, start, end, "UInt128") {
        Some(TokenKind::BuiltInType(TypeKind::UInt128))
    } else if spells(s, start, end, "Float32") {
        Some(TokenKind::BuiltInType(TypeKind::Float32))
    } else if spells(s, start, end, "Float64") {
        Some(TokenKind::BuiltInType(TypeKind::Float64))
    } else if spells(s, start, end, "String") {
        Some(TokenKind::BuiltInType(TypeKind::String))
    } else {
        None
    }
}

/// The keyword, boolean literal or built-in type that `s[start..end]` spells.
fn reserved_word_of(s: &[u8], start: usize, end: usize) -> (r: Option<TokenKind>)
    requires
        start <= end <= s@.len(),
    ensures
        r == reserved_word(s@.subrange(start as int, end as int)),
{
    if spells(s, start, end, "enum") {
        Some(TokenKind::Keyword(KeywordKind::Enum))
    } else if spells(s, start, end, "fn") {
        Some(TokenKind::Keyword(KeywordKind::Fn))
    } else if spells(s, start, end, "return") {
        Some(TokenKind::Keyword(KeywordKind::Return))
    } else if spells(s, start, end, "let") {
        Some(TokenKind::Keyword(KeywordKind::Let))
    } else if spells(s, start, end, "module") {
        Some(TokenKind::Keyword(KeywordKind::Module))
    } else if spells(s, start, end, "public") {
        Some(TokenKind::Keyword(KeywordKind::Public))
    } else if spells(s, start, end, "type") {
        Some(TokenKind::Keyword(KeywordKind::Type))
    } else if spells(s, start, end, "use") {
        Some(TokenKind::Keyword(KeywordKind::Use))
    } else if spells(s, start, end, "true") || spells(s, start, end, "false") {
        Some(TokenKind::Literal(LiteralKind::Boolean))
    } else {
        reserved_type_of(s, start, end)
    }
}

impl TokenKind {
    pub fn expect_literal(self) -> (r: Option<LiteralKind>)
        ensures
            r == (match self {
                TokenKind::Literal(k) => Some(k),
                _ => None,
            }),
    {
        if let TokenKind::Literal(k) = self {
            Some(k)
        } else {
            None
        }
    }

    pub fn expect_keyword(self) -> (r: Option<KeywordKind>)
        ensures
            r == (match self {
                TokenKind::Keyword(k) => Some(k),
                _ => None,
            }),
    {
        if let TokenKind::Keyword(k) = self {
            Some(k)
        } else {
            None
        }
    }

    /// Whether this is an identifier; its name is the text that the token covers.
    pub fn expect_ident(self) -> (r: Option<TokenKind>)
        ensures
            r == (if self is Identifier {
                Some(self)
            } else {
                None
            }),
    {
        if let TokenKind::Identifier = self {
            Some(self)
        } else {
            None
        }
    }

    pub fn expect_kind(self, kind: TokenKind) -> (r: Option<TokenKind>)
        ensures
            r == (if self == kind {
                Some(self)
            } else {
                None
            }),
    {
        if self == kind {
            Some(self)
        } else {
            None
        }
    }

    pub fn expect_type(self) -> (r: Option<TypeKind>)
        ensures
            r == (match self {
                TokenKind::BuiltInType(k) => Some(k),
                _ => None,
            }),
    {
        if let TokenKind::BuiltInType(k) = self {
            Some(k)
        } else {
            None
        }
    }
}

pub struct Tokenizer<'a> {
    cursor_checkpoint: usize,
    cursor: usize,
    source: &'a [u8],
}

impl<'a> Tokenizer<'a> {
    /// The bytes being scanned.
    pub closed spec fn bytes(&self) -> Seq<u8> {
        self.source@
    }

    /// Offset of the next unconsumed byte.
    pub closed spec fn pos(&self) -> int {
        self.cursor as int
    }

    /// Offset where the current token started.
    pub closed spec fn mark(&self) -> int {
        self.cursor_checkpoint as int
    }

    pub closed spec fn wf(&self) -> bool {
        self.cursor_checkpoint <= self.cursor <= self.source@.len()
    }

    /// Same source and token start as `before`, cursor not moved back.
    pub open spec fn kept(&self, before: Self) -> bool {
        &&& self.wf()
        &&& self.bytes() == before.bytes()
        &&& self.mark() == before.mark()
        &&& before.pos() <= self.pos()
    }

    /// As `kept`, with the cursor at `to`.
    pub open spec fn moved(&self, before: Self, to: int) -> bool {
        self.kept(before) && self.pos() == to
    }

    pub fn new(source: &'a str) -> (t: Self)
        ensures
            t.wf(),
            t.bytes() == source.spec_bytes(),
            t.pos() == 0,
            t.mark() == 0,
    {
        Self { cursor_checkpoint: 0, cursor: 0, source: source.as_bytes() }
    }

    pub fn consumed_len(&self) -> (n: usize)
        requires
            self.wf(),
        ensures
            n == self.pos() - self.mark(),
    {
        self.cursor - self.cursor_checkpoint
    }

    pub fn reset_consumed_len(&mut self)
        requires
            old(self).wf(),
        ensures
            final(self).wf(),
            final(self).bytes() == old(self).bytes(),
            final(self).pos() == old(self).pos(),
            final(self).mark() == old(self).pos(),
    {
        self.cursor_checkpoint = self.cursor;
    }

    /// Consumes and returns the next byte; at the end, returns 0 and stays.
    pub fn next(&mut self) -> (c: u8)
        requires
            old(self).wf(),
        ensures
            c == at(old(self).bytes(), old(self).pos()),
            final(self).moved(
                *old(self),
                if old(self).pos() < old(self).bytes().len() {
                    old(self).pos() + 1
                } else {
                    old(self).pos()
                },
            ),
    {
        if self.cursor < self.source.len() {
            let c = self.source[self.cursor];
            self.cursor = self.cursor + 1;
            c
        } else {
            0
        }
    }

    /// The byte `steps` places ahead: `peek(1)` is the next unconsumed byte;
    /// 0 past the end.
    pub fn peek(&self, steps: usize) -> (c: u8)
        requires
            self.wf(),
        ensures
            c == at(self.bytes(), self.pos() + steps - 1),
    {
        if steps == 0 {
            if self.cursor > 0 {
                self.source[self.cursor - 1]
            } else {
                0
            }
        } else if steps - 1 < self.source.len() - self.cursor {
            self.source[self.cursor + (steps - 1)]
        } else {
            0
        }
    }

    pub fn is_eof(&self) -> (r: bool)
        requires
            self.wf(),
        ensures
            r == (self.pos() >= self.bytes().len()),
    {
        self.cursor >= self.source.len()
    }

    /// Consumes bytes until `condition` holds of the next one, or the input ends.
    pub fn ignore_until<F: Fn(u8) -> bool>(&mut self, condition: F)
        requires
            old(self).wf(),
            forall|b: u8| condition.requires((b,)),
        ensures
            final(self).kept(*old(self)),
            forall|k: int|
                old(self).pos() <= k < final(self).pos() ==> condition.ensures(
                    (old(self).bytes()[k],),
                    false,
                ),
            final(self).pos() < old(self).bytes().len() ==> condition.ensures(
                (old(self).bytes()[final(self).pos()],),
                true,
            ),
    {
        loop
            invariant
                self.kept(*old(self)),
                forall|b: u8| condition.requires((b,)),
                forall|k: int|
                    old(self).pos() <= k < self.pos() ==> condition.ensures(
                        (old(self).bytes()[k],),
                        false,
                    ),
            ensures
                self.kept(*old(self)),
                forall|k: int|
                    old(self).pos() <= k < self.pos() ==> condition.ensures(
                        (old(self).bytes()[k],),
                        false,
                    ),
                self.pos() < old(self).bytes().len() ==> condition.ensures(
                    (old(self).bytes()[self.pos()],),
                    true,
                ),
            decreases self.bytes().len() - self.pos(),
        {
            if self.is_eof() {
                break ;
            }
            let c = self.peek(1);
            if condition(c) {
                break ;
            }
            self.next();
        }
    }

    /// Consumes the run of bytes of `class` that starts at the cursor.
    fn skip_run(&mut self, class: ByteClass)
        requires
            old(self).wf(),
        ensures
            final(self).moved(*old(self), run_end(old(self).bytes(), old(self).pos(), class)),
    {
        let stop = |b: u8| -> (r: bool)
            ensures
                r == !in_class(class, b),
            { !is_in_class(class, b) };
        self.ignore_until(stop);
        proof {
            lemma_run_end_exact(self.bytes(), old(self).pos(), self.pos(), class);
        }
    }

    /// The rest of a line comment, after its first `/`.
    pub fn line_comment(&mut self) -> (r: TokenKind)
        requires
            old(self).wf(),
            old(self).pos() < old(self).bytes().len(),
        ensures
            r == TokenKind::LineComment,
            final(self).moved(*old(self), line_end(old(self).bytes(), old(self).pos() + 1)),
    {
        self.next();  // the second `/`
        self.skip_run(ByteClass::NotNewline);
        self.next();  // the line feed, if any
        TokenKind::LineComment
    }

    /// The rest of a block comment, after its `/`.
    pub fn block_comment(&mut self) -> (r: Result<TokenKind, LexErrorKind>)
        requires
            old(self).wf(),
            old(self).pos() < old(self).bytes().len(),
        ensures
            match block_end(old(self).bytes(), old(self).pos() + 1) {
                Some(e) => r == Ok::<TokenKind, LexErrorKind>(TokenKind::BlockComment)
                    && final(self).moved(*old(self), e),
                None => r == Err::<TokenKind, LexErrorKind>(LexErrorKind::UnterminatedComment)
                    && final(self).moved(*old(self), old(self).bytes().len() as int),
            },
    {
        self.next();  // the `*`
        loop
            invariant
                self.kept(*old(self)),
                old(self).pos() + 1 <= self.pos(),
                block_end(self.bytes(), old(self).pos() + 1) == block_end(
                    self.bytes(),
                    self.pos(),
                ),
            decreases self.bytes().len() - self.pos(),
        {
            if self.source.len() - self.cursor < 2 {
                self.cursor = self.source.len();
                return Err(LexErrorKind::UnterminatedComment);
            }
            if self.peek(1) == 0x2a && self.peek(2) == 0x2f {
                self.next();
                self.next();
                return Ok(TokenKind::BlockComment);
            }
            self.next();
        }
    }

    /// An operator whose first byte was consumed, or its compound-assignment
    /// form when `=` follows.
    pub fn operator(&mut self, operator: TokenKind) -> (r: TokenKind)
        requires
            old(self).wf(),
            old(self).pos() >= 1,
            assign_form(operator) is Some,
        ensures
            (r, final(self).pos()) == with_assign(
                old(self).bytes(),
                old(self).pos() - 1,
                operator,
                assign_form(operator)->0,
            ),
            final(self).kept(*old(self)),
    {
        if self.peek(1) == 0x3d {
            self.next();
            match operator {
                TokenKind::Add => TokenKind::AddAssign,
                TokenKind::Subtract => TokenKind::SubtractAssign,
                TokenKind::Multiply => TokenKind::MultiplyAssign,
                TokenKind::Divide => TokenKind::DivideAssign,
                TokenKind::Modulus => TokenKind::ModulusAssign,
                TokenKind::BinaryNot => TokenKind::BinaryNotAssign,
                TokenKind::BinaryXOr => TokenKind::BinaryXOrAssign,
                TokenKind::BinaryAnd => TokenKind::BinaryAndAssign,
                _ => TokenKind::BinaryOrAssign,
            }
        } else {
            operator
        }
    }

    /// The rest of a run of whitespace.
    pub fn whitespace(&mut self) -> (r: TokenKind)
        requires
            old(self).wf(),
        ensures
            r == TokenKind::Whitespace,
            final(self).moved(
                *old(self),
                run_end(old(self).bytes(), old(self).pos(), ByteClass::Whitespace),
            ),
    {
        self.skip_run(ByteClass::Whitespace);
        TokenKind::Whitespace
    }

    /// The body of a string literal, after its opening quote.
    pub fn string(&mut self) -> (r: Result<TokenKind, LexErrorKind>)
        requires
            old(self).wf(),
        ensures
            match string_end(old(self).bytes(), old(self).pos(), false) {
                Some(e) => r == Ok::<TokenKind, LexErrorKind>(
                    TokenKind::Literal(LiteralKind::String),
                ) && final(self).moved(*old(self), e),
                None => r == Err::<TokenKind, LexErrorKind>(LexErrorKind::UnterminatedString)
                    && final(self).moved(*old(self), old(self).bytes().len() as int),
            },
    {
        let mut escaped = false;
        loop
            invariant
                self.kept(*old(self)),
                string_end(self.bytes(), old(self).pos(), false) == string_end(
                    self.bytes(),
                    self.pos(),
                    escaped,
                ),
            decreases self.bytes().len() - self.pos(),
        {
            if self.is_eof() {
                return Err(LexErrorKind::UnterminatedString);
            }
            let c = self.next();
            if escaped {
                escaped = false;
            } else if c == 0x5c {
                escaped = true;
            } else if c == 0x22 {
                return Ok(TokenKind::Literal(LiteralKind::String));
            }
        }
    }

    /// A format string, after its `f`.
    pub fn format_string(&mut self) -> (r: Result<TokenKind, LexErrorKind>)
        requires
            old(self).wf(),
            old(self).pos() < old(self).bytes().len(),
        ensures
            match string_end(old(self).bytes(), old(self).pos() + 1, false) {
                Some(e) => r == Ok::<TokenKind, LexErrorKind>(
                    TokenKind::Literal(LiteralKind::FormatString),
                ) && final(self).moved(*old(self), e),
                None => r == Err::<TokenKind, LexErrorKind>(LexErrorKind::UnterminatedString)
                    && final(self).moved(*old(self), old(self).bytes().len() as int),
            },
    {
        self.next();  // the opening quote
        match self.string() {
            Ok(_) => Ok(TokenKind::Literal(LiteralKind::FormatString)),
            Err(e) => Err(e),
        }
    }

    /// A character literal, after its opening quote: the next two bytes,
    /// whatever they are.
    pub fn char(&mut self) -> (r: TokenKind)
        requires
            old(self).wf(),
        ensures
            r == TokenKind::Literal(LiteralKind::Char),
            final(self).moved(
                *old(self),
                if old(self).pos() + 2 <= old(self).bytes().len() {
                    old(self).pos() + 2
                } else {
                    old(self).bytes().len() as int
                },
            ),
    {
        self.next();
        self.next();
        TokenKind::Literal(LiteralKind::Char)
    }

    /// A numeric literal whose first digit was consumed.
    pub fn number(&mut self, starts_with_zero: bool) -> (r: TokenKind)
        requires
            old(self).wf(),
            old(self).pos() >= 1,
            is_digit(old(self).bytes()[old(self).pos() - 1]),
            starts_with_zero == (old(self).bytes()[old(self).pos() - 1] == 0x30),
        ensures
            (r, final(self).pos()) == scan_number(old(self).bytes(), old(self).pos() - 1),
            final(self).kept(*old(self)),
    {
        let ghost s = self.bytes();
        let ghost p = self.pos() - 1;
        if starts_with_zero {
            let m = self.peek(1);
            let base = if m == 0x62 {
                Some(Base::Binary)
            } else if m == 0x6f {
                Some(Base::Octal)
            } else if m == 0x78 {
                Some(Base::Hexadecimal)
            } else {
                None
            };
            assert(base == base_prefix(s, p));
            if let Some(base) = base {
                self.next();
                self.skip_run(ByteClass::Digits(base));
                return TokenKind::Literal(LiteralKind::Integer(base));
            }
        }
        assert(base_prefix(s, p) is None);
        let mut float = false;
        loop
            invariant
                self.kept(*old(self)),
                self.bytes() == s,
                decimal_end(s, p + 1, false) == decimal_end(s, self.pos(), float),
            ensures
                self.kept(*old(self)),
                decimal_end(s, p + 1, false) == (self.pos(), float),
            decreases s.len() - self.pos(),
        {
            if self.is_eof() {
                break ;
            }
            let c = self.peek(1);
            if c == 0x2e || c == 0x66 {
                if float {
                    break ;
                }
                float = true;
            } else if !(is_decimal_digit(c) || c == 0x5f) {
                break ;
            }
            self.next();
        }
        if float {
            TokenKind::Literal(LiteralKind::Float(Base::Decimal))
        } else {
            TokenKind::Literal(LiteralKind::Integer(Base::Decimal))
        }
    }

    /// An annotation whose `@` was consumed.
    pub fn annotation(&mut self) -> (r: TokenKind)
        requires
            old(self).wf(),
            old(self).pos() >= 1,
        ensures
            (r, final(self).pos()) == scan_annotation(old(self).bytes(), old(self).pos() - 1),
            final(self).kept(*old(self)),
    {
        let start = self.cursor;
        self.skip_run(ByteClass::Alphanumeric);
        let end = self.cursor;
        if spells(self.source, start, end, "extern") {
            TokenKind::Annotation(AnnotationKind::Extern)
        } else if start == end || is_decimal_digit(self.source[start]) {
            TokenKind::Unknown
        } else {
            TokenKind::Annotation(AnnotationKind::Other)
        }
    }

    /// An operator that starts with `= ! & | < >`, whose first byte was
    /// consumed and read as `kind`, with the lookahead that tells its forms apart.
    pub fn condition(&mut self, kind: TokenKind) -> (r: TokenKind)
        requires
            old(self).wf(),
            old(self).pos() >= 1,
            condition_start(old(self).bytes()[old(self).pos() - 1]) == Some(kind),
        ensures
            scan_condition(old(self).bytes(), old(self).pos() - 1) == Some(
                (r, final(self).pos()),
            ),
            final(self).kept(*old(self)),
    {
        let next_char = self.peek(1);
        let new_kind = match kind {
            TokenKind::Not if next_char == 0x3d => TokenKind::IsNotEqualTo,
            TokenKind::BinaryAnd => {
                if next_char == 0x26 {
                    TokenKind::And
                } else {
                    return self.operator(kind);
                }
            },
            TokenKind::BinaryOr => {
                if next_char == 0x7c {
                    TokenKind::Or
                } else {
                    return self.operator(kind);
                }
            },
            TokenKind::Assign if next_char == 0x3d => TokenKind::IsEqualTo,
            TokenKind::LessThan if next_char == 0x3d => TokenKind::LessThanOrEquals,
            TokenKind::LessThan if next_char == 0x3c => {
                if self.peek(2) == 0x3c {
                    self.next();
                    TokenKind::ShiftLeftOverflow
                } else {
                    TokenKind::ShiftLeft
                }
            },
            TokenKind::GreaterThan if next_char == 0x3d => TokenKind::GreaterThanOrEquals,
            TokenKind::GreaterThan if next_char == 0x3e => {
                if self.peek(2) == 0x3e {
                    self.next();
                    TokenKind::ShiftRightOverflow
                } else {
                    TokenKind::ShiftRight
                }
            },
            _ => kind,
        };
        if kind != new_kind {
            self.next();
        }
        new_kind
    }

    /// A keyword, boolean literal, built-in type or identifier whose first
    /// byte was consumed; `Unknown` when the word is not a valid name.
    pub fn try_keyword(&mut self) -> (r: TokenKind)
        requires
            old(self).wf(),
            old(self).pos() >= 1,
        ensures
            (r, final(self).pos()) == scan_word(old(self).bytes(), old(self).pos() - 1),
            final(self).kept(*old(self)),
    {
        let start = self.cursor - 1;
        self.skip_run(ByteClass::Word);
        let end = self.cursor;
        match reserved_word_of(self.source, start, end) {
            Some(k) => k,
            None => {
                let first = self.source[start];
                if is_letter(first) {
                    TokenKind::Identifier
                } else {
                    TokenKind::Unknown
                }
            },
        }
    }

    /// A character outside ASCII whose first byte `c` was consumed: an error
    /// for an emoji, otherwise an unknown token that covers the character.
    fn non_ascii(&mut self, c: u8) -> (r: Result<TokenKind, LexErrorKind>)
        requires
            old(self).wf(),
            old(self).pos() >= 1,
            c == old(self).bytes()[old(self).pos() - 1],
            c >= 0x80,
        ensures
            ({
                let s = old(self).bytes();
                let p = old(self).pos() - 1;
                if emoji(scalar_at(s, p)) {
                    r == Err::<TokenKind, LexErrorKind>(LexErrorKind::Emoji) && final(self).kept(
                        *old(self),
                    )
                } else {
                    r == Ok::<TokenKind, LexErrorKind>(TokenKind::Unknown) && final(self).moved(
                        *old(self),
                        char_end(s, p),
                    )
                }
            }),
    {
        let ghost s = self.bytes();
        let ghost p = self.pos() - 1;
        let b0 = c as u32;
        let b1 = (self.peek(1) & 0x3f) as u32;
        let b2 = (self.peek(2) & 0x3f) as u32;
        let b3 = (self.peek(3) & 0x3f) as u32;
        let width: usize = if c < 0xc0 {
            1
        } else if c < 0xe0 {
            2
        } else if c < 0xf0 {
            3
        } else {
            4
        };
        let v = if width == 2 {
            ((b0 & 0x1f) << 6u32) | b1
        } else if width == 3 {
            ((b0 & 0x0f) << 12u32) | (b1 << 6u32) | b2
        } else if width == 4 {
            ((b0 & 0x07) << 18u32) | (b1 << 12u32) | (b2 << 6u32) | b3
        } else {
            b0
        };
        assert(v == scalar_at(s, p));
        if is_emoji(v) {
            return Err(LexErrorKind::Emoji);
        }
        let mut k: usize = 1;
        while k < width && !self.is_eof()
            invariant
                self.kept(*old(self)),
                self.bytes() == s,
                1 <= k <= width <= 4,
                width == utf8_width(c),
                self.pos() == p + k,
                p + k <= s.len(),
            decreases width - k,
        {
            self.next();
            k = k + 1;
        }
        Ok(TokenKind::Unknown)
    }

    /// Scans one token from the cursor, which is where the token starts.
    pub fn next_token(&mut self) -> (r: Result<Token, LexError>)
        requires
            old(self).wf(),
            old(self).mark() == old(self).pos(),
            old(self).pos() < old(self).bytes().len(),
        ensures
            match scan(old(self).bytes(), old(self).pos()) {
                Ok((kind, e)) => r == Ok::<Token, LexError>(
                    Token { kind, len: (e - old(self).pos()) as usize },
                ) && final(self).moved(*old(self), e),
                Err(kind) => r == Err::<Token, LexError>(
                    LexError { kind, position: old(self).pos() as usize },
                ) && final(self).kept(*old(self)) && (kind != LexErrorKind::Emoji
                    ==> final(self).pos() == old(self).bytes().len()),
            },
    {
        proof {
            reveal(scan);
            lemma_scan_bounds(self.bytes(), self.pos());
        }
        let c = self.next();
        let n = self.peek(1);
        let kind: Result<TokenKind, LexErrorKind> = if c == 0x2f {
            if n == 0x2f {
                Ok(self.line_comment())
            } else if n == 0x2a {
                self.block_comment()
            } else {
                Ok(self.operator(TokenKind::Divide))
            }
        } else if is_whitespace(c) {
            Ok(self.whitespace())
        } else if c == 0x66 && n == 0x22 {
            self.format_string()
        } else if c == 0x22 {
            self.string()
        } else if c == 0x27 {
            Ok(self.char())
        } else if is_decimal_digit(c) {
            Ok(self.number(c == 0x30))
        } else if c == 0x40 {
            Ok(self.annotation())
        } else {
            match punctuation_of(c) {
                Some(k) => Ok(k),
                None => if c == 0x2d && n == 0x3e {
                    self.next();
                    Ok(TokenKind::Arrow)
                } else {
                    match arithmetic_of(c) {
                        Some(k) => Ok(self.operator(k)),
                        None => match condition_start_of(c) {
                            Some(k) => Ok(self.condition(k)),
                            None => if c >= 0x80 {
                                self.non_ascii(c)
                            } else {
                                Ok(self.try_keyword())
                            },
                        },
                    }
                },
            }
        };
        match kind {
            Ok(kind) => Ok(Token { kind, len: self.consumed_len() }),
            Err(kind) => Err(LexError { kind, position: self.cursor_checkpoint }),
        }
    }

    /// Scans from the cursor to the end of the input.
    pub fn tokenize(&mut self) -> (r: Result<Vec<Token>, LexError>)
        requires
            old(self).wf(),
        ensures
            scan_all(old(self).bytes(), old(self).pos()) == scanned(r),
    {
        let ghost s = self.bytes();
        let ghost p0 = self.pos();
        let mut tokens: Vec<Token> = Vec::new();
        while !self.is_eof()
            invariant
                self.wf(),
                self.bytes() == s,
                s == old(self).bytes(),
                p0 == old(self).pos(),
                p0 <= self.pos() <= s.len(),
                scan_all(s, p0) == (match scan_all(s, self.pos()) {
                    Ok(rest) => Ok(tokens@ + rest),
                    Err(e) => Err::<Seq<Token>, LexError>(e),
                }),
            decreases s.len() - self.pos(),
        {
            self.reset_consumed_len();
            let ghost p = self.pos();
            proof {
                lemma_scan_bounds(s, p);
            }
            match self.next_token() {
                Ok(token) => {
                    proof {
                        let rest = scan_all(s, self.pos());
                        if let Ok(rest) = rest {
                            assert(tokens@ + (seq![token] + rest) =~= tokens@.push(token)
                                + rest);
                        }
                    }
                    tokens.push(token);
                },
                Err(e) => {
                    assert(scan_all(s, p) == Err::<Seq<Token>, LexError>(e));
                    return Err(e);
                },
            }
        }
        proof {
            assert(tokens@ + Seq::<Token>::empty() =~= tokens@);
        }
        Ok(tokens)
    }
}

} // verus!
