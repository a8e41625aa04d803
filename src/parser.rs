//! Builds the program tree from paired tokens.
use vstd::prelude::*;

use crate::ast::{Expression, HugTree, HugTreeEntry};
use crate::ident_table::{extends, interned, IdentTable};
use vstd::utf8::{decode_utf8, valid_utf8};
use crate::lexicon::{AnnotationKind, KeywordKind, LiteralKind, TokenKind};
use crate::literal::{literal_has_value, literal_is, text_of};
use crate::pairing::TokenPair;
use crate::value::{HugFunctionArgument, HugValue, Ident};

verus! {

#[derive(Debug, Clone, Copy, PartialEq, Eq, Structural)]
pub enum SyntaxErrorKind {
    /// A token that no statement or expression can hold at that place.
    UnexpectedToken,
    /// The input ends inside a statement.
    UnexpectedEnd,
    /// An import path with fewer than two segments.
    MalformedImport,
    /// A literal without a value.
    MalformedLiteral,
    /// Text that is not well-formed UTF-8.
    InvalidText,
    /// The identifier table is full.
    TooManyNames,
}

/// A syntax error, at the index of the token where it was found in the
/// scanner's full token stream.
#[derive(Debug, Clone, Copy, PartialEq, Eq, Structural)]
pub struct SyntaxError {
    pub kind: SyntaxErrorKind,
    pub position: usize,
}

/// Comments and whitespace, which the parser skips.
pub open spec fn is_trivia(kind: TokenKind) -> bool {
    kind == TokenKind::Whitespace || kind == TokenKind::LineComment || kind
        == TokenKind::BlockComment
}

/// The kind of token `pos` of `toks`, if there is one.
pub open spec fn kind_in(toks: Seq<TokenPair>, pos: int) -> Option<TokenKind> {
    if 0 <= pos < toks.len() {
        Some(toks[pos].token.kind)
    } else {
        None
    }
}

/// The text of token `pos` of `toks`.
pub open spec fn text_in(toks: Seq<TokenPair>, pos: int) -> Seq<u8> {
    toks[pos].text@
}

/// Whether token `pos` is a name with well-formed text.
pub open spec fn name_at(toks: Seq<TokenPair>, pos: int) -> bool {
    kind_in(toks, pos) == Some(TokenKind::Identifier) && valid_utf8(text_in(toks, pos))
}

/// Where a well-formed expression starting at `pos` ends: a literal with
/// a value, a name, or a call `name(arg, ...)`.
pub open spec fn expr_end(toks: Seq<TokenPair>, pos: int) -> Option<int>
    decreases toks.len() - pos, 1nat,
{
    if !(0 <= pos < toks.len()) {
        None
    } else {
        match kind_in(toks, pos) {
            Some(TokenKind::Literal(_)) => if literal_has_value(
                kind_in(toks, pos)->0,
                text_in(toks, pos),
            ) {
                Some(pos + 1)
            } else {
                None
            },
            Some(TokenKind::Identifier) => if !valid_utf8(text_in(toks, pos)) {
                None
            } else if kind_in(toks, pos + 1) == Some(TokenKind::OpenParenthesis) {
                if pos + 2 <= toks.len() {
                    call_end(toks, pos + 2)
                } else {
                    None
                }
            } else {
                Some(pos + 1)
            },
            _ => None,
        }
    }
}

/// Where the arguments of a call end, from just after its `(`.
pub open spec fn call_end(toks: Seq<TokenPair>, pos: int) -> Option<int>
    decreases toks.len() - pos, 3nat,
{
    if !(0 <= pos <= toks.len()) {
        None
    } else if kind_in(toks, pos) == Some(TokenKind::CloseParenthesis) {
        Some(pos + 1)
    } else {
        args_end(toks, pos)
    }
}

/// Where a list `arg, ..., arg)` that starts at `pos` ends.
pub open spec fn args_end(toks: Seq<TokenPair>, pos: int) -> Option<int>
    decreases toks.len() - pos, 2nat,
{
    if !(0 <= pos <= toks.len()) {
        None
    } else {
        match expr_end(toks, pos) {
            Some(e) => if e <= pos || e >= toks.len() {
                None
            } else if kind_in(toks, e) == Some(TokenKind::Comma) {
                args_end(toks, e + 1)
            } else if kind_in(toks, e) == Some(TokenKind::CloseParenthesis) {
                Some(e + 1)
            } else {
                None
            },
            None => None,
        }
    }
}

/// Where a dotted path continues from `pos` after `segments` names; at
/// least two names are needed.
pub open spec fn path_end(toks: Seq<TokenPair>, pos: int, segments: nat) -> Option<int>
    decreases toks.len() - pos,
{
    if !(0 <= pos <= toks.len()) {
        None
    } else if kind_in(toks, pos) == Some(TokenKind::Dot) {
        if name_at(toks, pos + 1) {
            path_end(toks, pos + 2, segments + 1)
        } else {
            None
        }
    } else if segments >= 2 {
        Some(pos)
    } else {
        None
    }
}

/// Whether token `pos` is a literal with a value.
pub open spec fn value_at(toks: Seq<TokenPair>, pos: int) -> bool {
    0 <= pos < toks.len() && literal_has_value(toks[pos].token.kind, text_in(toks, pos))
}

/// Whether token `pos` is a quoted literal with a value: a string, format
/// string or character.
pub open spec fn quoted_at(toks: Seq<TokenPair>, pos: int) -> bool {
    value_at(toks, pos) && (kind_in(toks, pos) == Some(TokenKind::Literal(LiteralKind::String))
        || kind_in(toks, pos) == Some(TokenKind::Literal(LiteralKind::Char)) || kind_in(toks, pos)
        == Some(TokenKind::Literal(LiteralKind::FormatString)))
}

/// Where the parameters of a function definition end, from just after its `(`.
pub open spec fn params_end(toks: Seq<TokenPair>, pos: int) -> Option<int>
    decreases toks.len() - pos, 1nat,
{
    if !(0 <= pos < toks.len()) {
        None
    } else if kind_in(toks, pos) == Some(TokenKind::CloseParenthesis) {
        Some(pos + 1)
    } else {
        params_rest(toks, pos)
    }
}

/// Where a list `name [= literal], ...)` that starts at `pos` ends.
pub open spec fn params_rest(toks: Seq<TokenPair>, pos: int) -> Option<int>
    decreases toks.len() - pos, 0nat,
{
    if !(0 <= pos < toks.len()) || !name_at(toks, pos) {
        None
    } else {
        let after = if kind_in(toks, pos + 1) == Some(TokenKind::Assign) {
            if value_at(toks, pos + 2) {
                Some(pos + 3)
            } else {
                None
            }
        } else {
            Some(pos + 1)
        };
        match after {
            Some(f) => if kind_in(toks, f) == Some(TokenKind::Comma) {
                params_rest(toks, f + 1)
            } else if kind_in(toks, f) == Some(TokenKind::CloseParenthesis) {
                Some(f + 1)
            } else {
                None
            },
            None => None,
        }
    }
}

/// Where a well-formed statement starting at `pos` ends.
pub open spec fn statement_end(toks: Seq<TokenPair>, pos: int) -> Option<int> {
    match kind_in(toks, pos) {
        Some(TokenKind::Keyword(KeywordKind::Module)) => if name_at(toks, pos + 1) {
            Some(pos + 2)
        } else {
            None
        },
        Some(TokenKind::Annotation(AnnotationKind::Extern)) => if kind_in(toks, pos + 1) == Some(
            TokenKind::OpenParenthesis,
        ) && quoted_at(toks, pos + 2) && kind_in(toks, pos + 3) == Some(
            TokenKind::CloseParenthesis,
        ) && kind_in(toks, pos + 4) == Some(TokenKind::Keyword(KeywordKind::Module)) && name_at(
            toks,
            pos + 5,
        ) {
            Some(pos + 6)
        } else {
            None
        },
        Some(TokenKind::Keyword(KeywordKind::Use)) => if name_at(toks, pos + 1) {
            path_end(toks, pos + 2, 1)
        } else {
            None
        },
        Some(TokenKind::Keyword(KeywordKind::Let)) => if name_at(toks, pos + 1) && kind_in(
            toks,
            pos + 2,
        ) == Some(TokenKind::Assign) {
            expr_end(toks, pos + 3)
        } else {
            None
        },
        Some(TokenKind::Keyword(KeywordKind::Fn)) => if name_at(toks, pos + 1) && kind_in(
            toks,
            pos + 2,
        ) == Some(TokenKind::OpenParenthesis) {
            params_end(toks, pos + 3)
        } else {
            None
        },
        _ => expr_end(toks, pos),
    }
}

/// Whether `toks[pos..]` is a sequence of well-formed statements.
pub open spec fn program_ok(toks: Seq<TokenPair>, pos: int) -> bool
    decreases toks.len() - pos,
{
    if !(0 <= pos < toks.len()) {
        true
    } else {
        match statement_end(toks, pos) {
            Some(e) => e > pos && (e >= toks.len() || program_ok(toks, e)),
            None => false,
        }
    }
}

/// A pair that the parser reads: not a comment or whitespace.
pub open spec fn meaningful(p: TokenPair) -> bool {
    !is_trivia(p.token.kind)
}

/// The tokens that carry meaning, each with its index in the full stream.
pub struct HugTreeParser<'a> {
    pairs: Vec<(usize, TokenPair<'a>)>,
}

broadcast use crate::ident_table::lemma_extends_trans;

proof fn lemma_extends_refl(a: IdentTable)
    requires
        a.wf(),
    ensures
        extends(a, a),
{
    assert(a@.subrange(0, a@.len() as int) =~= a@);
}

impl<'a> HugTreeParser<'a> {
    pub closed spec fn len(&self) -> nat {
        self.pairs@.len()
    }

    /// The meaningful pairs, in order.
    pub closed spec fn tokens(&self) -> Seq<TokenPair<'a>> {
        self.pairs@.map_values(|e: (usize, TokenPair<'a>)| e.1)
    }

    /// The kind of the meaningful token at `pos`, if there is one.
    pub open spec fn kind(&self, pos: int) -> Option<TokenKind> {
        kind_in(self.tokens(), pos)
    }

    /// The text of the meaningful token at `pos`.
    pub open spec fn text(&self, pos: int) -> Seq<u8> {
        text_in(self.tokens(), pos)
    }

    /// The index in the full stream of the meaningful token at `pos`.
    pub closed spec fn index(&self, pos: int) -> usize {
        self.pairs@[pos].0
    }

    /// Whether the identifier table, at `names` entries, has room for one
    /// more name per token from `pos` on.
    pub open spec fn room(&self, names: nat, pos: int) -> bool {
        names + (self.len() - pos) < usize::MAX
    }

    /// The statement kinds that run once, before the main sequence.
    pub open spec fn starts_declaration(&self, pos: int) -> bool {
        self.kind(pos) == Some(TokenKind::Keyword(KeywordKind::Module)) || self.kind(pos) == Some(
            TokenKind::Keyword(KeywordKind::Use),
        ) || self.kind(pos) == Some(TokenKind::Annotation(AnnotationKind::Extern))
    }

    /// Keeps the tokens that are not comments or whitespace, in order.
    pub fn new(pairs: &Vec<TokenPair<'a>>) -> (r: Self)
        ensures
            r.tokens() == pairs@.filter(|p: TokenPair<'a>| meaningful(p)),
            r.len() == r.tokens().len(),
            forall|i: int| 0 <= i < r.len() ==> r.kind(i) == Some(r.tokens()[i].token.kind),
    {
        let mut kept: Vec<(usize, TokenPair<'a>)> = Vec::new();
        let mut i: usize = 0;
        while i < pairs.len()
            invariant
                i <= pairs@.len(),
                kept@.map_values(|e: (usize, TokenPair<'a>)| e.1) == pairs@.take(i as int).filter(
                    |p: TokenPair<'a>| meaningful(p),
                ),
            decreases pairs@.len() - i,
        {
            let pair = pairs[i];
            let ghost before = kept@;
            proof {
                reveal(Seq::filter);
                assert(pairs@.take(i + 1).drop_last() =~= pairs@.take(i as int));
                assert(pairs@.take(i + 1).last() == pair);
            }
            match pair.token.kind {
                TokenKind::Whitespace | TokenKind::LineComment | TokenKind::BlockComment => {},
                _ => {
                    kept.push((i, pair));
                    proof {
                        assert(kept@.map_values(|e: (usize, TokenPair<'a>)| e.1) =~= before.map_values(
                            |e: (usize, TokenPair<'a>)| e.1,
                        ).push(pair));
                    }
                },
            }
            i = i + 1;
        }
        proof {
            assert(pairs@.take(pairs@.len() as int) =~= pairs@);
        }
        HugTreeParser { pairs: kept }
    }

    fn kind_at(&self, pos: usize) -> (r: Option<TokenKind>)
        ensures
            pos < self.len() <==> r is Some,
            self.len() <= usize::MAX,
            r == self.kind(pos as int),
    {
        let n = self.pairs.len();
        if pos < n {
            Some(self.pairs[pos].1.token.kind)
        } else {
            None
        }
    }

    /// The error for a token that does not fit at `pos`, or for the end.
    fn error_at(&self, pos: usize) -> (r: SyntaxError)
        ensures
            pos >= self.len() ==> r.kind == SyntaxErrorKind::UnexpectedEnd,
            pos < self.len() ==> r.kind == SyntaxErrorKind::UnexpectedToken,
    {
        if pos < self.pairs.len() {
            SyntaxError { kind: SyntaxErrorKind::UnexpectedToken, position: self.pairs[pos].0 }
        } else {
            SyntaxError { kind: SyntaxErrorKind::UnexpectedEnd, position: self.end_position() }
        }
    }

    /// The stream index just past the last meaningful token.
    fn end_position(&self) -> usize {
        if self.pairs.len() == 0 {
            0
        } else {
            let last = self.pairs[self.pairs.len() - 1].0;
            if last < usize::MAX {
                last + 1
            } else {
                last
            }
        }
    }

    /// Consumes a token of `kind` at `pos`.
    fn expect(&self, pos: usize, kind: TokenKind) -> (r: Result<usize, SyntaxError>)
        ensures
            r matches Ok(next) ==> next == pos + 1 && next <= self.len(),
            r is Ok <==> self.kind(pos as int) == Some(kind),
    {
        match self.kind_at(pos) {
            Some(k) => if k == kind {
                Ok(pos + 1)
            } else {
                Err(self.error_at(pos))
            },
            None => Err(self.error_at(pos)),
        }
    }

    /// Interns the identifier at `pos`.
    fn ident(&self, pos: usize, idents: &mut IdentTable) -> (r: Result<(Ident, usize), SyntaxError>)
        requires
            old(idents).wf(),
        ensures
            extends(*old(idents), *final(idents)),
            r matches Ok((id, next)) ==> next == pos + 1 && next <= self.len() && id.0
                < final(idents)@.len(),
            r is Ok ==> final(idents)@.len() <= old(idents)@.len() + 1,
            r is Ok ==> self.kind(pos as int) == Some(TokenKind::Identifier) && valid_utf8(
                self.text(pos as int),
            ),
            self.kind(pos as int) != Some(TokenKind::Identifier) ==> r is Err && *final(idents)
                == *old(idents),
            self.kind(pos as int) == Some(TokenKind::Identifier) ==> {
                let text = self.text(pos as int);
                &&& !valid_utf8(text) ==> r == Err::<(Ident, usize), SyntaxError>(
                    SyntaxError {
                        kind: SyntaxErrorKind::InvalidText,
                        position: self.index(pos as int),
                    },
                )
                &&& valid_utf8(text) && old(idents)@.len() < usize::MAX ==> (r matches Ok((id, _))
                    && (final(idents)@, id.0 as int) == interned(old(idents)@, decode_utf8(text)))
            },
    {
        proof {
            lemma_extends_refl(*idents);
        }
        if pos >= self.pairs.len() {
            return Err(self.error_at(pos));
        }
        let (index, pair) = self.pairs[pos];
        if pair.token.kind != TokenKind::Identifier {
            return Err(self.error_at(pos));
        }
        let name = match text_of(pair.text) {
            Some(name) => name,
            None => {
                return Err(SyntaxError { kind: SyntaxErrorKind::InvalidText, position: index });
            },
        };
        if idents.len() == usize::MAX {
            return Err(SyntaxError { kind: SyntaxErrorKind::TooManyNames, position: index });
        }
        let ghost before = *idents;
        proof {
            vstd::utf8::encode_utf8_decode_utf8(name@);
        }
        let id = idents.ident_of(name);
        proof {
            crate::ident_table::lemma_intern_stable(before@, name@, name@);
            let (t1, i) = crate::ident_table::interned(before@, name@);
            assert(idents@.subrange(0, before@.len() as int) =~= before@);
        }
        Ok((id, pos + 1))
    }

    /// The value of the literal at `pos`.
    fn literal(&self, pos: usize) -> (r: Result<(HugValue, usize), SyntaxError>)
        ensures
            r matches Ok((_, next)) ==> next == pos + 1 && next <= self.len(),
            pos < self.len() ==> (r is Ok <==> literal_has_value(
                self.kind(pos as int)->0,
                self.text(pos as int),
            )),
            r matches Ok((v, _)) ==> literal_is(self.kind(pos as int)->0, self.text(pos as int), v),
    {
        if pos >= self.pairs.len() {
            return Err(self.error_at(pos));
        }
        let (index, pair) = self.pairs[pos];
        match pair.parse_literal() {
            Some(v) => Ok((v, pos + 1)),
            None => Err(SyntaxError { kind: SyntaxErrorKind::MalformedLiteral, position: index }),
        }
    }

    /// An expression at `pos`: a literal, a variable, or a call
    /// `name(arg, ...)`; returns it with the position after it.
    pub fn expression(&self, pos: usize, idents: &mut IdentTable) -> (r: Result<
        (Expression, usize),
        SyntaxError,
    >)
        requires
            old(idents).wf(),
        ensures
            extends(*old(idents), *final(idents)),
            r matches Ok((_, next)) ==> pos < next <= self.len(),
            self.kind(pos as int) matches Some(TokenKind::Literal(_)) ==> {
                &&& r is Ok <==> literal_has_value(self.kind(pos as int)->0, self.text(pos as int))
                &&& r matches Ok((e, _)) ==> (e matches Expression::Literal(v) && literal_is(
                    self.kind(pos as int)->0,
                    self.text(pos as int),
                    v,
                ))
                &&& *final(idents) == *old(idents)
            },
            self.kind(pos as int) == Some(TokenKind::Identifier) && self.kind(pos + 1) != Some(
                TokenKind::OpenParenthesis,
            ) && valid_utf8(self.text(pos as int)) && old(idents)@.len() < usize::MAX ==> (r
                matches Ok((e, next)) && next == pos + 1 && (e matches Expression::Variable(id) && (
            final(idents)@, id.0 as int) == interned(old(idents)@, decode_utf8(self.text(pos as int))))),
            !(self.kind(pos as int) matches Some(TokenKind::Literal(_))) && self.kind(pos as int)
                != Some(TokenKind::Identifier) ==> r is Err,
            r matches Ok((_, next)) ==> final(idents)@.len() <= old(idents)@.len() + (next - pos),
            r matches Ok((_, next)) ==> expr_end(self.tokens(), pos as int) == Some(next as int),
            self.room(old(idents)@.len(), pos as int) && expr_end(self.tokens(), pos as int) is Some ==> r is Ok,
            r matches Ok((e, next)) ==> match self.kind(pos as int) {
                Some(TokenKind::Literal(_)) => e is Literal && next == pos + 1,
                Some(TokenKind::Identifier) => if self.kind(pos + 1) == Some(
                    TokenKind::OpenParenthesis,
                ) {
                    e is Call
                } else {
                    e is Variable && next == pos + 1
                },
                _ => false,
            },
        decreases self.len() - pos,
    {
        proof {
            lemma_extends_refl(*idents);
        }
        match self.kind_at(pos) {
            Some(TokenKind::Literal(_)) => {
                let (v, next) = self.literal(pos)?;
                Ok((Expression::Literal(v), next))
            },
            Some(TokenKind::Identifier) => {
                let (id, next) = self.ident(pos, idents)?;
                if self.kind_at(next) != Some(TokenKind::OpenParenthesis) {
                    return Ok((Expression::Variable(id), next));
                }
                let mut at = next + 1;
                let mut args: Vec<Expression> = Vec::new();
                if self.kind_at(at) == Some(TokenKind::CloseParenthesis) {
                    return Ok((Expression::Call { function: id, args }, at + 1));
                }
                proof {
                    assert(call_end(self.tokens(), pos + 2) == args_end(self.tokens(), pos + 2));
                }
                loop
                    invariant
                        extends(*old(idents), *idents),
                        pos < at <= self.len(),
                        pos + 2 <= at,
                        self.kind(pos as int) == Some(TokenKind::Identifier),
                        valid_utf8(self.text(pos as int)),
                        self.kind(pos + 1) == Some(TokenKind::OpenParenthesis),
                        idents@.len() <= old(idents)@.len() + (at - pos),
                        expr_end(self.tokens(), pos as int) == args_end(self.tokens(), at as int),
                    decreases self.len() - at,
                {
                    let (arg, after) = self.expression(at, idents)?;
                    args.push(arg);
                    match self.kind_at(after) {
                        Some(TokenKind::Comma) => {
                            at = after + 1;
                        },
                        Some(TokenKind::CloseParenthesis) => {
                            return Ok((Expression::Call { function: id, args }, after + 1));
                        },
                        _ => {
                            return Err(self.error_at(after));
                        },
                    }
                }
            },
            _ => Err(self.error_at(pos)),
        }
    }

    /// A dotted path at `pos`; an import names a module and at least one member.
    #[verifier::loop_isolation(false)]
    fn import_path(&self, pos: usize, idents: &mut IdentTable) -> (r: Result<
        (Vec<Ident>, usize),
        SyntaxError,
    >)
        requires
            old(idents).wf(),
        ensures
            extends(*old(idents), *final(idents)),
            r matches Ok((path, next)) ==> path@.len() >= 2 && pos < next <= self.len(),
            r matches Ok((_, next)) ==> final(idents)@.len() <= old(idents)@.len() + (next - pos),
            r matches Ok((_, next)) ==> name_at(self.tokens(), pos as int) && path_end(
                self.tokens(),
                pos + 1,
                1,
            ) == Some(next as int),
            self.room(old(idents)@.len(), pos as int) && name_at(self.tokens(), pos as int)
                && path_end(self.tokens(), pos + 1, 1) is Some ==> r is Ok,
            self.kind(pos as int) == Some(TokenKind::Identifier) && self.kind(pos + 1) != Some(
                TokenKind::Dot,
            ) && valid_utf8(self.text(pos as int)) && old(idents)@.len() < usize::MAX ==> r
                == Err::<(Vec<Ident>, usize), SyntaxError>(
                SyntaxError { kind: SyntaxErrorKind::MalformedImport, position: self.index(pos as int) },
            ),
    {
        let (first, mut at) = self.ident(pos, idents)?;
        let mut path: Vec<Ident> = Vec::new();
        path.push(first);
        while self.kind_at(at) == Some(TokenKind::Dot)
            invariant
                extends(*old(idents), *idents),
                pos < at <= self.len(),
                path@.len() >= 1,
                path@.len() == 1 ==> at == pos + 1,
                path@.len() >= 2 ==> self.kind(pos + 1) == Some(TokenKind::Dot),
                name_at(self.tokens(), pos as int),
                path_end(self.tokens(), pos + 1, 1) == path_end(
                    self.tokens(),
                    at as int,
                    path@.len(),
                ),
                idents@.len() <= old(idents)@.len() + (at - pos),
            decreases self.len() - at,
        {
            let (id, next) = self.ident(at + 1, idents)?;
            path.push(id);
            at = next;
        }
        if path.len() < 2 {
            return Err(SyntaxError { kind: SyntaxErrorKind::MalformedImport, position: self.pairs[pos].0 });
        }
        Ok((path, at))
    }

    /// The arguments of a function definition, after its `(`: names, each
    /// with an optional `= literal` default, up to the closing `)`.
    fn arguments(&self, pos: usize, idents: &mut IdentTable) -> (r: Result<
        (Vec<HugFunctionArgument>, usize),
        SyntaxError,
    >)
        requires
            old(idents).wf(),
        ensures
            extends(*old(idents), *final(idents)),
            r matches Ok((_, next)) ==> pos < next <= self.len(),
            r matches Ok((_, next)) ==> final(idents)@.len() <= old(idents)@.len() + (next - pos),
            r matches Ok((_, next)) ==> params_end(self.tokens(), pos as int) == Some(next as int),
            self.room(old(idents)@.len(), pos as int) && params_end(self.tokens(), pos as int)
                is Some ==> r is Ok,
    {
        proof {
            lemma_extends_refl(*idents);
        }
        let mut args: Vec<HugFunctionArgument> = Vec::new();
        if pos >= self.pairs.len() {
            return Err(self.error_at(pos));
        }
        if self.kind_at(pos) == Some(TokenKind::CloseParenthesis) {
            return Ok((args, pos + 1));
        }
        let mut at = pos;
        loop
            invariant
                extends(*old(idents), *idents),
                pos <= at <= self.len(),
                params_end(self.tokens(), pos as int) == params_rest(self.tokens(), at as int),
                idents@.len() <= old(idents)@.len() + (at - pos),
            decreases self.len() - at,
        {
            let (ident, next) = self.ident(at, idents)?;
            let mut after = next;
            let mut default_value: Option<HugValue> = None;
            if self.kind_at(next) == Some(TokenKind::Assign) {
                let (v, n) = self.literal(next + 1)?;
                default_value = Some(v);
                after = n;
            }
            args.push(HugFunctionArgument { ident, default_value });
            match self.kind_at(after) {
                Some(TokenKind::Comma) => {
                    at = after + 1;
                },
                Some(TokenKind::CloseParenthesis) => {
                    return Ok((args, after + 1));
                },
                _ => {
                    return Err(self.error_at(after));
                },
            }
        }
    }

    /// One statement at `pos`, appended to `tree`; returns the position after it.
    fn statement(&self, pos: usize, idents: &mut IdentTable, tree: &mut HugTree) -> (r: Result<
        usize,
        SyntaxError,
    >)
        requires
            old(idents).wf(),
            pos < self.len(),
        ensures
            extends(*old(idents), *final(idents)),
            r matches Ok(next) ==> pos < next <= self.len(),
            r matches Ok(next) ==> final(idents)@.len() <= old(idents)@.len() + (next - pos),
            r matches Ok(next) ==> statement_end(self.tokens(), pos as int) == Some(next as int),
            self.room(old(idents)@.len(), pos as int) && statement_end(self.tokens(), pos as int)
                is Some ==> r is Ok,
            r is Ok ==> if self.starts_declaration(pos as int) {
                final(tree).on_load@.len() == old(tree).on_load@.len() + 1
                    && final(tree).on_load@.subrange(0, old(tree).on_load@.len() as int) == old(
                    tree,
                ).on_load@ && final(tree).entries@ == old(tree).entries@
            } else {
                final(tree).entries@.len() == old(tree).entries@.len() + 1
                    && final(tree).entries@.subrange(0, old(tree).entries@.len() as int) == old(
                    tree,
                ).entries@ && final(tree).on_load@ == old(tree).on_load@
            },
            r is Ok ==> match self.kind(pos as int) {
                Some(TokenKind::Keyword(KeywordKind::Module)) => final(tree).on_load@.last() is ModuleDefinition,
                Some(TokenKind::Keyword(KeywordKind::Use)) => final(tree).on_load@.last() is Import,
                Some(TokenKind::Annotation(AnnotationKind::Extern)) => final(tree).on_load@.last() is ExternalModuleDefinition,
                Some(TokenKind::Keyword(KeywordKind::Let)) => final(tree).entries@.last() is VariableDefinition,
                Some(TokenKind::Keyword(KeywordKind::Fn)) => final(tree).entries@.last() is FunctionDefinition,
                _ => final(tree).entries@.last() is Expression,
            },
            self.kind(pos as int) == Some(TokenKind::Keyword(KeywordKind::Use)) && self.kind(pos + 1)
                == Some(TokenKind::Identifier) && self.kind(pos + 2) != Some(TokenKind::Dot)
                && valid_utf8(self.text(pos + 1)) && old(idents)@.len() < usize::MAX ==> r == Err::<
                usize,
                SyntaxError,
            >(SyntaxError { kind: SyntaxErrorKind::MalformedImport, position: self.index(pos + 1) }),
    {
        proof {
            lemma_extends_refl(*idents);
        }
        match self.kind_at(pos) {
            Some(TokenKind::Keyword(KeywordKind::Module)) => {
                let (module, next) = self.ident(pos + 1, idents)?;
                tree.on_load.push(HugTreeEntry::ModuleDefinition { module });
                Ok(next)
            },
            Some(TokenKind::Annotation(AnnotationKind::Extern)) => {
                let at = self.expect(pos + 1, TokenKind::OpenParenthesis)?;
                let location = match self.literal(at)? {
                    (HugValue::String(s), _) => s,
                    _ => {
                        return Err(self.error_at(at));
                    },
                };
                let at = self.expect(at + 1, TokenKind::CloseParenthesis)?;
                let at = self.expect(at, TokenKind::Keyword(KeywordKind::Module))?;
                let (module, next) = self.ident(at, idents)?;
                tree.on_load.push(HugTreeEntry::ExternalModuleDefinition { module, location });
                Ok(next)
            },
            Some(TokenKind::Keyword(KeywordKind::Use)) => {
                let (path, next) = self.import_path(pos + 1, idents)?;
                tree.on_load.push(HugTreeEntry::Import { path });
                Ok(next)
            },
            Some(TokenKind::Keyword(KeywordKind::Let)) => {
                let (variable, at) = self.ident(pos + 1, idents)?;
                let at = self.expect(at, TokenKind::Assign)?;
                let (value, next) = self.expression(at, idents)?;
                tree.entries.push(HugTreeEntry::VariableDefinition { variable, value });
                Ok(next)
            },
            Some(TokenKind::Keyword(KeywordKind::Fn)) => {
                let (ident, at) = self.ident(pos + 1, idents)?;
                let at = self.expect(at, TokenKind::OpenParenthesis)?;
                let (arguments, next) = self.arguments(at, idents)?;
                tree.entries.push(HugTreeEntry::FunctionDefinition { ident, arguments });
                Ok(next)
            },
            _ => {
                let (expression, next) = self.expression(pos, idents)?;
                tree.entries.push(HugTreeEntry::Expression(expression));
                Ok(next)
            },
        }
    }

    /// Parses every statement, in order.
    pub fn parse(&self, idents: &mut IdentTable) -> (r: Result<HugTree, SyntaxError>)
        requires
            old(idents).wf(),
        ensures
            extends(*old(idents), *final(idents)),
            self.len() == 0 ==> (r matches Ok(t) && t.on_load@.len() == 0 && t.entries@.len()
                == 0),
            r is Ok ==> program_ok(self.tokens(), 0),
            self.room(old(idents)@.len(), 0) ==> (r is Ok <==> program_ok(self.tokens(), 0)),
    {
        proof {
            lemma_extends_refl(*idents);
        }
        let mut tree = HugTree::new();
        let mut pos: usize = 0;
        while pos < self.pairs.len()
            invariant
                extends(*old(idents), *idents),
                pos <= self.len(),
                self.len() == 0 ==> tree.on_load@.len() == 0 && tree.entries@.len() == 0,
                program_ok(self.tokens(), 0) == program_ok(self.tokens(), pos as int),
                idents@.len() <= old(idents)@.len() + pos,
            decreases self.len() - pos,
        {
            pos = self.statement(pos, idents, &mut tree)?;
        }
        Ok(tree)
    }
}

impl HugTree {
    /// The tree that the meaningful tokens of `pairs` spell, with every name
    /// interned in `idents`.
    pub fn from_token_pairs(pairs: &Vec<TokenPair>, idents: &mut IdentTable) -> (r: Result<
        HugTree,
        SyntaxError,
    >)
        requires
            old(idents).wf(),
        ensures
            extends(*old(idents), *final(idents)),
            pairs@.filter(|p: TokenPair| meaningful(p)).len() == 0 ==> (r matches Ok(t)
                && t.on_load@.len() == 0 && t.entries@.len() == 0),
            r is Ok ==> program_ok(pairs@.filter(|p: TokenPair| meaningful(p)), 0),
            old(idents)@.len() + pairs@.len() < usize::MAX ==> (r is Ok <==> program_ok(
                pairs@.filter(|p: TokenPair| meaningful(p)),
                0,
            )),
    {
        proof {
            pairs@.lemma_filter_len(|p: TokenPair| meaningful(p));
        }
        let parser = HugTreeParser::new(pairs);
        parser.parse(idents)
    }
}

} // verus!
