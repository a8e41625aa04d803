//! Pairs each token with the source slice it covers.
use vstd::prelude::*;
use vstd::slice::slice_subrange;
use vstd::string::StringSliceAdditionalSpecFns;

use crate::lexicon::{lemma_scan_bounds, scan, scan_all, scanned, total_len, LexError, Token, TokenKind};
use crate::tokenizer::Tokenizer;

verus! {

/// A token and the exact source bytes it covers.
#[derive(Debug, Clone, Copy)]
pub struct TokenPair<'a> {
    pub text: &'a [u8],
    pub token: Token,
}

/// Where token `i` of `ts` starts: the bytes that the tokens before it cover.
pub open spec fn offset(ts: Seq<Token>, i: int) -> int {
    total_len(ts.take(i))
}

/// The source slice that token `i` of `ts` covers.
pub open spec fn slice_of(s: Seq<u8>, ts: Seq<Token>, i: int) -> Seq<u8> {
    s.subrange(offset(ts, i), offset(ts, i + 1))
}

/// The slices that the tokens `ts` cut out of `s`, in order.
pub open spec fn slices(s: Seq<u8>, ts: Seq<Token>) -> Seq<Seq<u8>> {
    Seq::new(ts.len(), |i: int| slice_of(s, ts, i))
}

pub proof fn lemma_offset_step(ts: Seq<Token>, i: int)
    requires
        0 <= i < ts.len(),
    ensures
        offset(ts, i + 1) == offset(ts, i) + ts[i].len,
{
    assert(ts.take(i + 1).drop_last() =~= ts.take(i));
}

pub proof fn lemma_total_len_nonneg(ts: Seq<Token>)
    ensures
        total_len(ts) >= 0,
    decreases ts.len(),
{
    if ts.len() > 0 {
        lemma_total_len_nonneg(ts.drop_last());
    }
}

pub proof fn lemma_offset_bounds(ts: Seq<Token>, i: int)
    requires
        0 <= i <= ts.len(),
    ensures
        0 <= offset(ts, i) <= total_len(ts),
    decreases ts.len() - i,
{
    lemma_total_len_nonneg(ts.take(i));
    if i < ts.len() {
        lemma_offset_step(ts, i);
        lemma_offset_bounds(ts, i + 1);
    } else {
        assert(ts.take(i) =~= ts);
    }
}

pub proof fn lemma_total_len_prepend(t: Token, rest: Seq<Token>)
    ensures
        total_len(seq![t] + rest) == t.len + total_len(rest),
    decreases rest.len(),
{
    let whole = seq![t] + rest;
    if rest.len() > 0 {
        assert(whole.drop_last() =~= seq![t] + rest.drop_last());
        assert(whole.last() == rest.last());
        lemma_total_len_prepend(t, rest.drop_last());
        assert(total_len(whole) == total_len(whole.drop_last()) + whole.last().len);
        assert(total_len(rest) == total_len(rest.drop_last()) + rest.last().len);
    } else {
        assert(whole =~= seq![t]);
        assert(whole.drop_last() =~= Seq::<Token>::empty());
        assert(total_len(whole) == total_len(whole.drop_last()) + whole.last().len);
        assert(total_len(Seq::<Token>::empty()) == 0);
    }
}

/// The tokens of a successful scan from `p` cover the rest of the source.
pub proof fn lemma_scan_all_len(s: Seq<u8>, p: int)
    requires
        0 <= p <= s.len(),
        s.len() <= usize::MAX,
    ensures
        scan_all(s, p) matches Ok(ts) ==> total_len(ts) == s.len() - p,
    decreases s.len() - p,
{
    if p < s.len() {
        lemma_scan_bounds(s, p);
        if let Ok((kind, end)) = scan(s, p) {
            lemma_scan_all_len(s, end);
            if let Ok(rest) = scan_all(s, end) {
                lemma_total_len_prepend(Token { kind, len: (end - p) as usize }, rest);
            }
        }
    }
}

/// Laying the first `k` slices end to end gives the source up to where
/// token `k` starts.
proof fn lemma_slices_prefix(s: Seq<u8>, ts: Seq<Token>, k: int)
    requires
        total_len(ts) == s.len(),
        0 <= k <= ts.len(),
    ensures
        slices(s, ts).take(k).flatten_alt() == s.subrange(0, offset(ts, k)),
    decreases k,
{
    lemma_offset_bounds(ts, k);
    if k == 0 {
        assert(ts.take(0) =~= Seq::<Token>::empty());
        assert(s.subrange(0, 0) =~= Seq::<u8>::empty());
    } else {
        lemma_slices_prefix(s, ts, k - 1);
        lemma_offset_step(ts, k - 1);
        lemma_offset_bounds(ts, k - 1);
        assert(slices(s, ts).take(k).drop_last() =~= slices(s, ts).take(k - 1));
        assert(s.subrange(0, offset(ts, k - 1)) + slice_of(s, ts, k - 1) =~= s.subrange(
            0,
            offset(ts, k),
        ));
    }
}

/// Scanning covers its source: the token lengths add up to its byte length,
/// and the slices that those lengths cut, laid end to end, give it back.
pub proof fn lemma_scan_covers(s: Seq<u8>)
    requires
        s.len() <= usize::MAX,
    ensures
        scan_all(s, 0) matches Ok(ts) ==> total_len(ts) == s.len() && slices(s, ts).flatten()
            == s,
{
    lemma_scan_all_len(s, 0);
    if let Ok(ts) = scan_all(s, 0) {
        lemma_slices_prefix(s, ts, ts.len() as int);
        assert(slices(s, ts).take(ts.len() as int) =~= slices(s, ts));
        assert(ts.take(ts.len() as int) =~= ts);
        assert(s.subrange(0, s.len() as int) =~= s);
        slices(s, ts).lemma_flatten_and_flatten_alt_are_equivalent();
    }
}

impl<'a> TokenPair<'a> {
    /// A placeholder pair: no text, an unknown token.
    pub fn null() -> (r: Self)
        ensures
            r.text@.len() == 0,
            r.token == (Token { kind: TokenKind::Unknown, len: 0 }),
    {
        let empty: &[u8] = &[];
        TokenPair { text: empty, token: Token { kind: TokenKind::Unknown, len: 0 } }
    }
}

/// Cuts `program` into the slices that `tokens` cover, in order, without copying.
pub fn generate_pairs<'a>(program: &'a str, tokens: &Vec<Token>) -> (r: Vec<TokenPair<'a>>)
    requires
        total_len(tokens@) == program.spec_bytes().len(),
    ensures
        r@.len() == tokens@.len(),
        forall|i: int|
            0 <= i < r@.len() ==> r@[i].token == tokens@[i] && r@[i].text@ == slice_of(
                program.spec_bytes(),
                tokens@,
                i,
            ),
{
    let s = program.as_bytes();
    let n = s.len();
    let mut pairs: Vec<TokenPair<'a>> = Vec::new();
    let mut start: usize = 0;
    let mut i: usize = 0;
    while i < tokens.len()
        invariant
            s@ == program.spec_bytes(),
            n == s@.len(),
            total_len(tokens@) == s@.len(),
            i <= tokens@.len(),
            start == offset(tokens@, i as int),
            pairs@.len() == i,
            forall|k: int|
                0 <= k < i ==> pairs@[k].token == tokens@[k] && pairs@[k].text@ == slice_of(
                    s@,
                    tokens@,
                    k,
                ),
        decreases tokens@.len() - i,
    {
        proof {
            lemma_offset_step(tokens@, i as int);
            lemma_offset_bounds(tokens@, i as int + 1);
        }
        let ghost old_pairs = pairs@;
        let token = tokens[i];
        let end = start + token.len;
        let pair = TokenPair { text: slice_subrange(s, start, end), token };
        assert(pair.text@ == slice_of(s@, tokens@, i as int));
        pairs.push(pair);
        proof {
            assert forall|k: int| 0 <= k < i + 1 implies pairs@[k].token == tokens@[k]
                && pairs@[k].text@ == slice_of(s@, tokens@, k) by {
                if k < i {
                    assert(pairs@[k] == old_pairs[k]);
                }
            }
        }
        start = end;
        i = i + 1;
    }
    pairs
}

/// The tokens of `program`, or the first lexical error.
pub fn tokenize(program: &str) -> (r: Result<Vec<Token>, LexError>)
    ensures
        scanned(r) == scan_all(program.spec_bytes(), 0),
{
    let mut tokenizer = Tokenizer::new(program);
    tokenizer.tokenize()
}

/// The tokens of `program`, each paired with the text it covers.
pub fn lex<'a>(program: &'a str) -> (r: Result<Vec<TokenPair<'a>>, LexError>)
    ensures
        match scan_all(program.spec_bytes(), 0) {
            Ok(ts) => r matches Ok(pairs) && pairs@.len() == ts.len() && forall|i: int|
                0 <= i < ts.len() ==> pairs@[i].token == ts[i] && pairs@[i].text@ == slice_of(
                    program.spec_bytes(),
                    ts,
                    i,
                ),
            Err(e) => r == Err::<Vec<TokenPair<'a>>, LexError>(e),
        },
{
    let bytes = program.as_bytes();
    let n = bytes.len();
    proof {
        lemma_scan_all_len(program.spec_bytes(), 0);
    }
    match tokenize(program) {
        Ok(tokens) => Ok(generate_pairs(program, &tokens)),
        Err(e) => Err(e),
    }
}

} // verus!
