pub mod scan;

use crate::lexer::scan::{
    is_lit_char, is_ws, lemma_token_at, scan_token, token_at, tokenize_progress, ws_char,
};
use crate::token::token::{Tok, Token, TokenType};
use vstd::prelude::*;

verus! {

// ===================================================================
// The token stream as a mathematical value
// ===================================================================
/// The model of the `Eof` token: empty literal, emitted once at the end
/// of every scan.
pub open spec fn eof_tok() -> Tok {
    Tok { kind: TokenType::Eof, lit: Seq::empty() }
}

/// The tokens scanned from position `i` onward: leading whitespace is
/// skipped, then one token is cut off and the rest of the input is
/// scanned after it.  The `Eof` token is not included here.
pub open spec fn tokenize_from(s: Seq<char>, i: int) -> Seq<Tok>
    decreases s.len() - i when 0 <= i <= s.len()
{
    if i >= s.len() {
        Seq::empty()
    } else if is_ws(s[i]) {
        tokenize_from(s, i + 1)
    } else {
        let e = tokenize_progress(s, i);
        seq![Tok { kind: token_at(s, i).0, lit: s.subrange(i, e) }] + tokenize_from(s, e)
    }
}

/// The full token stream of an input line: every scanned token, then
/// the single `Eof` marker.
pub open spec fn tokenize(s: Seq<char>) -> Seq<Tok> {
    tokenize_from(s, 0).push(eof_tok())
}

/// A well-formed token stream: nonempty, ending in exactly one `Eof`.
pub open spec fn wf_toks(toks: Seq<Tok>) -> bool {
    &&& toks.len() >= 1
    &&& toks[toks.len() - 1] == eof_tok()
    &&& forall|j: int| 0 <= j < toks.len() - 1 ==> (#[trigger] toks[j]).kind != TokenType::Eof
}

/// Every token produced by the scan proper is a real token, never `Eof`.
proof fn lemma_tokenize_from_kinds(s: Seq<char>, i: int)
    requires
        0 <= i <= s.len(),
    ensures
        forall|j: int|
            0 <= j < tokenize_from(s, i).len() ==> (#[trigger] tokenize_from(s, i)[j]).kind
                != TokenType::Eof,
    decreases s.len() - i,
{
    if i >= s.len() {
    } else if is_ws(s[i]) {
        lemma_tokenize_from_kinds(s, i + 1);
    } else {
        lemma_token_at(s, i);
        lemma_tokenize_from_kinds(s, tokenize_progress(s, i));
    }
}

/// The token stream of any input line is well-formed.
pub proof fn lemma_tokenize_wf(s: Seq<char>)
    ensures
        wf_toks(tokenize(s)),
{
    lemma_tokenize_from_kinds(s, 0);
}

// ===================================================================
// The round trip law
// ===================================================================
/// All the literals of a token sequence, concatenated in order.
pub open spec fn lits_of(toks: Seq<Tok>) -> Seq<char>
    decreases toks.len(),
{
    if toks.len() == 0 {
        Seq::empty()
    } else {
        toks[0].lit + lits_of(toks.drop_first())
    }
}

/// Concatenating literals commutes with appending one token.
proof fn lemma_lits_push(toks: Seq<Tok>, t: Tok)
    ensures
        lits_of(toks.push(t)) == lits_of(toks) + t.lit,
    decreases toks.len(),
{
    if toks.len() == 0 {
        assert(toks.push(t)[0] == t);
        assert(toks.push(t).drop_first() =~= Seq::<Tok>::empty());
        assert(lits_of(Seq::<Tok>::empty()) == Seq::<char>::empty());
        assert(lits_of(toks.push(t)) == t.lit + Seq::<char>::empty());
        assert(t.lit + Seq::<char>::empty() =~= t.lit);
        assert(lits_of(toks) + t.lit =~= t.lit);
    } else {
        assert(toks.push(t).drop_first() =~= toks.drop_first().push(t));
        lemma_lits_push(toks.drop_first(), t);
        assert(toks.push(t)[0] == toks[0]);
        assert(toks[0].lit + (lits_of(toks.drop_first()) + t.lit) =~= (toks[0].lit + lits_of(
            toks.drop_first(),
        )) + t.lit);
    }
}

/// A sequence whose characters all satisfy the filter is left unchanged
/// by it.
proof fn lemma_filter_all_non_ws(s: Seq<char>)
    requires
        forall|j: int| 0 <= j < s.len() ==> !is_ws(#[trigger] s[j]),
    ensures
        s.filter(|c: char| !is_ws(c)) == s,
    decreases s.len(),
{
    reveal(Seq::filter);
    if s.len() == 0 {
        assert(s.filter(|c: char| !is_ws(c)) =~= s);
    } else {
        lemma_filter_all_non_ws(s.drop_last());
        assert(s.filter(|c: char| !is_ws(c)) =~= s);
    }
}

/// The literals scanned from position `i` onward are exactly the
/// non-whitespace characters from `i` onward.
proof fn lemma_lits_from(s: Seq<char>, i: int)
    requires
        0 <= i <= s.len(),
    ensures
        lits_of(tokenize_from(s, i)) == s.subrange(i, s.len() as int).filter(
            |c: char| !is_ws(c),
        ),
    decreases s.len() - i,
{
    reveal(Seq::filter);
    let p = |c: char| !is_ws(c);
    let n = s.len() as int;
    if i >= n {
        assert(s.subrange(i, n) =~= Seq::<char>::empty());
        assert(lits_of(tokenize_from(s, i)) =~= Seq::<char>::empty());
        assert(Seq::<char>::empty().filter(p) =~= Seq::<char>::empty());
    } else if is_ws(s[i]) {
        lemma_lits_from(s, i + 1);
        assert(s.subrange(i, n) =~= seq![s[i]] + s.subrange(i + 1, n));
        Seq::filter_distributes_over_add(seq![s[i]], s.subrange(i + 1, n), p);
        assert(seq![s[i]].last() == s[i]);
        assert(!p(s[i]));
        assert(seq![s[i]].drop_last() =~= Seq::<char>::empty());
        assert(Seq::<char>::empty().filter(p) == Seq::<char>::empty());
        assert(seq![s[i]].filter(p) == Seq::<char>::empty());
    } else {
        lemma_token_at(s, i);
        let e = tokenize_progress(s, i);
        lemma_lits_from(s, e);
        let head = Tok { kind: token_at(s, i).0, lit: s.subrange(i, e) };
        let rest = tokenize_from(s, e);
        assert(tokenize_from(s, i) == seq![head] + rest);
        assert((seq![head] + rest)[0] == head);
        assert((seq![head] + rest).drop_first() =~= rest);
        assert(lits_of(seq![head] + rest) == head.lit + lits_of(rest));
        assert(s.subrange(i, n) =~= s.subrange(i, e) + s.subrange(e, n));
        Seq::filter_distributes_over_add(s.subrange(i, e), s.subrange(e, n), p);
        assert(forall|j: int|
            0 <= j < e - i ==> !is_ws(#[trigger] s.subrange(i, e)[j]) && s.subrange(i, e)[j] == s[i
                + j]);
        lemma_filter_all_non_ws(s.subrange(i, e));
    }
}

/// Tokenization round trip: re-joining the literals of the scanned
/// tokens, in order, reproduces exactly the non-whitespace characters
/// of the input line.  Whitespace only ever separates tokens; no other
/// character is dropped, duplicated or moved by the scanner.
pub proof fn lemma_tokenize_round_trip(s: Seq<char>)
    ensures
        lits_of(tokenize(s)) == s.filter(|c: char| !is_ws(c)),
{
    lemma_lits_from(s, 0);
    lemma_lits_push(tokenize_from(s, 0), eof_tok());
    assert(s.subrange(0, s.len() as int) =~= s);
    assert(lits_of(tokenize_from(s, 0)) + Seq::<char>::empty() =~= lits_of(
        tokenize_from(s, 0),
    ));
}

/// Keyword boundary: when the scanner recognizes a command keyword, the
/// token ends at a word boundary — at the end of the input, or before a
/// character that cannot continue a word.  A keyword is never cut out
/// of the front of a longer word.
pub proof fn lemma_keyword_boundary(s: Seq<char>, i: int)
    requires
        0 <= i < s.len(),
        !is_ws(s[i]),
        token_at(s, i).0 == TokenType::Ls || token_at(s, i).0 == TokenType::Cd || token_at(
            s,
            i,
        ).0 == TokenType::Grep || token_at(s, i).0 == TokenType::Cat,
    ensures
        token_at(s, i).1 == s.len() || !is_lit_char(s[token_at(s, i).1]),
{
    lemma_token_at(s, i);
}

// ===================================================================
// The space-joined text of a token range, for error messages
// ===================================================================
/// The literals of the tokens in `[lo, hi)`, joined by single spaces.
/// Empty literals (the `Eof` token) contribute nothing.
pub open spec fn join_range(toks: Seq<Tok>, lo: int, hi: int) -> Seq<char>
    decreases hi - lo,
{
    if lo >= hi || lo < 0 || lo >= toks.len() {
        Seq::empty()
    } else {
        let lit = toks[lo].lit;
        let rest = join_range(toks, lo + 1, hi);
        if lit.len() == 0 {
            rest
        } else if rest.len() == 0 {
            lit
        } else {
            lit + seq![' '] + rest
        }
    }
}

// ===================================================================
// The lexer
// ===================================================================
/// The scanner: turns one line of input into its token stream, eagerly,
/// at construction.  Afterwards the tokens are handed out one at a time
/// through `next_token` / `peek_token`.
pub struct Lexer {
    // The input line the tokens were scanned from.
    command: String,
    // The scanned tokens, ending with the single `Eof` token.
    tokens: Vec<Token>,
    // The index of the next token that `next_token` will hand out.
    position: usize,
}

impl Lexer {
    /// The scanned token stream, as a mathematical value.
    pub closed spec fn toks(&self) -> Seq<Tok> {
        self.tokens@.map_values(|t: Token| t@)
    }

    /// The read cursor into the token stream.
    pub closed spec fn pos(&self) -> int {
        self.position as int
    }

    /// The characters of the input line.
    pub closed spec fn input(&self) -> Seq<char> {
        self.command@
    }

    /// Scan the whole input line into tokens.
    pub fn new(command: &str) -> (l: Lexer)
        ensures
            l.toks() == tokenize(command@),
            l.pos() == 0,
            l.input() == command@,
    {
        let s = command;
        let n = s.unicode_len();
        let mut tokens: Vec<Token> = Vec::new();
        let mut i: usize = 0;
        while i < n
            invariant
                i <= n,
                s@.len() == n as int,
                tokenize_from(s@, 0) == tokens@.map_values(|t: Token| t@) + tokenize_from(
                    s@,
                    i as int,
                ),
            decreases n - i,
        {
            let c = s.get_char(i);
            if ws_char(c) {
                i = i + 1;
            } else {
                let ghost prev = tokens@.map_values(|t: Token| t@);
                let (k, e) = scan_token(s, n, i);
                let lit = s.substring_char(i, e);
                let t = Token::new(k, lit);
                tokens.push(t);
                proof {
                    assert(tokenize_progress(s@, i as int) == e as int);
                    assert(tokenize_from(s@, i as int) == seq![t@] + tokenize_from(s@, e as int));
                    assert(tokens@.map_values(|t: Token| t@) =~= prev.push(t@));
                    assert(prev.push(t@) + tokenize_from(s@, e as int) =~= prev + (seq![t@]
                        + tokenize_from(s@, e as int)));
                }
                i = e;
            }
        }
        let eof = Token::new(TokenType::Eof, "");
        proof {
            reveal_strlit("");
        }
        let ghost scanned = tokens@.map_values(|t: Token| t@);
        tokens.push(eof);
        proof {
            assert(tokenize_from(s@, n as int) =~= Seq::<Tok>::empty());
            assert(scanned + Seq::<Tok>::empty() =~= scanned);
            assert(eof@.lit =~= Seq::<char>::empty());
            assert(tokens@.map_values(|t: Token| t@) =~= scanned.push(eof_tok()));
        }
        let input = command.to_owned();
        Lexer { command: input, tokens, position: 0 }
    }

    /// Hand out the next token and advance the cursor, or `None` once
    /// every token (including `Eof`) has been consumed.
    pub fn next_token(&mut self) -> (r: Option<Token>)
        ensures
            final(self).toks() == old(self).toks(),
            final(self).input() == old(self).input(),
            old(self).pos() < old(self).toks().len() ==> {
                &&& r is Some
                &&& r->0@ == old(self).toks()[old(self).pos()]
                &&& final(self).pos() == old(self).pos() + 1
            },
            old(self).pos() >= old(self).toks().len() ==> r is None && final(self).pos() == old(
                self,
            ).pos(),
    {
        if self.position >= self.tokens.len() {
            return None;
        }
        let token = self.tokens[self.position].clone();
        self.position = self.position + 1;
        Some(token)
    }

    /// How many tokens have been handed out so far.
    pub fn position(&self) -> (r: usize)
        ensures
            r as int == self.pos(),
    {
        self.position
    }

    /// Look at the next token without advancing the cursor.
    pub fn peek_token(&self) -> (r: Option<Token>)
        ensures
            self.pos() < self.toks().len() ==> r is Some && r->0@ == self.toks()[self.pos()],
            self.pos() >= self.toks().len() ==> r is None,
    {
        if self.position >= self.tokens.len() {
            return None;
        }
        let token = self.tokens[self.position].clone();
        Some(token)
    }

    /// Drop the scanned tokens, releasing their storage.
    pub fn clear(&mut self)
        ensures
            final(self).toks() == Seq::<Tok>::empty(),
            final(self).input() == old(self).input(),
    {
        self.tokens.clear();
        assert(final(self).toks() =~= Seq::<Tok>::empty());
    }

    /// The source text of the tokens in `[start, end)`, re-joined with
    /// single spaces; used to report the span a parse error came from.
    pub fn joint_tokens_to_str_by_range(&self, start: usize, end: usize) -> (r: String)
        ensures
            r@ == join_range(self.toks(), start as int, end as int),
    {
        let mut result = String::new();
        let mut i: usize = start;
        while i < end && i < self.tokens.len()
            invariant
                start <= i,
                join_range(self.toks(), start as int, end as int) == (if result@.len() == 0 {
                    join_range(self.toks(), i as int, end as int)
                } else if join_range(self.toks(), i as int, end as int).len() == 0 {
                    result@
                } else {
                    result@ + seq![' '] + join_range(self.toks(), i as int, end as int)
                }),
            decreases end - i,
        {
            let lit = self.tokens[i].literal();
            let ghost pre = result@;
            proof {
                assert(self.toks()[i as int].lit == lit@);
            }
            if !lit.as_str().is_empty() {
                if !result.as_str().is_empty() {
                    result.append(" ");
                    proof {
                        reveal_strlit(" ");
                        assert(" "@ =~= seq![' ']);
                    }
                }
                result.append(lit.as_str());
            }
            i = i + 1;
            proof {
                let toks = self.toks();
                let lo = i - 1;
                assert(join_range(toks, lo, end as int) == (if toks[lo].lit.len() == 0 {
                    join_range(toks, lo + 1, end as int)
                } else if join_range(toks, lo + 1, end as int).len() == 0 {
                    toks[lo].lit
                } else {
                    toks[lo].lit + seq![' '] + join_range(toks, lo + 1, end as int)
                }));
                if lit@.len() != 0 && pre.len() != 0 {
                    assert(result@ =~= pre + seq![' '] + lit@);
                    if join_range(toks, i as int, end as int).len() != 0 {
                        assert(pre + seq![' '] + (toks[lo].lit + seq![' '] + join_range(
                            toks,
                            i as int,
                            end as int,
                        )) =~= (pre + seq![' '] + lit@) + seq![' '] + join_range(
                            toks,
                            i as int,
                            end as int,
                        ));
                    }
                }
            }
        }
        proof {
            assert(join_range(self.toks(), i as int, end as int) =~= Seq::<char>::empty());
        }
        result
    }
}

} // verus!
