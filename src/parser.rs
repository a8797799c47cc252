use vstd::prelude::*;
use crate::ast::{
    arena_ordered, indices_below, lemma_push_ordered, statement_below, statements_below,
    expression_views, identifier_views, index_views, statement_views, Expression,
    ExpressionStatement, ExpressionView, Identifier, LetStatement, Program, Statement,
};
use crate::grammar::{
    kind_at, parse_arguments, parse_block, parse_expression, parse_infix, parse_more_arguments,
    parse_more_parameters, parse_parameters, parse_prefix, parse_statement, parse_statements,
    precedence, program_of, recovery_point, tok_at, LOWEST, PREFIX,
};
use crate::lexer::{lemma_scan_all, lemma_scan_all_eof, lemma_scan_advances, scan, scan_all, Lexer};
use crate::token::{eof_view, Token, TokenType, TokenView};

verus! {

/// A token of an unexpected kind. `expected` is the kind that was owed, or
/// `None` where an expression was owed; `position` is the index of the
/// offending token among the tokens of the input, counting from zero.
#[derive(Debug, Clone, Copy, PartialEq, Eq, Structural)]
pub struct ParseError {
    pub expected: Option<TokenType>,
    pub found: TokenType,
    pub position: usize,
}

/// Whether `toks` is a complete token list: it ends with the end-of-input
/// token and holds it nowhere else.
pub open spec fn token_list(toks: Seq<TokenView>) -> bool {
    &&& 1 <= toks.len()
    &&& toks.last() == eof_view()
    &&& forall|k: int| 0 <= k < toks.len() - 1 ==> (#[trigger] toks[k]).0 != TokenType::EOF
}

/// The smaller of two integers.
pub open spec fn min(a: int, b: int) -> int {
    if a <= b {
        a
    } else {
        b
    }
}

/// The lexer is at index `j` of `toks` when what it yields from here on is
/// the rest of the list from `j`.
pub open spec fn lexer_at(s: Seq<char>, off: nat, toks: Seq<TokenView>, j: int) -> bool {
    scan_all(s, off) == toks.subrange(j, toks.len() as int)
}

/// One scan moves the lexer one token along the list, or keeps it at the
/// end-of-input token.
proof fn lemma_lexer_step(s: Seq<char>, off: nat, toks: Seq<TokenView>, j: int)
    requires
        off <= s.len(),
        token_list(toks),
        0 <= j < toks.len(),
        lexer_at(s, off, toks, j),
    ensures
        scan(s, off).0 == toks[j],
        scan(s, off).1 <= s.len(),
        lexer_at(s, scan(s, off).1, toks, min(j + 1, toks.len() - 1)),
{
    lemma_scan_all(s, off);
    lemma_scan_advances(s, off);
    assert(scan_all(s, off)[0] == toks[j]);
    if scan(s, off).0.0 == TokenType::EOF {
        lemma_scan_all_eof(s, off);
        assert(j == toks.len() - 1);
    } else {
        assert(j < toks.len() - 1);
        assert(scan_all(s, off) == seq![scan(s, off).0] + scan_all(s, scan(s, off).1));
        let whole = scan_all(s, off);
        let rest = scan_all(s, scan(s, off).1);
        assert forall|i: int| 0 <= i < rest.len() implies rest[i] == toks[j + 1 + i] by {
            assert(whole[i + 1] == rest[i]);
        }
        assert(rest =~= toks.subrange(j + 1, toks.len() as int));
    }
}

/// `a1` keeps every node of `a0` where it was.
pub open spec fn extends(a0: Seq<Expression>, a1: Seq<Expression>) -> bool {
    &&& a0.len() <= a1.len()
    &&& forall|i: int| 0 <= i < a0.len() ==> a1[i] == a0[i]
}

/// An error found by a parse that started at index `k0` and stopped at
/// index `k1`: at a token of the list, not before where the parse stopped.
pub open spec fn error_within(e: ParseError, k0: int, k1: int, toks: Seq<TokenView>) -> bool {
    k0 <= k1 <= e.position < toks.len()
}

/// The binding power of a token kind; see `precedence`.
fn precedence_of(kind: TokenType) -> (r: u8)
    ensures
        r as nat == precedence(kind),
{
    match kind {
        TokenType::EQ | TokenType::NEQ => 1,
        TokenType::LT | TokenType::GT => 2,
        TokenType::PLUS | TokenType::MINUS => 3,
        TokenType::ASTERISK | TokenType::SLASH => 4,
        TokenType::LPAREN => 6,
        _ => 0,
    }
}

/// A parser: a lexer and a window of two tokens, the current one and the
/// next. The tokens are numbered from the one the parser started on; the
/// current one is number `index`.
pub struct Parser {
    lexer: Lexer,
    cur_token: Token,
    peek_token: Token,
    index: usize,
    tokens: Ghost<Seq<TokenView>>,
}

impl Parser {
    /// Every token the parser reads, from the first one to end of input.
    pub closed spec fn tokens(&self) -> Seq<TokenView> {
        self.tokens@
    }

    /// The number of the current token.
    pub closed spec fn index(&self) -> int {
        self.index as int
    }

    pub closed spec fn wf(&self) -> bool {
        &&& self.lexer.wf()
        &&& token_list(self.tokens@)
        &&& self.tokens@.len() <= self.lexer.source().len() + 1
        &&& self.index < self.tokens@.len()
        &&& self.cur_token@ == tok_at(self.tokens@, self.index as int)
        &&& self.peek_token@ == tok_at(self.tokens@, self.index + 1)
        &&& lexer_at(
            self.lexer.source(),
            self.lexer.offset(),
            self.tokens@,
            min(self.index + 2, self.tokens@.len() - 1),
        )
    }

    /// A parser over the tokens that `lexer` yields from where it stands.
    pub fn new(lexer: Lexer) -> (r: Parser)
        requires
            lexer.wf(),
        ensures
            r.wf(),
            r.tokens() == scan_all(lexer.source(), lexer.offset()),
            r.index() == 0,
    {
        let mut lexer = lexer;
        let ghost s = lexer.source();
        let ghost toks = scan_all(s, lexer.offset());
        proof {
            lexer.lemma_offset_in_range();
            lemma_scan_all(s, lexer.offset());
            assert(toks.last() == eof_view());
            assert(toks.subrange(0, toks.len() as int) =~= toks);
            lemma_lexer_step(s, lexer.offset(), toks, 0);
        }
        let cur_token = lexer.next_token();
        proof {
            lexer.lemma_offset_in_range();
            lemma_lexer_step(s, lexer.offset(), toks, min(1, toks.len() - 1));
        }
        let peek_token = lexer.next_token();
        Parser { lexer, cur_token, peek_token, index: 0, tokens: Ghost(toks) }
    }

    /// Moves the window one token along: the next token becomes the current
    /// one and a fresh token is read. At the end of input the window stays.
    pub fn next_token(&mut self)
        requires
            old(self).wf(),
        ensures
            final(self).wf(),
            final(self).tokens() == old(self).tokens(),
            final(self).index() == min(old(self).index() + 1, old(self).tokens().len() - 1),
    {
        let _ = self.take_token();
    }

    /// Moves the window one token along, as `next_token` does, and hands
    /// out the token that was current.
    fn take_token(&mut self) -> (t: Token)
        requires
            old(self).wf(),
        ensures
            final(self).wf(),
            final(self).tokens() == old(self).tokens(),
            final(self).index() == min(old(self).index() + 1, old(self).tokens().len() - 1),
            t@ == tok_at(old(self).tokens(), old(self).index()),
    {
        let ghost toks = self.tokens@;
        proof {
            self.lexer.lemma_offset_in_range();
            lemma_lexer_step(
                self.lexer.source(),
                self.lexer.offset(),
                toks,
                min(self.index + 2, toks.len() - 1),
            );
        }
        let at_end = self.cur_token.token_type == TokenType::EOF;
        std::mem::swap(&mut self.cur_token, &mut self.peek_token);
        let mut fresh = self.lexer.next_token();
        std::mem::swap(&mut self.peek_token, &mut fresh);
        if !at_end {
            self.index = self.index + 1;
        }
        fresh
    }

    /// The error for the current token where `expected` was owed.
    fn error_here(&self, expected: Option<TokenType>) -> (e: ParseError)
        requires
            self.wf(),
        ensures
            e == (ParseError {
                expected,
                found: kind_at(self.tokens(), self.index()),
                position: self.index as usize,
            }),
            error_within(e, self.index(), self.index(), self.tokens()),
    {
        ParseError { expected, found: self.cur_token.token_type, position: self.index }
    }

    /// Parses an expression whose operators all bind tighter than `prec`,
    /// appending its nodes to `arena`; the result is the index of its root.
    pub fn parse_expression(&mut self, arena: &mut Vec<Expression>, prec: u8) -> (r: Result<usize, ParseError>)
        requires
            old(self).wf(),
            arena_ordered(expression_views(old(arena)@)),
        ensures
            final(self).wf(),
            final(self).tokens() == old(self).tokens(),
            extends(old(arena)@, final(arena)@),
            arena_ordered(expression_views(final(arena)@)),
            match r {
                Ok(x) => parse_expression(old(self).tokens(), old(self).index(), expression_views(old(arena)@), prec as nat)
                    == Ok::<_, ParseError>((x as nat, expression_views(final(arena)@), final(self).index()))
                    && old(self).index() < final(self).index()
                    && x < final(arena).len(),
                Err(e) => parse_expression(old(self).tokens(), old(self).index(), expression_views(old(arena)@), prec as nat)
                    == Err::<(nat, Seq<ExpressionView>, int), _>(e)
                    && error_within(e, old(self).index(), final(self).index(), old(self).tokens()),
            },
        decreases old(self).tokens().len() - old(self).index(), 3nat,
    {
        let ghost toks = self.tokens@;
        let ghost k0 = self.index as int;
        let ghost a0 = expression_views(arena@);
        let mut left = match self.parse_prefix(arena) {
            Ok(l) => l,
            Err(e) => return Err(e),
        };
        loop
            invariant
                self.wf(),
                self.tokens() == toks,
                toks == old(self).tokens(),
                k0 == old(self).index(),
                extends(old(arena)@, arena@),
                arena_ordered(expression_views(arena@)),
                a0 == expression_views(old(arena)@),
                k0 < self.index(),
                left < arena.len(),
                parse_infix(toks, self.index(), expression_views(arena@), left as nat, prec as nat)
                    == parse_expression(toks, k0, a0, prec as nat),
            decreases toks.len() - self.index(),
        {
            let ghost k = self.index as int;
            let ghost t = tok_at(toks, k);
            let kind = self.cur_token.token_type;
            let power = precedence_of(kind);
            if power <= prec {
                return Ok(left);
            }
            let token = self.take_token();
            if kind == TokenType::LPAREN {
                let arguments = match self.parse_arguments(arena) {
                    Ok(v) => v,
                    Err(e) => return Err(e),
                };
                let ghost a2 = expression_views(arena@);
                let node = Expression::Call { token, function: left, arguments };
                arena.push(node);
                assert(expression_views(arena@) =~= a2.push(ExpressionView::Call(t, left as nat, index_views(node->arguments@))));
                proof {
                    lemma_push_ordered(a2, ExpressionView::Call(t, left as nat, index_views(node->arguments@)));
                }
                left = arena.len() - 1;
            } else {
                let right = match self.parse_expression(arena, power) {
                    Ok(x) => x,
                    Err(e) => return Err(e),
                };
                let ghost a2 = expression_views(arena@);
                arena.push(Expression::Infix { token, left, right });
                assert(expression_views(arena@) =~= a2.push(ExpressionView::Infix(t, left as nat, right as nat)));
                proof {
                    lemma_push_ordered(a2, ExpressionView::Infix(t, left as nat, right as nat));
                }
                left = arena.len() - 1;
            }
        }
    }

    /// Parses an expression that starts with no operator before it.
    fn parse_prefix(&mut self, arena: &mut Vec<Expression>) -> (r: Result<usize, ParseError>)
        requires
            old(self).wf(),
            arena_ordered(expression_views(old(arena)@)),
        ensures
            final(self).wf(),
            final(self).tokens() == old(self).tokens(),
            extends(old(arena)@, final(arena)@),
            arena_ordered(expression_views(final(arena)@)),
            match r {
                Ok(x) => parse_prefix(old(self).tokens(), old(self).index(), expression_views(old(arena)@))
                    == Ok::<_, ParseError>((x as nat, expression_views(final(arena)@), final(self).index()))
                    && old(self).index() < final(self).index()
                    && x < final(arena).len(),
                Err(e) => parse_prefix(old(self).tokens(), old(self).index(), expression_views(old(arena)@))
                    == Err::<(nat, Seq<ExpressionView>, int), _>(e)
                    && error_within(e, old(self).index(), final(self).index(), old(self).tokens()),
            },
        decreases old(self).tokens().len() - old(self).index(), 2nat,
    {
        let ghost toks = self.tokens@;
        let ghost k = self.index as int;
        let ghost t = tok_at(toks, k);
        let ghost a0 = expression_views(arena@);
        let kind = self.cur_token.token_type;
        match kind {
            TokenType::IDENT => {
                let token = self.take_token();
                let value = token.literal.clone();
                arena.push(Expression::Ident(Identifier { token, value }));
                assert(expression_views(arena@) =~= a0.push(ExpressionView::Ident((t, t.1))));
                proof {
                    lemma_push_ordered(a0, ExpressionView::Ident((t, t.1)));
                }
                Ok(arena.len() - 1)
            },
            TokenType::INT => {
                let token = self.take_token();
                arena.push(Expression::Integer(token));
                assert(expression_views(arena@) =~= a0.push(ExpressionView::Integer(t)));
                proof {
                    lemma_push_ordered(a0, ExpressionView::Integer(t));
                }
                Ok(arena.len() - 1)
            },
            TokenType::TRUE | TokenType::FALSE => {
                let token = self.take_token();
                arena.push(Expression::Boolean(token));
                assert(expression_views(arena@) =~= a0.push(ExpressionView::Boolean(t)));
                proof {
                    lemma_push_ordered(a0, ExpressionView::Boolean(t));
                }
                Ok(arena.len() - 1)
            },
            TokenType::BANG | TokenType::MINUS => {
                let token = self.take_token();
                let right = match self.parse_expression(arena, PREFIX) {
                    Ok(x) => x,
                    Err(e) => return Err(e),
                };
                let ghost a1 = expression_views(arena@);
                arena.push(Expression::Prefix { token, right });
                assert(expression_views(arena@) =~= a1.push(ExpressionView::Prefix(t, right as nat)));
                proof {
                    lemma_push_ordered(a1, ExpressionView::Prefix(t, right as nat));
                }
                Ok(arena.len() - 1)
            },
            TokenType::LPAREN => {
                self.next_token();
                let inner = match self.parse_expression(arena, LOWEST) {
                    Ok(x) => x,
                    Err(e) => return Err(e),
                };
                if self.cur_token.token_type != TokenType::RPAREN {
                    return Err(self.error_here(Some(TokenType::RPAREN)));
                }
                self.next_token();
                Ok(inner)
            },
            TokenType::FUNCTION => self.parse_function_literal(arena),
            _ => Err(self.error_here(None)),
        }
    }

    /// Parses `fn(parameters) { body }`.
    fn parse_function_literal(&mut self, arena: &mut Vec<Expression>) -> (r: Result<usize, ParseError>)
        requires
            old(self).wf(),
            old(self).cur_token.token_type == TokenType::FUNCTION,
            arena_ordered(expression_views(old(arena)@)),
        ensures
            final(self).wf(),
            final(self).tokens() == old(self).tokens(),
            extends(old(arena)@, final(arena)@),
            arena_ordered(expression_views(final(arena)@)),
            match r {
                Ok(x) => parse_prefix(old(self).tokens(), old(self).index(), expression_views(old(arena)@))
                    == Ok::<_, ParseError>((x as nat, expression_views(final(arena)@), final(self).index()))
                    && old(self).index() < final(self).index()
                    && x < final(arena).len(),
                Err(e) => parse_prefix(old(self).tokens(), old(self).index(), expression_views(old(arena)@))
                    == Err::<(nat, Seq<ExpressionView>, int), _>(e)
                    && error_within(e, old(self).index(), final(self).index(), old(self).tokens()),
            },
        decreases old(self).tokens().len() - old(self).index(), 1nat,
    {
        let ghost toks = self.tokens@;
        let ghost k = self.index as int;
        let ghost t = tok_at(toks, k);
        let token = self.take_token();
        if self.cur_token.token_type != TokenType::LPAREN {
            return Err(self.error_here(Some(TokenType::LPAREN)));
        }
        self.next_token();
        let parameters = match self.parse_parameters() {
            Ok(v) => v,
            Err(e) => return Err(e),
        };
        if self.cur_token.token_type != TokenType::LBRACE {
            return Err(self.error_here(Some(TokenType::LBRACE)));
        }
        self.next_token();
        let body = match self.parse_block(arena) {
            Ok(v) => v,
            Err(e) => return Err(e),
        };
        let ghost a1 = expression_views(arena@);
        let node = Expression::Function { token, parameters, body };
        arena.push(node);
        assert(expression_views(arena@) =~= a1.push(
            ExpressionView::Function(t, identifier_views(node->parameters@), statement_views(node->body@)),
        ));
        proof {
            lemma_push_ordered(a1, ExpressionView::Function(t, identifier_views(node->parameters@), statement_views(node->body@)));
        }
        Ok(arena.len() - 1)
    }

    /// Parses a parameter list from just after its `(` through its `)`.
    fn parse_parameters(&mut self) -> (r: Result<Vec<Identifier>, ParseError>)
        requires
            old(self).wf(),
        ensures
            final(self).wf(),
            final(self).tokens() == old(self).tokens(),
            match r {
                Ok(v) => parse_parameters(old(self).tokens(), old(self).index())
                    == Ok::<_, ParseError>((identifier_views(v@), final(self).index()))
                    && old(self).index() < final(self).index(),
                Err(e) => parse_parameters(old(self).tokens(), old(self).index())
                    == Err::<(Seq<(TokenView, Seq<char>)>, int), _>(e)
                    && error_within(e, old(self).index(), final(self).index(), old(self).tokens()),
            },
    {
        let ghost toks = self.tokens@;
        let ghost k0 = self.index as int;
        let mut parameters: Vec<Identifier> = Vec::new();
        if self.cur_token.token_type == TokenType::RPAREN {
            self.next_token();
            assert(identifier_views(parameters@) =~= seq![]);
            return Ok(parameters);
        }
        if self.cur_token.token_type != TokenType::IDENT {
            return Err(self.error_here(Some(TokenType::IDENT)));
        }
        let token = self.take_token();
        let value = token.literal.clone();
        parameters.push(Identifier { token, value });
        assert(identifier_views(parameters@) =~= seq![(tok_at(toks, k0), tok_at(toks, k0).1)]);
        loop
            invariant
                self.wf(),
                self.tokens() == toks,
                toks == old(self).tokens(),
                k0 == old(self).index(),
                k0 < self.index(),
                parse_more_parameters(toks, self.index(), identifier_views(parameters@))
                    == parse_parameters(toks, k0),
            decreases toks.len() - self.index(),
        {
            let ghost k = self.index as int;
            if self.cur_token.token_type == TokenType::COMMA {
                self.next_token();
                if self.cur_token.token_type != TokenType::IDENT {
                    return Err(self.error_here(Some(TokenType::IDENT)));
                }
                let ghost t = tok_at(toks, k + 1);
                let ghost before = identifier_views(parameters@);
                let token = self.take_token();
                let value = token.literal.clone();
                parameters.push(Identifier { token, value });
                assert(identifier_views(parameters@) =~= before.push((t, t.1)));
            } else if self.cur_token.token_type == TokenType::RPAREN {
                self.next_token();
                return Ok(parameters);
            } else {
                return Err(self.error_here(Some(TokenType::RPAREN)));
            }
        }
    }

    /// Parses the statements of a block from just after its `{` through
    /// its `}`.
    fn parse_block(&mut self, arena: &mut Vec<Expression>) -> (r: Result<Vec<Statement>, ParseError>)
        requires
            old(self).wf(),
            arena_ordered(expression_views(old(arena)@)),
        ensures
            final(self).wf(),
            final(self).tokens() == old(self).tokens(),
            extends(old(arena)@, final(arena)@),
            arena_ordered(expression_views(final(arena)@)),
            match r {
                Ok(v) => parse_block(old(self).tokens(), old(self).index(), expression_views(old(arena)@), seq![])
                    == Ok::<_, ParseError>((statement_views(v@), expression_views(final(arena)@), final(self).index()))
                    && old(self).index() < final(self).index()
                    && statements_below(statement_views(v@), final(arena).len() as nat),
                Err(e) => parse_block(old(self).tokens(), old(self).index(), expression_views(old(arena)@), seq![])
                    == Err::<(Seq<crate::ast::StatementView>, Seq<ExpressionView>, int), _>(e)
                    && error_within(e, old(self).index(), final(self).index(), old(self).tokens()),
            },
        decreases old(self).tokens().len() - old(self).index(), 5nat,
    {
        let ghost toks = self.tokens@;
        let ghost k0 = self.index as int;
        let ghost a0 = expression_views(arena@);
        let mut body: Vec<Statement> = Vec::new();
        assert(statement_views(body@) =~= seq![]);
        loop
            invariant
                self.wf(),
                self.tokens() == toks,
                toks == old(self).tokens(),
                k0 == old(self).index(),
                extends(old(arena)@, arena@),
                arena_ordered(expression_views(arena@)),
                a0 == expression_views(old(arena)@),
                k0 <= self.index(),
                statements_below(statement_views(body@), arena.len() as nat),
                parse_block(toks, self.index(), expression_views(arena@), statement_views(body@))
                    == parse_block(toks, k0, a0, seq![]),
            decreases toks.len() - self.index(),
        {
            if self.cur_token.token_type == TokenType::RBRACE {
                self.next_token();
                return Ok(body);
            }
            if self.cur_token.token_type == TokenType::EOF {
                return Err(self.error_here(Some(TokenType::RBRACE)));
            }
            let ghost before = statement_views(body@);
            let statement = match self.parse_statement(arena) {
                Ok(st) => st,
                Err(e) => return Err(e),
            };
            body.push(statement);
            assert(statement_views(body@) =~= before.push(statement@));
        }
    }

    /// Parses the arguments of a call from just after its `(` through its
    /// `)`; the result holds the index of each argument's root.
    fn parse_arguments(&mut self, arena: &mut Vec<Expression>) -> (r: Result<Vec<usize>, ParseError>)
        requires
            old(self).wf(),
            arena_ordered(expression_views(old(arena)@)),
        ensures
            final(self).wf(),
            final(self).tokens() == old(self).tokens(),
            extends(old(arena)@, final(arena)@),
            arena_ordered(expression_views(final(arena)@)),
            match r {
                Ok(v) => parse_arguments(old(self).tokens(), old(self).index(), expression_views(old(arena)@))
                    == Ok::<_, ParseError>((index_views(v@), expression_views(final(arena)@), final(self).index()))
                    && old(self).index() < final(self).index()
                    && indices_below(index_views(v@), final(arena).len() as nat),
                Err(e) => parse_arguments(old(self).tokens(), old(self).index(), expression_views(old(arena)@))
                    == Err::<(Seq<nat>, Seq<ExpressionView>, int), _>(e)
                    && error_within(e, old(self).index(), final(self).index(), old(self).tokens()),
            },
        decreases old(self).tokens().len() - old(self).index(), 4nat,
    {
        let ghost toks = self.tokens@;
        let ghost k0 = self.index as int;
        let ghost a0 = expression_views(arena@);
        let mut arguments: Vec<usize> = Vec::new();
        if self.cur_token.token_type == TokenType::RPAREN {
            self.next_token();
            assert(index_views(arguments@) =~= seq![]);
            return Ok(arguments);
        }
        let first = match self.parse_expression(arena, LOWEST) {
            Ok(x) => x,
            Err(e) => return Err(e),
        };
        arguments.push(first);
        assert(index_views(arguments@) =~= seq![first as nat]);
        loop
            invariant
                self.wf(),
                self.tokens() == toks,
                toks == old(self).tokens(),
                k0 == old(self).index(),
                extends(old(arena)@, arena@),
                arena_ordered(expression_views(arena@)),
                a0 == expression_views(old(arena)@),
                k0 < self.index(),
                indices_below(index_views(arguments@), arena.len() as nat),
                parse_more_arguments(toks, self.index(), expression_views(arena@), index_views(arguments@))
                    == parse_arguments(toks, k0, a0),
            decreases toks.len() - self.index(),
        {
            if self.cur_token.token_type == TokenType::COMMA {
                self.next_token();
                let ghost before = index_views(arguments@);
                let arg = match self.parse_expression(arena, LOWEST) {
                    Ok(x) => x,
                    Err(e) => return Err(e),
                };
                arguments.push(arg);
                assert(index_views(arguments@) =~= before.push(arg as nat));
            } else if self.cur_token.token_type == TokenType::RPAREN {
                self.next_token();
                return Ok(arguments);
            } else {
                return Err(self.error_here(Some(TokenType::RPAREN)));
            }
        }
    }

    /// Parses one statement from the current token: `let name = value;`,
    /// or an expression with an optional `;` after it. Its expressions are
    /// appended to `arena`.
    pub fn parse_statement(&mut self, arena: &mut Vec<Expression>) -> (r: Result<Statement, ParseError>)
        requires
            old(self).wf(),
            arena_ordered(expression_views(old(arena)@)),
        ensures
            final(self).wf(),
            final(self).tokens() == old(self).tokens(),
            extends(old(arena)@, final(arena)@),
            arena_ordered(expression_views(final(arena)@)),
            match r {
                Ok(st) => parse_statement(old(self).tokens(), old(self).index(), expression_views(old(arena)@))
                    == Ok::<_, ParseError>((st@, expression_views(final(arena)@), final(self).index()))
                    && old(self).index() < final(self).index()
                    && statement_below(st@, final(arena).len() as nat),
                Err(e) => parse_statement(old(self).tokens(), old(self).index(), expression_views(old(arena)@))
                    == Err::<(crate::ast::StatementView, Seq<ExpressionView>, int), _>(e)
                    && error_within(e, old(self).index(), final(self).index(), old(self).tokens()),
            },
        decreases old(self).tokens().len() - old(self).index(), 4nat,
    {
        let ghost toks = self.tokens@;
        if self.cur_token.token_type == TokenType::LET {
            if self.peek_token.token_type != TokenType::IDENT {
                proof {
                    self.lexer.lemma_offset_in_range();
                }
                return Err(ParseError {
                    expected: Some(TokenType::IDENT),
                    found: self.peek_token.token_type,
                    position: self.index + 1,
                });
            }
            let token = self.take_token();
            let name_token = self.take_token();
            if self.cur_token.token_type != TokenType::ASSIGN {
                return Err(self.error_here(Some(TokenType::ASSIGN)));
            }
            self.next_token();
            let value = match self.parse_expression(arena, LOWEST) {
                Ok(x) => x,
                Err(e) => return Err(e),
            };
            if self.cur_token.token_type != TokenType::SEMICOLON {
                return Err(self.error_here(Some(TokenType::SEMICOLON)));
            }
            self.next_token();
            let name_value = name_token.literal.clone();
            Ok(Statement::Let(LetStatement { token, name: Identifier { token: name_token, value: name_value }, value }))
        } else {
            let token = self.cur_token.duplicate();
            let expression = match self.parse_expression(arena, LOWEST) {
                Ok(x) => x,
                Err(e) => return Err(e),
            };
            if self.cur_token.token_type == TokenType::SEMICOLON {
                self.next_token();
            }
            Ok(Statement::Expression(ExpressionStatement { token, expression }))
        }
    }

    /// Parses statements until the end of input. A statement that fails
    /// leaves its error and parsing goes on after the next `;`; the result is
    /// the program when no statement failed, else every error in order.
    pub fn parse_program(&mut self) -> (r: Result<Program, Vec<ParseError>>)
        requires
            old(self).wf(),
        ensures
            final(self).wf(),
            final(self).tokens() == old(self).tokens(),
            match r {
                Ok(p) => program_of(old(self).tokens(), old(self).index()) == Ok::<_, Seq<ParseError>>(p@)
                    && p.wf(),
                Err(errors) => program_of(old(self).tokens(), old(self).index())
                    == Err::<(Seq<crate::ast::StatementView>, Seq<ExpressionView>), _>(errors@),
            },
    {
        let ghost toks = self.tokens@;
        let ghost k0 = self.index as int;
        let mut statements: Vec<Statement> = Vec::new();
        let mut arena: Vec<Expression> = Vec::new();
        let mut errors: Vec<ParseError> = Vec::new();
        assert(statement_views(statements@) =~= seq![]);
        assert(expression_views(arena@) =~= seq![]);
        assert(errors@ =~= seq![]);
        while self.cur_token.token_type != TokenType::EOF
            invariant
                self.wf(),
                self.tokens() == toks,
                toks == old(self).tokens(),
                k0 == old(self).index(),
                arena_ordered(expression_views(arena@)),
                statements_below(statement_views(statements@), arena.len() as nat),
                parse_statements(toks, self.index(), expression_views(arena@), statement_views(statements@), errors@)
                    == parse_statements(toks, k0, seq![], seq![], seq![]),
            decreases toks.len() - self.index(),
        {
            let ghost k = self.index as int;
            let ghost a0 = arena@;
            let mark = arena.len();
            match self.parse_statement(&mut arena) {
                Ok(statement) => {
                    let ghost before = statement_views(statements@);
                    statements.push(statement);
                    assert(statement_views(statements@) =~= before.push(statement@));
                },
                Err(e) => {
                    arena.truncate(mark);
                    assert(arena@ =~= a0);
                    errors.push(e);
                    while self.index < e.position
                        invariant
                            self.wf(),
                            self.tokens() == toks,
                            k <= self.index() <= e.position < toks.len(),
                        decreases e.position - self.index(),
                    {
                        self.next_token();
                    }
                    while self.cur_token.token_type != TokenType::SEMICOLON
                        && self.cur_token.token_type != TokenType::EOF
                        invariant
                            self.wf(),
                            self.tokens() == toks,
                            e.position <= self.index(),
                            recovery_point(toks, self.index()) == recovery_point(toks, e.position as int),
                        decreases toks.len() - self.index(),
                    {
                        self.next_token();
                    }
                    if self.cur_token.token_type == TokenType::SEMICOLON {
                        self.next_token();
                    }
                },
            }
        }
        if errors.len() == 0 {
            Ok(Program { statements, expressions: arena })
        } else {
            Err(errors)
        }
    }
}

/// Parses a whole source text; see `Parser::parse_program`.
pub fn parse(input: String) -> (r: Result<Program, Vec<ParseError>>)
    ensures
        match r {
            Ok(p) => program_of(scan_all(input@, 0), 0) == Ok::<_, Seq<ParseError>>(p@) && p.wf(),
            Err(errors) => program_of(scan_all(input@, 0), 0)
                == Err::<(Seq<crate::ast::StatementView>, Seq<ExpressionView>), _>(errors@),
        },
{
    let lexer = Lexer::new(input);
    let mut parser = Parser::new(lexer);
    parser.parse_program()
}

} // verus!
