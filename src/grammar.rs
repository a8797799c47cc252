//! The grammar as spec functions over a token list: what a token list
//! parses to, or the error that parsing it meets first. The parser's
//! contracts are stated against these.
//!
//! Where a definition goes on from an index that an inner parse handed
//! back, it first checks that the index moved forward and stayed within the
//! list. That keeps each recursion well founded; the parser's contracts
//! show that the check always holds, so its other branch is never taken.
use vstd::prelude::*;
use crate::ast::{ExpressionView, IdentifierView, StatementView};
use crate::parser::ParseError;
use crate::token::{TokenType, TokenView};

verus! {

/// The token at index `k`; past either end, the end-of-input token.
pub open spec fn tok_at(toks: Seq<TokenView>, k: int) -> TokenView {
    if 0 <= k < toks.len() {
        toks[k]
    } else {
        (TokenType::EOF, seq!['\0'])
    }
}

pub open spec fn kind_at(toks: Seq<TokenView>, k: int) -> TokenType {
    tok_at(toks, k).0
}

/// The binding power of a token that can follow an expression: equality
/// below comparison below sums below products below calls. Prefix operators
/// bind with `PREFIX`, between products and calls; every other token binds
/// with `LOWEST` and so ends an expression.
pub open spec fn precedence(kind: TokenType) -> nat {
    match kind {
        TokenType::EQ | TokenType::NEQ => 1,
        TokenType::LT | TokenType::GT => 2,
        TokenType::PLUS | TokenType::MINUS => 3,
        TokenType::ASTERISK | TokenType::SLASH => 4,
        TokenType::LPAREN => 6,
        _ => 0,
    }
}

pub const LOWEST: u8 = 0;

pub const PREFIX: u8 = 5;

/// The error for a token of kind `found` at index `k` where `expected` was
/// owed (`None`: an expression was).
pub open spec fn error_at(expected: Option<TokenType>, found: TokenType, k: int) -> ParseError {
    ParseError { expected, found, position: k as usize }
}

/// A parse of one item from index `k`: the item, the arena after it, and
/// the index of the first token after it.
pub type Parsed<T> = Result<(T, Seq<ExpressionView>, int), ParseError>;

/// An expression whose operators all bind tighter than `prec`, from index
/// `k`, its nodes appended to the arena `a`. The result is the index of its
/// root node in the arena.
pub open spec fn parse_expression(toks: Seq<TokenView>, k: int, a: Seq<ExpressionView>, prec: nat) -> Parsed<nat>
    decreases toks.len() - k, 3nat,
{
    match parse_prefix(toks, k, a) {
        Ok((left, a1, k1)) => if k < k1 <= toks.len() {
            parse_infix(toks, k1, a1, left, prec)
        } else {
            Ok((left, a1, k1))
        },
        Err(e) => Err(e),
    }
}

/// Extends the expression `left`, which ends before index `k`, by each
/// operator that binds tighter than `prec`; operators of one binding power
/// group to the left.
pub open spec fn parse_infix(toks: Seq<TokenView>, k: int, a: Seq<ExpressionView>, left: nat, prec: nat) -> Parsed<nat>
    decreases toks.len() - k, 1nat,
{
    let t = tok_at(toks, k);
    if prec < precedence(t.0) {
        if t.0 == TokenType::LPAREN {
            match parse_arguments(toks, k + 1, a) {
                Ok((args, a1, k1)) => {
                    let a2 = a1.push(ExpressionView::Call(t, left, args));
                    if k < k1 <= toks.len() {
                        parse_infix(toks, k1, a2, a1.len(), prec)
                    } else {
                        Ok((a1.len(), a2, k1))
                    }
                },
                Err(e) => Err(e),
            }
        } else {
            match parse_expression(toks, k + 1, a, precedence(t.0)) {
                Ok((right, a1, k1)) => {
                    let a2 = a1.push(ExpressionView::Infix(t, left, right));
                    if k < k1 <= toks.len() {
                        parse_infix(toks, k1, a2, a1.len(), prec)
                    } else {
                        Ok((a1.len(), a2, k1))
                    }
                },
                Err(e) => Err(e),
            }
        }
    } else {
        Ok((left, a, k))
    }
}

/// An expression that starts at index `k` with no operator before it: a
/// name, a number, a boolean, a prefix operator and its operand, a
/// parenthesised expression or a function literal.
pub open spec fn parse_prefix(toks: Seq<TokenView>, k: int, a: Seq<ExpressionView>) -> Parsed<nat>
    decreases toks.len() - k, 2nat,
{
    let t = tok_at(toks, k);
    match t.0 {
        TokenType::IDENT => Ok((a.len(), a.push(ExpressionView::Ident((t, t.1))), k + 1)),
        TokenType::INT => Ok((a.len(), a.push(ExpressionView::Integer(t)), k + 1)),
        TokenType::TRUE | TokenType::FALSE => Ok((a.len(), a.push(ExpressionView::Boolean(t)), k + 1)),
        TokenType::BANG | TokenType::MINUS => match parse_expression(toks, k + 1, a, PREFIX as nat) {
            Ok((right, a1, k1)) => Ok((a1.len(), a1.push(ExpressionView::Prefix(t, right)), k1)),
            Err(e) => Err(e),
        },
        TokenType::LPAREN => match parse_expression(toks, k + 1, a, LOWEST as nat) {
            Ok((inner, a1, k1)) => if kind_at(toks, k1) == TokenType::RPAREN {
                Ok((inner, a1, k1 + 1))
            } else {
                Err(error_at(Some(TokenType::RPAREN), kind_at(toks, k1), k1))
            },
            Err(e) => Err(e),
        },
        TokenType::FUNCTION => if kind_at(toks, k + 1) != TokenType::LPAREN {
            Err(error_at(Some(TokenType::LPAREN), kind_at(toks, k + 1), k + 1))
        } else {
            match parse_parameters(toks, k + 2) {
                Ok((params, k1)) => if kind_at(toks, k1) != TokenType::LBRACE {
                    Err(error_at(Some(TokenType::LBRACE), kind_at(toks, k1), k1))
                } else {
                    proof {
                        lemma_parameters_advance(toks, k + 2);
                    }
                    match parse_block(toks, k1 + 1, a, seq![]) {
                        Ok((body, a2, k2)) => Ok(
                            (a2.len(), a2.push(ExpressionView::Function(t, params, body)), k2),
                        ),
                        Err(e) => Err(e),
                    }
                },
                Err(e) => Err(e),
            }
        },
        _ => Err(error_at(None, t.0, k)),
    }
}

/// The arguments of a call, from just after its `(` up to and including
/// its `)`: expressions separated by commas.
pub open spec fn parse_arguments(toks: Seq<TokenView>, k: int, a: Seq<ExpressionView>) -> Parsed<Seq<nat>>
    decreases toks.len() - k, 4nat,
{
    if kind_at(toks, k) == TokenType::RPAREN {
        Ok((seq![], a, k + 1))
    } else {
        match parse_expression(toks, k, a, LOWEST as nat) {
            Ok((arg, a1, k1)) => if k < k1 <= toks.len() {
                parse_more_arguments(toks, k1, a1, seq![arg])
            } else {
                Ok((seq![arg], a1, k1))
            },
            Err(e) => Err(e),
        }
    }
}

/// The rest of an argument list after the arguments `done`.
pub open spec fn parse_more_arguments(toks: Seq<TokenView>, k: int, a: Seq<ExpressionView>, done: Seq<nat>) -> Parsed<Seq<nat>>
    decreases toks.len() - k, 4nat,
{
    if kind_at(toks, k) == TokenType::COMMA {
        match parse_expression(toks, k + 1, a, LOWEST as nat) {
            Ok((arg, a1, k1)) => if k < k1 <= toks.len() {
                parse_more_arguments(toks, k1, a1, done.push(arg))
            } else {
                Ok((done.push(arg), a1, k1))
            },
            Err(e) => Err(e),
        }
    } else if kind_at(toks, k) == TokenType::RPAREN {
        Ok((done, a, k + 1))
    } else {
        Err(error_at(Some(TokenType::RPAREN), kind_at(toks, k), k))
    }
}

/// The parameters of a function literal, from just after its `(` up to and
/// including its `)`: names separated by commas.
pub open spec fn parse_parameters(toks: Seq<TokenView>, k: int) -> Result<(Seq<IdentifierView>, int), ParseError> {
    let t = tok_at(toks, k);
    if t.0 == TokenType::RPAREN {
        Ok((seq![], k + 1))
    } else if t.0 == TokenType::IDENT {
        parse_more_parameters(toks, k + 1, seq![(t, t.1)])
    } else {
        Err(error_at(Some(TokenType::IDENT), t.0, k))
    }
}

/// The rest of a parameter list after the names `done`.
pub open spec fn parse_more_parameters(toks: Seq<TokenView>, k: int, done: Seq<IdentifierView>) -> Result<(Seq<IdentifierView>, int), ParseError>
    decreases toks.len() - k,
{
    if kind_at(toks, k) == TokenType::COMMA {
        let t = tok_at(toks, k + 1);
        if t.0 == TokenType::IDENT {
            parse_more_parameters(toks, k + 2, done.push((t, t.1)))
        } else {
            Err(error_at(Some(TokenType::IDENT), t.0, k + 1))
        }
    } else if kind_at(toks, k) == TokenType::RPAREN {
        Ok((done, k + 1))
    } else {
        Err(error_at(Some(TokenType::RPAREN), kind_at(toks, k), k))
    }
}

pub proof fn lemma_more_parameters_advance(toks: Seq<TokenView>, k: int, done: Seq<IdentifierView>)
    ensures
        parse_more_parameters(toks, k, done) is Ok ==> parse_more_parameters(toks, k, done)->Ok_0.1 > k,
    decreases toks.len() - k,
{
    if kind_at(toks, k) == TokenType::COMMA {
        let t = tok_at(toks, k + 1);
        if t.0 == TokenType::IDENT {
            lemma_more_parameters_advance(toks, k + 2, done.push((t, t.1)));
        }
    }
}

pub proof fn lemma_parameters_advance(toks: Seq<TokenView>, k: int)
    ensures
        parse_parameters(toks, k) is Ok ==> parse_parameters(toks, k)->Ok_0.1 > k,
{
    let t = tok_at(toks, k);
    if t.0 == TokenType::IDENT {
        lemma_more_parameters_advance(toks, k + 1, seq![(t, t.1)]);
    }
}

/// The statements of a block from index `k` up to and including its `}`,
/// after the statements `done`.
pub open spec fn parse_block(toks: Seq<TokenView>, k: int, a: Seq<ExpressionView>, done: Seq<StatementView>) -> Parsed<Seq<StatementView>>
    decreases toks.len() - k, 5nat,
{
    let kind = kind_at(toks, k);
    if kind == TokenType::RBRACE {
        Ok((done, a, k + 1))
    } else if kind == TokenType::EOF {
        Err(error_at(Some(TokenType::RBRACE), kind, k))
    } else {
        match parse_statement(toks, k, a) {
            Ok((st, a1, k1)) => if k < k1 <= toks.len() {
                parse_block(toks, k1, a1, done.push(st))
            } else {
                Ok((done.push(st), a1, k1))
            },
            Err(e) => Err(e),
        }
    }
}

/// One statement from index `k`: `let name = value;`, or an expression
/// with an optional `;` after it.
pub open spec fn parse_statement(toks: Seq<TokenView>, k: int, a: Seq<ExpressionView>) -> Parsed<StatementView>
    decreases toks.len() - k, 4nat,
{
    let t = tok_at(toks, k);
    if t.0 == TokenType::LET {
        let name = tok_at(toks, k + 1);
        if name.0 != TokenType::IDENT {
            Err(error_at(Some(TokenType::IDENT), name.0, k + 1))
        } else if kind_at(toks, k + 2) != TokenType::ASSIGN {
            Err(error_at(Some(TokenType::ASSIGN), kind_at(toks, k + 2), k + 2))
        } else {
            match parse_expression(toks, k + 3, a, LOWEST as nat) {
                Ok((value, a1, k1)) => if kind_at(toks, k1) == TokenType::SEMICOLON {
                    Ok((StatementView::Let(t, (name, name.1), value), a1, k1 + 1))
                } else {
                    Err(error_at(Some(TokenType::SEMICOLON), kind_at(toks, k1), k1))
                },
                Err(e) => Err(e),
            }
        }
    } else {
        match parse_expression(toks, k, a, LOWEST as nat) {
            Ok((e, a1, k1)) => Ok(
                (
                    StatementView::Expression(t, e),
                    a1,
                    if kind_at(toks, k1) == TokenType::SEMICOLON {
                        k1 + 1
                    } else {
                        k1
                    },
                ),
            ),
            Err(e) => Err(e),
        }
    }
}

/// Where parsing goes on after an error at index `k`: just past the next
/// `;`, or at the end of input.
pub open spec fn recovery_point(toks: Seq<TokenView>, k: int) -> int
    decreases toks.len() - k,
{
    if kind_at(toks, k) == TokenType::EOF {
        k
    } else if kind_at(toks, k) == TokenType::SEMICOLON {
        k + 1
    } else {
        recovery_point(toks, k + 1)
    }
}

/// The statements from index `k` to the end of input, after the statements
/// `done` and errors `errors`; a statement that fails adds its error and
/// parsing goes on from the recovery point. The result holds the
/// statements, the arena and the errors.
pub open spec fn parse_statements(
    toks: Seq<TokenView>,
    k: int,
    a: Seq<ExpressionView>,
    done: Seq<StatementView>,
    errors: Seq<ParseError>,
) -> (Seq<StatementView>, Seq<ExpressionView>, Seq<ParseError>)
    decreases toks.len() - k,
{
    if kind_at(toks, k) == TokenType::EOF {
        (done, a, errors)
    } else {
        match parse_statement(toks, k, a) {
            Ok((st, a1, k1)) => if k < k1 <= toks.len() {
                parse_statements(toks, k1, a1, done.push(st), errors)
            } else {
                (done.push(st), a1, errors)
            },
            Err(e) => {
                let k1 = recovery_point(toks, e.position as int);
                if k < k1 <= toks.len() {
                    parse_statements(toks, k1, a, done, errors.push(e))
                } else {
                    (done, a, errors.push(e))
                }
            },
        }
    }
}

/// What the tokens from index `k` parse to: the program, or every error met.
pub open spec fn program_of(toks: Seq<TokenView>, k: int) -> Result<
    (Seq<StatementView>, Seq<ExpressionView>),
    Seq<ParseError>,
> {
    let (stmts, a, errors) = parse_statements(toks, k, seq![], seq![], seq![]);
    if errors.len() == 0 {
        Ok((stmts, a))
    } else {
        Err(errors)
    }
}

} // verus!
