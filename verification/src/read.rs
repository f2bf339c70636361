//! From tokens to expressions.
use crate::context::form_views;
use crate::expr::{Expr, Sexp};
use crate::float::{FloatFacts, FloatFactsView};
use crate::lexer::{lex_all, token_views, Lexer, ReadError, ReadErrorView, Token, TokenView};
use std::rc::Rc;
use vstd::prelude::*;

verus! {

/// The expression that starts at the token `pos`, and the place behind it.
pub open spec fn parse_expr(ts: Seq<TokenView>, pos: int) -> Option<(Sexp, int)>
    decreases ts.len() - pos, 0nat,
{
    if pos < 0 || pos >= ts.len() {
        None
    } else {
        match ts[pos] {
            TokenView::Integer(i) => Some((Sexp::Integer(i), pos + 1)),
            TokenView::Float(bits) => Some((Sexp::Float(bits), pos + 1)),
            TokenView::Ident(s) => Some((Sexp::Ident(s), pos + 1)),
            TokenView::Text(s) => Some((Sexp::Text(s), pos + 1)),
            TokenView::Quote => match parse_expr(ts, pos + 1) {
                Some((e, next)) => Some((Sexp::Quote(Box::new(e)), next)),
                None => None,
            },
            TokenView::Unquote => match parse_expr(ts, pos + 1) {
                Some((e, next)) => Some((Sexp::Unquote(Box::new(e)), next)),
                None => None,
            },
            TokenView::Quasiquote => match parse_expr(ts, pos + 1) {
                Some((e, next)) => Some((Sexp::Quasiquote(Box::new(e)), next)),
                None => None,
            },
            TokenView::OpeningParen => parse_list(ts, pos + 1),
            TokenView::ClosingParen => None,
        }
    }
}

/// The list whose items start at the token `pos`, behind the opening
/// parenthesis, and the place behind its closing parenthesis.
pub open spec fn parse_list(ts: Seq<TokenView>, pos: int) -> Option<(Sexp, int)>
    decreases ts.len() - pos, 1nat,
{
    if pos < 0 || pos >= ts.len() {
        None
    } else if ts[pos] is ClosingParen {
        Some((Sexp::Nil, pos + 1))
    } else {
        match parse_expr(ts, pos) {
            Some((item, next)) => if pos < next <= ts.len() {
                match parse_list(ts, next) {
                    Some((rest, end)) => Some((Sexp::Pair(Box::new(item), Box::new(rest)), end)),
                    None => None,
                }
            } else {
                None
            },
            None => None,
        }
    }
}

/// The expressions that the tokens from `pos` on make up.
pub open spec fn parse_all(ts: Seq<TokenView>, pos: int) -> Option<Seq<Sexp>>
    decreases ts.len() - pos,
{
    if pos < 0 || pos >= ts.len() {
        Some(Seq::empty())
    } else {
        match parse_expr(ts, pos) {
            Some((form, next)) => if pos < next <= ts.len() {
                match parse_all(ts, next) {
                    Some(rest) => Some(seq![form] + rest),
                    None => None,
                }
            } else {
                None
            },
            None => None,
        }
    }
}

/// The forms that a text holds: unbalanced parentheses, a quote mark with
/// nothing behind it, a number that is none and a string without an end
/// make it no sequence of forms.
pub open spec fn read_text(s: Seq<char>, facts: FloatFactsView) -> Result<
    Seq<Sexp>,
    ReadErrorView,
> {
    match lex_all(s, 0, facts) {
        Err(e) => Err(e),
        Ok(ts) => match parse_all(ts, 0) {
            Some(forms) => Ok(forms),
            None => Err(ReadErrorView::Parse),
        },
    }
}

/// Reads the expression that starts at the token `pos`.
pub fn read_expr(tokens: &Vec<Token>, pos: usize) -> (r: Option<(Rc<Expr>, usize)>)
    ensures
        match r {
            Some((e, next)) => {
                &&& parse_expr(token_views(tokens@), pos as int) == Some((e@, next as int))
                &&& pos < next <= tokens.len()
            },
            None => parse_expr(token_views(tokens@), pos as int) is None,
        },
    decreases tokens.len() - pos, 0nat,
{
    if pos >= tokens.len() {
        return None;
    }
    assert(token_views(tokens@)[pos as int] == tokens@[pos as int]@);
    match &tokens[pos] {
        Token::Integer(i) => Some((Rc::new(Expr::Integer(*i)), pos + 1)),
        Token::Float(bits) => Some((Rc::new(Expr::Float(*bits)), pos + 1)),
        Token::Ident(s) => Some((Rc::new(Expr::Ident(s.clone())), pos + 1)),
        Token::String(s) => Some((Rc::new(Expr::String(s.clone())), pos + 1)),
        Token::Quote => match read_expr(tokens, pos + 1) {
            Some((e, next)) => Some((Rc::new(Expr::Quote(e)), next)),
            None => None,
        },
        Token::Unquote => match read_expr(tokens, pos + 1) {
            Some((e, next)) => Some((Rc::new(Expr::Unquote(e)), next)),
            None => None,
        },
        Token::Quasiquote => match read_expr(tokens, pos + 1) {
            Some((e, next)) => Some((Rc::new(Expr::Quasiquote(e)), next)),
            None => None,
        },
        Token::OpeningParen => read_paren(tokens, pos + 1),
        Token::ClosingParen => None,
    }
}

/// Reads the list whose items start at the token `pos`.
pub fn read_paren(tokens: &Vec<Token>, pos: usize) -> (r: Option<(Rc<Expr>, usize)>)
    ensures
        match r {
            Some((e, next)) => {
                &&& parse_list(token_views(tokens@), pos as int) == Some((e@, next as int))
                &&& pos < next <= tokens.len()
            },
            None => parse_list(token_views(tokens@), pos as int) is None,
        },
    decreases tokens.len() - pos, 1nat,
{
    if pos >= tokens.len() {
        return None;
    }
    assert(token_views(tokens@)[pos as int] == tokens@[pos as int]@);
    match &tokens[pos] {
        Token::ClosingParen => Some((Rc::new(Expr::Nil), pos + 1)),
        _ => {
            let (item, next) = match read_expr(tokens, pos) {
                Some(found) => found,
                None => {
                    return None;
                },
            };
            match read_paren(tokens, next) {
                Some((rest, end)) => Some((Rc::new(Expr::Cons(item, rest)), end)),
                None => None,
            }
        },
    }
}

/// Reads all the expressions that the tokens make up.
pub fn read(tokens: &Vec<Token>) -> (r: Option<Vec<Rc<Expr>>>)
    ensures
        match r {
            Some(forms) => parse_all(token_views(tokens@), 0) == Some(form_views(forms@)),
            None => parse_all(token_views(tokens@), 0) is None,
        },
{
    let mut forms: Vec<Rc<Expr>> = Vec::new();
    let mut pos: usize = 0;
    let ghost ts = token_views(tokens@);
    assert(form_views(forms@) =~= Seq::<Sexp>::empty());
    while pos < tokens.len()
        invariant
            pos <= tokens.len(),
            ts == token_views(tokens@),
            parse_all(ts, 0) == match parse_all(ts, pos as int) {
                Some(rest) => Some(form_views(forms@) + rest),
                None => None,
            },
        decreases tokens.len() - pos,
    {
        match read_expr(tokens, pos) {
            None => {
                return None;
            },
            Some((form, next)) => {
                let ghost before = form_views(forms@);
                forms.push(form);
                proof {
                    assert(form_views(forms@) =~= before.push(form@));
                    match parse_all(ts, next as int) {
                        Some(rest) => {
                            assert(before + (seq![form@] + rest) =~= before.push(form@) + rest);
                        },
                        None => {},
                    }
                }
                pos = next;
            },
        }
    }
    assert(form_views(forms@) + Seq::<Sexp>::empty() =~= form_views(forms@));
    Some(forms)
}

/// Reads the forms that a text holds. The value of a literal of a double
/// comes from the table of facts; where the table lacks it, the result names
/// the literal.
pub fn read_str(s: &str, facts: &FloatFacts) -> (r: Result<Vec<Rc<Expr>>, ReadError>)
    ensures
        match r {
            Ok(forms) => read_text(s@, facts@) == Ok::<Seq<Sexp>, ReadErrorView>(
                form_views(forms@),
            ),
            Err(e) => read_text(s@, facts@) == Err::<Seq<Sexp>, ReadErrorView>(e@),
        },
{
    let mut lexer = Lexer::new(s);
    assert(token_views(lexer.tokens@) =~= Seq::<TokenView>::empty());
    match lexer.tokenize(facts) {
        Err(e) => Err(e),
        Ok(()) => {
            proof {
                let ts = lex_all(s@, 0, facts@)->Ok_0;
                assert(Seq::<TokenView>::empty() + ts =~= ts);
            }
            match read(&lexer.tokens) {
                Some(forms) => Ok(forms),
                None => Err(ReadError::Parse),
            }
        },
    }
}

} // verus!
