//! Parsing of PSL tokens into expressions.
//!
//! Grammar, as the documentation of the language gives it:
//! - `[[keyword: target]: body, ...]` — a statement (`define`, `set`, `add`,
//!   `if`, `from`, `remove`, `chapter`, `display`, `option`, `as`, ...); the
//!   target may be empty (`[[as:]: ...]`) and the `: body` part may be left out;
//! - `[[[a]: b] op [c]]` — a comparison (`> < >= <= == !=`) or an arithmetic
//!   operation (`+ - * /`) on two bracketed expressions;
//! - `[keyword: ...]` — a literal (`text`, `number`, `flag`, `item`), a name
//!   (`character`, `container`, `attribute`, `chapter`, `section`), a path
//!   (`from`), `remove`, or any other keyword with `name: value` parameters or
//!   with one bracketed value (`[goto: [section: s]]`).
use vstd::prelude::*;
use crate::error::{ErrorV, PslError};
use crate::lexer::{tokens_view, Token, TokenV};
use crate::number::{is_float_literal, is_number_literal};
use crate::text::{push_str, spec_str_debug, spec_trim, str_debug, str_eq, str_trim};

verus! {

/// A PSL expression.
#[derive(Debug, PartialEq)]
pub enum Expr {
    Text(String),
    /// A number literal, as written (`str::parse` for doubles accepts it).
    Number(String),
    Flag(bool),
    Item,
    Define { target: Box<Expr>, body: Box<Expr> },
    SetValue { target: Box<Expr>, value: Box<Expr> },
    Add { target: Box<Expr>, value: Box<Expr> },
    Remove { target: Box<Expr> },
    From { base: Box<Expr>, path: Box<Expr> },
    Attribute(String),
    Character(String),
    Container(String),
    Chapter(String),
    Section(String),
    If { condition: Box<Expr>, body: Box<Expr> },
    Keyword { name: String, params: Vec<(String, Expr)> },
    SequenceExpr(Vec<Expr>),
    ComparisonOp { op: String, left: Box<Expr>, right: Box<Expr> },
    ArithmeticOp { op: String, left: Box<Expr>, right: Box<Expr> },
}

/// The mathematical value of an `Expr`.
pub enum ExprV {
    Text(Seq<char>),
    Number(Seq<char>),
    Flag(bool),
    Item,
    Define { target: Box<ExprV>, body: Box<ExprV> },
    SetValue { target: Box<ExprV>, value: Box<ExprV> },
    Add { target: Box<ExprV>, value: Box<ExprV> },
    Remove { target: Box<ExprV> },
    From { base: Box<ExprV>, path: Box<ExprV> },
    Attribute(Seq<char>),
    Character(Seq<char>),
    Container(Seq<char>),
    Chapter(Seq<char>),
    Section(Seq<char>),
    If { condition: Box<ExprV>, body: Box<ExprV> },
    Keyword { name: Seq<char>, params: Seq<(Seq<char>, ExprV)> },
    Sequence(Seq<ExprV>),
    Comparison { op: Seq<char>, left: Box<ExprV>, right: Box<ExprV> },
    Arithmetic { op: Seq<char>, left: Box<ExprV>, right: Box<ExprV> },
}

/// The values of a sequence of expressions.
pub open spec fn exprs_model(s: Seq<Expr>) -> Seq<ExprV>
    decreases s,
{
    if s.len() == 0 {
        Seq::empty()
    } else {
        proof {
            assert(decreases_to!(s => s.drop_last())) by {
                assert(s.drop_last() =~= s.subrange(0, s.len() - 1));
            }
        }
        exprs_model(s.drop_last()).push(s.last().model())
    }
}

/// The values of a sequence of named parameters.
pub open spec fn params_model(s: Seq<(String, Expr)>) -> Seq<(Seq<char>, ExprV)>
    decreases s,
{
    if s.len() == 0 {
        Seq::empty()
    } else {
        proof {
            assert(decreases_to!(s => s.drop_last())) by {
                assert(s.drop_last() =~= s.subrange(0, s.len() - 1));
            }
        }
        params_model(s.drop_last()).push((s.last().0@, s.last().1.model()))
    }
}

impl Expr {
    /// The mathematical value of the expression.
    pub open spec fn model(self) -> ExprV
        decreases self,
    {
        match self {
            Expr::Text(s) => ExprV::Text(s@),
            Expr::Number(s) => ExprV::Number(s@),
            Expr::Flag(b) => ExprV::Flag(b),
            Expr::Item => ExprV::Item,
            Expr::Define { target, body } => ExprV::Define {
                target: Box::new(target.model()),
                body: Box::new(body.model()),
            },
            Expr::SetValue { target, value } => ExprV::SetValue {
                target: Box::new(target.model()),
                value: Box::new(value.model()),
            },
            Expr::Add { target, value } => ExprV::Add {
                target: Box::new(target.model()),
                value: Box::new(value.model()),
            },
            Expr::Remove { target } => ExprV::Remove { target: Box::new(target.model()) },
            Expr::From { base, path } => ExprV::From {
                base: Box::new(base.model()),
                path: Box::new(path.model()),
            },
            Expr::Attribute(s) => ExprV::Attribute(s@),
            Expr::Character(s) => ExprV::Character(s@),
            Expr::Container(s) => ExprV::Container(s@),
            Expr::Chapter(s) => ExprV::Chapter(s@),
            Expr::Section(s) => ExprV::Section(s@),
            Expr::If { condition, body } => ExprV::If {
                condition: Box::new(condition.model()),
                body: Box::new(body.model()),
            },
            Expr::Keyword { name, params } => ExprV::Keyword {
                name: name@,
                params: params_model(params@),
            },
            Expr::SequenceExpr(v) => ExprV::Sequence(exprs_model(v@)),
            Expr::ComparisonOp { op, left, right } => ExprV::Comparison {
                op: op@,
                left: Box::new(left.model()),
                right: Box::new(right.model()),
            },
            Expr::ArithmeticOp { op, left, right } => ExprV::Arithmetic {
                op: op@,
                left: Box::new(left.model()),
                right: Box::new(right.model()),
            },
        }
    }
}

impl View for Expr {
    type V = ExprV;

    open spec fn view(&self) -> ExprV {
        self.model()
    }
}

pub proof fn lemma_exprs_model_push(s: Seq<Expr>, e: Expr)
    ensures
        exprs_model(s.push(e)) == exprs_model(s).push(e@),
{
    assert(s.push(e).drop_last() =~= s);
}

pub proof fn lemma_params_model_push(s: Seq<(String, Expr)>, k: String, e: Expr)
    ensures
        params_model(s.push((k, e))) == params_model(s).push((k@, e@)),
{
    assert(s.push((k, e)).drop_last() =~= s);
}

pub proof fn lemma_exprs_model_len(s: Seq<Expr>)
    ensures
        exprs_model(s).len() == s.len(),
        forall|i: int| 0 <= i < s.len() ==> #[trigger] exprs_model(s)[i] == s[i]@,
    decreases s.len(),
{
    if s.len() > 0 {
        lemma_exprs_model_len(s.drop_last());
    }
}

// ---------------------------------------------------------------------------
// The model of parsing
// ---------------------------------------------------------------------------

/// The token at `p`; past the end, `Eof`.
pub open spec fn tok(ts: Seq<TokenV>, p: nat) -> TokenV {
    if p < ts.len() {
        ts[p as int]
    } else {
        TokenV::Eof
    }
}

/// The position after the token at `p` (the end stays the end).
pub open spec fn adv(ts: Seq<TokenV>, p: nat) -> nat {
    if p < ts.len() {
        p + 1
    } else {
        p
    }
}

/// A parse error (the parser gives no position).
pub open spec fn perr(message: Seq<char>) -> ErrorV {
    ErrorV::Parse { line: 0, col: 0, message }
}

/// How `Debug` writes a token.
pub open spec fn token_debug(t: TokenV) -> Seq<char> {
    match t {
        TokenV::LBracket => "LBracket"@,
        TokenV::RBracket => "RBracket"@,
        TokenV::Colon => "Colon"@,
        TokenV::Comma => "Comma"@,
        TokenV::Atom(s) => "Atom("@ + spec_str_debug(s) + ")"@,
        TokenV::Plus => "Plus"@,
        TokenV::Minus => "Minus"@,
        TokenV::Star => "Star"@,
        TokenV::Slash => "Slash"@,
        TokenV::Gt => "Gt"@,
        TokenV::Lt => "Lt"@,
        TokenV::GtEq => "GtEq"@,
        TokenV::LtEq => "LtEq"@,
        TokenV::EqEq => "EqEq"@,
        TokenV::NotEq => "NotEq"@,
        TokenV::Eof => "Eof"@,
    }
}

/// Consumes the token `t` at `p`, or reports what stands there instead.
pub open spec fn expect_at(ts: Seq<TokenV>, p: nat, t: TokenV) -> Result<nat, ErrorV> {
    if tok(ts, p) == t {
        Ok(adv(ts, p))
    } else {
        Err(perr("Expected "@ + token_debug(t) + ", found "@ + token_debug(tok(ts, p))))
    }
}

/// The sub-parse that started at `p` and ended at `q` consumed input.
pub open spec fn moved(ts: Seq<TokenV>, p: nat, q: nat) -> bool {
    p < q <= ts.len()
}

/// What a sub-parse that consumed nothing answers (no sub-parse does so).
pub open spec fn stuck() -> ErrorV {
    perr("parser made no progress"@)
}

/// The atoms from `p` up to a bracket, a comma or the end, joined by single
/// spaces after `content`; other tokens are skipped.
pub open spec fn gather_text(ts: Seq<TokenV>, p: nat, content: Seq<char>) -> (Seq<char>, nat)
    decreases ts.len() - p,
{
    match tok(ts, p) {
        TokenV::RBracket => (content, p),
        TokenV::Eof => (content, p),
        TokenV::Comma => (content, p),
        TokenV::LBracket => (content, p),
        TokenV::Atom(s) => gather_text(
            ts,
            p + 1,
            if content.len() == 0 { s } else { content.push(' ') + s },
        ),
        _ => gather_text(ts, p + 1, content),
    }
}

/// The bare text of a bracket (`[text: Hello World]`), trimmed.
pub open spec fn text_until_bracket(ts: Seq<TokenV>, p: nat) -> (Seq<char>, nat) {
    let (c, q) = gather_text(ts, p, Seq::empty());
    (spec_trim(c), q)
}

pub proof fn lemma_gather_text_bounds(ts: Seq<TokenV>, p: nat, content: Seq<char>)
    requires
        p <= ts.len(),
    ensures
        p <= gather_text(ts, p, content).1 <= ts.len(),
    decreases ts.len() - p,
{
    match tok(ts, p) {
        TokenV::RBracket => {},
        TokenV::Eof => {},
        TokenV::Comma => {},
        TokenV::LBracket => {},
        TokenV::Atom(s) => {
            lemma_gather_text_bounds(
                ts,
                p + 1,
                if content.len() == 0 { s } else { content.push(' ') + s },
            );
        },
        _ => {
            lemma_gather_text_bounds(ts, p + 1, content);
        },
    }
}

/// The operator of an operator token, and whether it compares.
pub open spec fn operator_of(t: TokenV) -> Option<(Seq<char>, bool)> {
    match t {
        TokenV::Gt => Some((">"@, true)),
        TokenV::Lt => Some(("<"@, true)),
        TokenV::GtEq => Some((">="@, true)),
        TokenV::LtEq => Some(("<="@, true)),
        TokenV::EqEq => Some(("=="@, true)),
        TokenV::NotEq => Some(("!="@, true)),
        TokenV::Plus => Some(("+"@, false)),
        TokenV::Minus => Some(("-"@, false)),
        TokenV::Star => Some(("*"@, false)),
        TokenV::Slash => Some(("/"@, false)),
        _ => None,
    }
}

/// One expression of a statement's body, or the list of them.
pub open spec fn body_of(exprs: Seq<ExprV>) -> ExprV {
    if exprs.len() == 1 {
        exprs[0]
    } else {
        ExprV::Sequence(exprs)
    }
}

/// The statement `[[kw: target]: body]`.
pub open spec fn make_statement(kw: Seq<char>, target: ExprV, body: ExprV) -> ExprV {
    if kw == "define"@ {
        ExprV::Define { target: Box::new(target), body: Box::new(body) }
    } else if kw == "set"@ {
        ExprV::SetValue { target: Box::new(target), value: Box::new(body) }
    } else if kw == "add"@ {
        ExprV::Add { target: Box::new(target), value: Box::new(body) }
    } else if kw == "if"@ {
        ExprV::If { condition: Box::new(target), body: Box::new(body) }
    } else if kw == "from"@ {
        ExprV::From { base: Box::new(target), path: Box::new(body) }
    } else if kw == "remove"@ {
        ExprV::Remove { target: Box::new(target) }
    } else {
        ExprV::Keyword { name: kw, params: seq![("id"@, target), ("body"@, body)] }
    }
}

/// An expression starting at `p`, and the position after it.
pub open spec fn parse_expr_at(ts: Seq<TokenV>, p: nat) -> Result<(ExprV, nat), ErrorV>
    decreases ts.len() - p, 1nat,
{
    match tok(ts, p) {
        TokenV::LBracket => parse_bracketed_at(ts, p),
        TokenV::Atom(s) => Ok((ExprV::Text(s), p + 1)),
        TokenV::Comma => parse_expr_at(ts, p + 1),
        t => Err(perr("Unexpected token: "@ + token_debug(t))),
    }
}

/// A bracketed expression starting at `p`.
pub open spec fn parse_bracketed_at(ts: Seq<TokenV>, p: nat) -> Result<(ExprV, nat), ErrorV>
    decreases ts.len() - p, 0nat,
{
    match expect_at(ts, p, TokenV::LBracket) {
        Err(e) => Err(e),
        Ok(p1) => if tok(ts, p1) == TokenV::LBracket {
            if tok(ts, p1 + 1) == TokenV::LBracket {
                parse_operation_at(ts, p1)
            } else {
                parse_statement_at(ts, p1)
            }
        } else {
            parse_single_at(ts, p1)
        },
    }
}

/// `[a] op [b]]` from the first operand on.
pub open spec fn parse_operation_at(ts: Seq<TokenV>, p: nat) -> Result<(ExprV, nat), ErrorV>
    decreases ts.len() - p, 2nat,
{
    match parse_expr_at(ts, p) {
        Err(e) => Err(e),
        Ok((left, q)) => if !moved(ts, p, q) {
            Err(stuck())
        } else {
            match operator_of(tok(ts, q)) {
                None => Err(perr("Expected operator, found "@ + token_debug(tok(ts, q)))),
                Some((op, compares)) => match parse_expr_at(ts, q + 1) {
                    Err(e) => Err(e),
                    Ok((right, r)) => match expect_at(ts, r, TokenV::RBracket) {
                        Err(e) => Err(e),
                        Ok(end) => Ok(
                            (
                                if compares {
                                    ExprV::Comparison {
                                        op,
                                        left: Box::new(left),
                                        right: Box::new(right),
                                    }
                                } else {
                                    ExprV::Arithmetic {
                                        op,
                                        left: Box::new(left),
                                        right: Box::new(right),
                                    }
                                },
                                end,
                            ),
                        ),
                    },
                },
            }
        },
    }
}

/// The target of a statement with keyword `kw`, from `p` on.
pub open spec fn parse_target_at(ts: Seq<TokenV>, p: nat, kw: Seq<char>) -> Result<(ExprV, nat), ErrorV>
    decreases ts.len() - p, 2nat,
{
    if kw == "chapter"@ {
        let (name, q) = text_until_bracket(ts, p);
        Ok((ExprV::Chapter(name), q))
    } else if tok(ts, p) == TokenV::RBracket {
        Ok((ExprV::Item, p))
    } else {
        parse_expr_at(ts, p)
    }
}

/// `[kw: target]: body, ...]` from the inner bracket on.
pub open spec fn parse_statement_at(ts: Seq<TokenV>, p: nat) -> Result<(ExprV, nat), ErrorV>
    decreases ts.len() - p, 2nat,
{
    match expect_at(ts, p, TokenV::LBracket) {
        Err(e) => Err(e),
        Ok(p2) => match tok(ts, p2) {
            TokenV::Atom(kw) => match expect_at(ts, p2 + 1, TokenV::Colon) {
                Err(e) => Err(e),
                Ok(p4) => if !moved(ts, p, p4) {
                    Err(stuck())
                } else {
                    match parse_target_at(ts, p4, kw) {
                        Err(e) => Err(e),
                        Ok((target, q)) => if !(p4 <= q <= ts.len()) {
                            Err(stuck())
                        } else {
                            match expect_at(ts, q, TokenV::RBracket) {
                                Err(e) => Err(e),
                                Ok(p6) => {
                                    let p7 = if tok(ts, p6) == TokenV::Colon {
                                        p6 + 1
                                    } else {
                                        p6
                                    };
                                    match parse_body_at(ts, p7, Seq::empty()) {
                                        Err(e) => Err(e),
                                        Ok((exprs, p8)) => match expect_at(
                                            ts,
                                            p8,
                                            TokenV::RBracket,
                                        ) {
                                            Err(e) => Err(e),
                                            Ok(end) => Ok(
                                                (make_statement(kw, target, body_of(exprs)), end),
                                            ),
                                        },
                                    }
                                },
                            }
                        },
                    }
                },
            },
            t => Err(perr("Expected keyword, found "@ + token_debug(t))),
        },
    }
}

/// The expressions of a statement's body from `p` up to its closing bracket,
/// after `acc`; commas between them are skipped.
pub open spec fn parse_body_at(ts: Seq<TokenV>, p: nat, acc: Seq<ExprV>) -> Result<
    (Seq<ExprV>, nat),
    ErrorV,
>
    decreases ts.len() - p, 2nat,
{
    if tok(ts, p) == TokenV::RBracket || tok(ts, p) == TokenV::Eof {
        Ok((acc, p))
    } else {
        match parse_expr_at(ts, p) {
            Err(e) => Err(e),
            Ok((e, q)) => if !moved(ts, p, q) {
                Err(stuck())
            } else {
                let q2 = if tok(ts, q) == TokenV::Comma {
                    q + 1
                } else {
                    q
                };
                parse_body_at(ts, q2, acc.push(e))
            },
        }
    }
}

/// `kw: ...]` of a single-bracketed expression, from the keyword on.
pub open spec fn parse_single_at(ts: Seq<TokenV>, p: nat) -> Result<(ExprV, nat), ErrorV>
    decreases ts.len() - p, 2nat,
{
    match tok(ts, p) {
        TokenV::Atom(kw) => match expect_at(ts, p + 1, TokenV::Colon) {
            Err(e) => Err(e),
            Ok(p3) => match parse_keyword_body_at(ts, p3, kw) {
                Err(e) => Err(e),
                Ok((e, q)) => match expect_at(ts, q, TokenV::RBracket) {
                    Err(err) => Err(err),
                    Ok(end) => Ok((e, end)),
                },
            },
        },
        TokenV::Colon => match parse_params_at(ts, p + 1, Seq::empty()) {
            Err(e) => Err(e),
            Ok((params, q)) => Ok((ExprV::Keyword { name: Seq::empty(), params }, q)),
        },
        t => Err(perr("Expected keyword, found "@ + token_debug(t))),
    }
}

/// What follows `kw:` in a single-bracketed expression, up to (not
/// including) its closing bracket.
pub open spec fn parse_keyword_body_at(ts: Seq<TokenV>, p: nat, kw: Seq<char>) -> Result<
    (ExprV, nat),
    ErrorV,
>
    decreases ts.len() - p, 3nat,
{
    let (text, q) = text_until_bracket(ts, p);
    if kw == "text"@ {
        Ok((ExprV::Text(text), q))
    } else if kw == "number"@ {
        if is_float_literal(text) {
            Ok((ExprV::Number(text), q))
        } else {
            Err(perr("Invalid number: "@ + text))
        }
    } else if kw == "flag"@ {
        if text == "on"@ {
            Ok((ExprV::Flag(true), q))
        } else if text == "off"@ {
            Ok((ExprV::Flag(false), q))
        } else {
            Err(perr("Invalid flag value: "@ + text + ". Use 'on' or 'off'"@))
        }
    } else if kw == "item"@ {
        Ok((ExprV::Item, p))
    } else if kw == "from"@ {
        parse_from_at(ts, p)
    } else if kw == "remove"@ {
        match parse_expr_at(ts, p) {
            Err(e) => Err(e),
            Ok((target, r)) => Ok((ExprV::Remove { target: Box::new(target) }, r)),
        }
    } else if kw == "character"@ {
        Ok((ExprV::Character(text), q))
    } else if kw == "container"@ {
        Ok((ExprV::Container(text), q))
    } else if kw == "attribute"@ {
        Ok((ExprV::Attribute(text), q))
    } else if kw == "chapter"@ {
        Ok((ExprV::Chapter(text), q))
    } else if kw == "section"@ {
        Ok((ExprV::Section(text), q))
    } else if kw == "define"@ || kw == "set"@ || kw == "add"@ {
        Err(perr(kw + " requires double-bracket syntax [["@ + kw + ":...]: body]"@))
    } else {
        match parse_params_at(ts, p, Seq::empty()) {
            Err(e) => Err(e),
            Ok((params, r)) => Ok((ExprV::Keyword { name: kw, params }, r)),
        }
    }
}

/// `base: path` of `[from: base: path]`.
pub open spec fn parse_from_at(ts: Seq<TokenV>, p: nat) -> Result<(ExprV, nat), ErrorV>
    decreases ts.len() - p, 2nat,
{
    match parse_expr_at(ts, p) {
        Err(e) => Err(e),
        Ok((base, q)) => if !moved(ts, p, q) {
            Err(stuck())
        } else {
            match expect_at(ts, q, TokenV::Colon) {
                Err(e) => Err(e),
                Ok(q1) => match parse_expr_at(ts, q1) {
                    Err(e) => Err(e),
                    Ok((path, r)) => Ok(
                        (ExprV::From { base: Box::new(base), path: Box::new(path) }, r),
                    ),
                },
            }
        },
    }
}

/// `name: value, ...` parameters from `p` up to the closing bracket, after
/// `acc`; a first value in brackets with no name is the parameter `body`.
pub open spec fn parse_params_at(ts: Seq<TokenV>, p: nat, acc: Seq<(Seq<char>, ExprV)>) -> Result<
    (Seq<(Seq<char>, ExprV)>, nat),
    ErrorV,
>
    decreases ts.len() - p, 2nat,
{
    match tok(ts, p) {
        TokenV::RBracket => Ok((acc, p)),
        TokenV::Eof => Ok((acc, p)),
        TokenV::Atom(key) => if tok(ts, p + 1) == TokenV::Colon {
            match parse_expr_at(ts, p + 2) {
                Err(e) => Err(e),
                Ok((v, q)) => if !moved(ts, p, q) {
                    Err(stuck())
                } else {
                    let q2 = if tok(ts, q) == TokenV::Comma {
                        q + 1
                    } else {
                        q
                    };
                    parse_params_at(ts, q2, acc.push((key, v)))
                },
            }
        } else {
            Err(perr("Expected ':' after parameter name"@))
        },
        TokenV::LBracket => if acc.len() == 0 {
            match parse_expr_at(ts, p) {
                Err(e) => Err(e),
                Ok((v, q)) => Ok((seq![("body"@, v)], q)),
            }
        } else {
            Ok((acc, p))
        },
        _ => Ok((acc, p)),
    }
}

/// The expressions of a whole program from `p` on, after `acc`.
pub open spec fn parse_program_at(ts: Seq<TokenV>, p: nat, acc: Seq<ExprV>) -> Result<
    Seq<ExprV>,
    ErrorV,
>
    decreases ts.len() - p,
{
    if tok(ts, p) == TokenV::Eof {
        Ok(acc)
    } else {
        match parse_expr_at(ts, p) {
            Err(e) => Err(e),
            Ok((e, q)) => if !moved(ts, p, q) {
                Err(stuck())
            } else {
                parse_program_at(ts, q, acc.push(e))
            },
        }
    }
}

/// The expressions of a whole program.
pub open spec fn spec_parse(ts: Seq<TokenV>) -> Result<Seq<ExprV>, ErrorV> {
    parse_program_at(ts, 0, Seq::empty())
}

/// A source that is one token `t` and nothing else tokenizes to `t` and
/// the end marker.
proof fn lemma_tokenize_one(s: Seq<char>, t: TokenV)
    requires
        s.len() > 0,
        crate::lexer::skip_trivia(s, 0) == 0,
        crate::lexer::token_at(s, 0) == (Ok::<TokenV, ErrorV>(t), s.len()),
        t != TokenV::Eof,
    ensures
        crate::lexer::spec_tokenize(s) == Ok::<Seq<TokenV>, ErrorV>(seq![t, TokenV::Eof]),
{
    assert(crate::lexer::skip_trivia(s, s.len()) == s.len());
    assert(crate::lexer::tokenize_from(s, s.len()) == Ok::<Seq<TokenV>, ErrorV>(seq![TokenV::Eof]));
    assert(seq![t] + seq![TokenV::Eof] =~= seq![t, TokenV::Eof]);
}

/// An operation's operator is written as its source text: for every
/// operator token, the text that `operator_of` gives for it tokenizes back
/// to exactly that token; and the operators that compare are `>`, `<`,
/// `>=`, `<=`, `==` and `!=`, while `+`, `-`, `*` and `/` compute; each
/// of these ten tokens is an operator.
pub proof fn law_operator_text_reads_back(t: TokenV)
    ensures
        operator_of(t) matches Some((op, compares)) ==> {
            &&& crate::lexer::spec_tokenize(op) == Ok::<Seq<TokenV>, ErrorV>(seq![t, TokenV::Eof])
            &&& compares == (t is Gt || t is Lt || t is GtEq || t is LtEq || t is EqEq || t is NotEq)
        },
        (t is Gt || t is Lt || t is GtEq || t is LtEq || t is EqEq || t is NotEq || t is Plus
            || t is Minus || t is Star || t is Slash) ==> operator_of(t) is Some,
{
    reveal_strlit(">");
    reveal_strlit("<");
    reveal_strlit(">=");
    reveal_strlit("<=");
    reveal_strlit("==");
    reveal_strlit("!=");
    reveal_strlit("+");
    reveal_strlit("-");
    reveal_strlit("*");
    reveal_strlit("/");
    match operator_of(t) {
        Some((op, _)) => {
            assert(!crate::text::spec_is_whitespace(op[0]));
            assert(crate::lexer::skip_trivia(op, 0) == 0);
            lemma_tokenize_one(op, t);
        },
        None => {},
    }
}

// ---------------------------------------------------------------------------
// Progress
// ---------------------------------------------------------------------------

proof fn lemma_expect_progress(ts: Seq<TokenV>, p: nat, t: TokenV)
    requires
        t != TokenV::Eof,
    ensures
        expect_at(ts, p, t) matches Ok(q) ==> q == p + 1 && q <= ts.len(),
{
}

proof fn lemma_expr_progress(ts: Seq<TokenV>, p: nat)
    ensures
        parse_expr_at(ts, p) matches Ok((_, q)) ==> p < q <= ts.len(),
    decreases ts.len() - p, 1nat,
{
    match tok(ts, p) {
        TokenV::LBracket => {
            lemma_bracketed_progress(ts, p);
        },
        TokenV::Comma => {
            lemma_expr_progress(ts, p + 1);
        },
        _ => {},
    }
}

proof fn lemma_bracketed_progress(ts: Seq<TokenV>, p: nat)
    ensures
        parse_bracketed_at(ts, p) matches Ok((_, q)) ==> p < q <= ts.len(),
    decreases ts.len() - p, 0nat,
{
    lemma_expect_progress(ts, p, TokenV::LBracket);
    if let Ok(p1) = expect_at(ts, p, TokenV::LBracket) {
        if tok(ts, p1) == TokenV::LBracket {
            if tok(ts, p1 + 1) == TokenV::LBracket {
                lemma_operation_progress(ts, p1);
            } else {
                lemma_statement_progress(ts, p1);
            }
        } else {
            lemma_single_progress(ts, p1);
        }
    }
}

proof fn lemma_operation_progress(ts: Seq<TokenV>, p: nat)
    ensures
        parse_operation_at(ts, p) matches Ok((_, q)) ==> p < q <= ts.len(),
    decreases ts.len() - p, 2nat,
{
    lemma_expr_progress(ts, p);
    if let Ok((left, q)) = parse_expr_at(ts, p) {
        if moved(ts, p, q) {
            if operator_of(tok(ts, q)) is Some {
                lemma_expr_progress(ts, q + 1);
                if let Ok((right, r)) = parse_expr_at(ts, q + 1) {
                    lemma_expect_progress(ts, r, TokenV::RBracket);
                }
            }
        }
    }
}

proof fn lemma_target_progress(ts: Seq<TokenV>, p: nat, kw: Seq<char>)
    requires
        p <= ts.len(),
    ensures
        parse_target_at(ts, p, kw) matches Ok((_, q)) ==> p <= q <= ts.len(),
    decreases ts.len() - p, 2nat,
{
    lemma_gather_text_bounds(ts, p, Seq::empty());
    lemma_expr_progress(ts, p);
}

proof fn lemma_statement_progress(ts: Seq<TokenV>, p: nat)
    ensures
        parse_statement_at(ts, p) matches Ok((_, q)) ==> p < q <= ts.len(),
    decreases ts.len() - p, 2nat,
{
    lemma_expect_progress(ts, p, TokenV::LBracket);
    if let Ok(p2) = expect_at(ts, p, TokenV::LBracket) {
        if let TokenV::Atom(kw) = tok(ts, p2) {
            lemma_expect_progress(ts, p2 + 1, TokenV::Colon);
            if let Ok(p4) = expect_at(ts, p2 + 1, TokenV::Colon) {
                if moved(ts, p, p4) {
                    lemma_target_progress(ts, p4, kw);
                    if let Ok((target, q)) = parse_target_at(ts, p4, kw) {
                        if p4 <= q <= ts.len() {
                            lemma_expect_progress(ts, q, TokenV::RBracket);
                            if let Ok(p6) = expect_at(ts, q, TokenV::RBracket) {
                                let p7 = if tok(ts, p6) == TokenV::Colon {
                                    p6 + 1
                                } else {
                                    p6
                                };
                                lemma_body_progress(ts, p7, Seq::empty());
                                if let Ok((exprs, p8)) = parse_body_at(ts, p7, Seq::empty()) {
                                    lemma_expect_progress(ts, p8, TokenV::RBracket);
                                }
                            }
                        }
                    }
                }
            }
        }
    }
}

proof fn lemma_body_progress(ts: Seq<TokenV>, p: nat, acc: Seq<ExprV>)
    requires
        p <= ts.len(),
    ensures
        parse_body_at(ts, p, acc) matches Ok((_, q)) ==> p <= q <= ts.len(),
    decreases ts.len() - p, 2nat,
{
    if !(tok(ts, p) == TokenV::RBracket || tok(ts, p) == TokenV::Eof) {
        lemma_expr_progress(ts, p);
        if let Ok((e, q)) = parse_expr_at(ts, p) {
            if moved(ts, p, q) {
                let q2 = if tok(ts, q) == TokenV::Comma {
                    q + 1
                } else {
                    q
                };
                lemma_body_progress(ts, q2, acc.push(e));
            }
        }
    }
}

proof fn lemma_single_progress(ts: Seq<TokenV>, p: nat)
    ensures
        parse_single_at(ts, p) matches Ok((_, q)) ==> p < q <= ts.len(),
    decreases ts.len() - p, 2nat,
{
    match tok(ts, p) {
        TokenV::Atom(kw) => {
            lemma_expect_progress(ts, p + 1, TokenV::Colon);
            if let Ok(p3) = expect_at(ts, p + 1, TokenV::Colon) {
                lemma_keyword_body_progress(ts, p3, kw);
                if let Ok((e, q)) = parse_keyword_body_at(ts, p3, kw) {
                    lemma_expect_progress(ts, q, TokenV::RBracket);
                }
            }
        },
        TokenV::Colon => {
            lemma_params_progress(ts, p + 1, Seq::empty());
        },
        _ => {},
    }
}

proof fn lemma_keyword_body_progress(ts: Seq<TokenV>, p: nat, kw: Seq<char>)
    requires
        p <= ts.len(),
    ensures
        parse_keyword_body_at(ts, p, kw) matches Ok((_, q)) ==> p <= q <= ts.len(),
    decreases ts.len() - p, 3nat,
{
    lemma_gather_text_bounds(ts, p, Seq::empty());
    lemma_from_progress(ts, p);
    lemma_expr_progress(ts, p);
    lemma_params_progress(ts, p, Seq::empty());
}

proof fn lemma_from_progress(ts: Seq<TokenV>, p: nat)
    ensures
        parse_from_at(ts, p) matches Ok((_, q)) ==> p < q <= ts.len(),
    decreases ts.len() - p, 2nat,
{
    lemma_expr_progress(ts, p);
    if let Ok((base, q)) = parse_expr_at(ts, p) {
        if moved(ts, p, q) {
            lemma_expect_progress(ts, q, TokenV::Colon);
            if let Ok(q1) = expect_at(ts, q, TokenV::Colon) {
                lemma_expr_progress(ts, q1);
            }
        }
    }
}

proof fn lemma_params_progress(ts: Seq<TokenV>, p: nat, acc: Seq<(Seq<char>, ExprV)>)
    requires
        p <= ts.len(),
    ensures
        parse_params_at(ts, p, acc) matches Ok((_, q)) ==> p <= q <= ts.len(),
    decreases ts.len() - p, 2nat,
{
    match tok(ts, p) {
        TokenV::Atom(key) => {
            if tok(ts, p + 1) == TokenV::Colon {
                lemma_expr_progress(ts, p + 2);
                if let Ok((v, q)) = parse_expr_at(ts, p + 2) {
                    if moved(ts, p, q) {
                        let q2 = if tok(ts, q) == TokenV::Comma {
                            q + 1
                        } else {
                            q
                        };
                        lemma_params_progress(ts, q2, acc.push((key, v)));
                    }
                }
            }
        },
        TokenV::LBracket => {
            lemma_expr_progress(ts, p);
        },
        _ => {},
    }
}

/// The parser always moves forward: every expression that parses from
/// position `p` consumes at least one token and ends within the tokens. So
/// no step of parsing stands still, and the parser never stops for lack of
/// progress.
pub proof fn law_parse_consumes_input(ts: Seq<TokenV>, p: nat)
    ensures
        parse_expr_at(ts, p) matches Ok((_, q)) ==> p < q <= ts.len(),
{
    lemma_expr_progress(ts, p);
}

// ---------------------------------------------------------------------------
// Relating results
// ---------------------------------------------------------------------------

pub open spec fn expr_result(r: Result<(Expr, usize), PslError>, s: Result<(ExprV, nat), ErrorV>) -> bool {
    match r {
        Ok((e, q)) => s == Ok::<(ExprV, nat), ErrorV>((e@, q as nat)),
        Err(err) => s == Err::<(ExprV, nat), ErrorV>(err@),
    }
}

pub open spec fn exprs_result(
    r: Result<(Vec<Expr>, usize), PslError>,
    s: Result<(Seq<ExprV>, nat), ErrorV>,
) -> bool {
    match r {
        Ok((v, q)) => s == Ok::<(Seq<ExprV>, nat), ErrorV>((exprs_model(v@), q as nat)),
        Err(err) => s == Err::<(Seq<ExprV>, nat), ErrorV>(err@),
    }
}

pub open spec fn params_result(
    r: Result<(Vec<(String, Expr)>, usize), PslError>,
    s: Result<(Seq<(Seq<char>, ExprV)>, nat), ErrorV>,
) -> bool {
    match r {
        Ok((v, q)) => s == Ok::<(Seq<(Seq<char>, ExprV)>, nat), ErrorV>((params_model(v@), q as nat)),
        Err(err) => s == Err::<(Seq<(Seq<char>, ExprV)>, nat), ErrorV>(err@),
    }
}

/// The outcome of a sub-parse ends inside the input.
pub open spec fn ends_within(r: Result<(ExprV, nat), ErrorV>, p: nat, len: nat, strict: bool) -> bool {
    r matches Ok((_, q)) ==> (if strict { p < q } else { p <= q }) && q <= len
}

// ---------------------------------------------------------------------------
// The parser
// ---------------------------------------------------------------------------

/// Builds expressions from a sequence of tokens.
pub struct Parser {
    tokens: Vec<Token>,
    pos: usize,
}

/// The state of a parser: its tokens and its position.
pub struct ParserV {
    pub tokens: Seq<TokenV>,
    pub pos: nat,
}

impl View for Parser {
    type V = ParserV;

    closed spec fn view(&self) -> ParserV {
        ParserV { tokens: tokens_view(self.tokens@), pos: self.pos as nat }
    }
}

fn token_debug_exec(t: &Token) -> (r: String)
    ensures
        r@ == token_debug(t@),
{
    match t {
        Token::LBracket => String::from_str("LBracket"),
        Token::RBracket => String::from_str("RBracket"),
        Token::Colon => String::from_str("Colon"),
        Token::Comma => String::from_str("Comma"),
        Token::Atom(s) => {
            let mut r = String::from_str("Atom(");
            let d = str_debug(s.as_str());
            push_str(&mut r, d.as_str());
            push_str(&mut r, ")");
            r
        },
        Token::Plus => String::from_str("Plus"),
        Token::Minus => String::from_str("Minus"),
        Token::Star => String::from_str("Star"),
        Token::Slash => String::from_str("Slash"),
        Token::Gt => String::from_str("Gt"),
        Token::Lt => String::from_str("Lt"),
        Token::GtEq => String::from_str("GtEq"),
        Token::LtEq => String::from_str("LtEq"),
        Token::EqEq => String::from_str("EqEq"),
        Token::NotEq => String::from_str("NotEq"),
        Token::Eof => String::from_str("Eof"),
    }
}

fn parse_error(message: String) -> (e: PslError)
    ensures
        e@ == perr(message@),
{
    PslError::ParseError { line: 0, col: 0, message }
}

fn is_token(t: &Token, u: &Token) -> (r: bool)
    requires
        !(u@ is Atom),
    ensures
        r == (t@ == u@),
{
    match (t, u) {
        (Token::LBracket, Token::LBracket) => true,
        (Token::RBracket, Token::RBracket) => true,
        (Token::Colon, Token::Colon) => true,
        (Token::Comma, Token::Comma) => true,
        (Token::Plus, Token::Plus) => true,
        (Token::Minus, Token::Minus) => true,
        (Token::Star, Token::Star) => true,
        (Token::Slash, Token::Slash) => true,
        (Token::Gt, Token::Gt) => true,
        (Token::Lt, Token::Lt) => true,
        (Token::GtEq, Token::GtEq) => true,
        (Token::LtEq, Token::LtEq) => true,
        (Token::EqEq, Token::EqEq) => true,
        (Token::NotEq, Token::NotEq) => true,
        (Token::Eof, Token::Eof) => true,
        _ => false,
    }
}

impl Parser {
    /// The parser's position lies within its tokens.
    pub open spec fn wf(&self) -> bool {
        self@.pos <= self@.tokens.len()
    }

    /// A parser at the start of `tokens`.
    pub fn new(tokens: Vec<Token>) -> (r: Parser)
        ensures
            r.wf(),
            r@.tokens == tokens_view(tokens@),
            r@.pos == 0,
    {
        Parser { tokens, pos: 0 }
    }

    closed spec fn ts(&self) -> Seq<TokenV> {
        tokens_view(self.tokens@)
    }

    proof fn lemma_ts(&self)
        ensures
            self.ts().len() == self.tokens@.len(),
            forall|i: int| 0 <= i < self.tokens@.len() ==> #[trigger] self.ts()[i] == self.tokens@[i]@,
    {
    }

    fn bound(&self)
        ensures
            self.ts().len() == self.tokens@.len(),
            self.ts().len() <= usize::MAX,
    {
        proof {
            self.lemma_ts();
        }
        let _ = self.tokens.len();
    }

    fn token_at(&self, p: usize) -> (r: Token)
        ensures
            r@ == tok(self.ts(), p as nat),
            r@ != TokenV::Eof ==> p < self.ts().len(),
    {
        proof {
            self.lemma_ts();
        }
        if p < self.tokens.len() {
            self.tokens[p].duplicate()
        } else {
            Token::Eof
        }
    }

    fn is_at(&self, p: usize, t: &Token) -> (r: bool)
        requires
            !(t@ is Atom),
        ensures
            r == (tok(self.ts(), p as nat) == t@),
            r && t@ != TokenV::Eof ==> p < self.ts().len(),
    {
        proof {
            self.lemma_ts();
        }
        if p < self.tokens.len() {
            is_token(&self.tokens[p], t)
        } else {
            is_token(&Token::Eof, t)
        }
    }

    fn is_at_next(&self, p: usize, t: &Token) -> (r: bool)
        requires
            !(t@ is Atom),
        ensures
            r == (tok(self.ts(), (p + 1) as nat) == t@),
    {
        proof {
            self.lemma_ts();
        }
        if p < self.tokens.len() {
            self.is_at(p + 1, t)
        } else {
            is_token(&Token::Eof, t)
        }
    }

    fn advance_from(&self, p: usize) -> (q: usize)
        ensures
            q == adv(self.ts(), p as nat),
    {
        proof {
            self.lemma_ts();
        }
        if p < self.tokens.len() {
            p + 1
        } else {
            p
        }
    }

    fn expect(&self, p: usize, expected: Token) -> (r: Result<usize, PslError>)
        requires
            !(expected@ is Atom),
        ensures
            match r {
                Ok(q) => expect_at(self.ts(), p as nat, expected@) == Ok::<nat, ErrorV>(q as nat),
                Err(e) => expect_at(self.ts(), p as nat, expected@) == Err::<nat, ErrorV>(e@),
            },
    {
        if self.is_at(p, &expected) {
            Ok(self.advance_from(p))
        } else {
            let mut m = String::from_str("Expected ");
            let d1 = token_debug_exec(&expected);
            push_str(&mut m, d1.as_str());
            push_str(&mut m, ", found ");
            let found = self.token_at(p);
            let d2 = token_debug_exec(&found);
            push_str(&mut m, d2.as_str());
            proof {
                assert(m@ =~= "Expected "@ + token_debug(expected@) + ", found "@ + token_debug(
                    tok(self.ts(), p as nat),
                ));
            }
            Err(parse_error(m))
        }
    }

    fn parse_until_bracket(&self, p: usize) -> (r: (String, usize))
        requires
            p <= self.ts().len(),
        ensures
            (r.0@, r.1 as nat) == text_until_bracket(self.ts(), p as nat),
            p <= r.1 <= self.ts().len(),
    {
        proof {
            self.lemma_ts();
        }
        let mut content = String::new();
        let mut q = p;
        let ghost ts = self.ts();
        proof {
            lemma_gather_text_bounds(ts, p as nat, Seq::empty());
        }
        loop
            invariant
                ts == self.ts(),
                ts.len() == self.tokens@.len(),
                forall|i: int| 0 <= i < self.tokens@.len() ==> #[trigger] ts[i] == self.tokens@[i]@,
                p <= q <= ts.len(),
                gather_text(ts, q as nat, content@) == gather_text(ts, p as nat, Seq::empty()),
            ensures
                (content@, q as nat) == gather_text(ts, p as nat, Seq::empty()),
                p <= q <= ts.len(),
            decreases ts.len() - q,
        {
            if q >= self.tokens.len() {
                break;
            }
            match &self.tokens[q] {
                Token::RBracket => break,
                Token::Comma => break,
                Token::LBracket => break,
                Token::Eof => break,
                Token::Atom(s) => {
                    if !content.as_str().is_empty() {
                        crate::text::string_push(&mut content, ' ');
                    }
                    proof {
                        if content@.len() == 0 {
                        }
                    }
                    let ghost before = content@;
                    push_str(&mut content, s.as_str());
                    proof {
                        if before.len() == 0 {
                            assert(content@ =~= s@);
                        }
                    }
                    q = q + 1;
                },
                _ => {
                    q = q + 1;
                },
            }
        }
        let t = str_trim(content.as_str());
        (t, q)
    }

    fn parse_expr(&self, p: usize) -> (r: Result<(Expr, usize), PslError>)
        requires
            p <= self.ts().len(),
        ensures
            expr_result(r, parse_expr_at(self.ts(), p as nat)),
            ends_within(parse_expr_at(self.ts(), p as nat), p as nat, self.ts().len(), true),
        decreases self.ts().len() - p, 1nat,
    {
        proof {
            self.lemma_ts();
        }
        if p >= self.tokens.len() {
            let m = String::from_str("Unexpected token: ");
            let mut m = m;
            push_str(&mut m, "Eof");
            proof {
                reveal_strlit("Eof");
                assert(m@ =~= "Unexpected token: "@ + token_debug(TokenV::Eof));
            }
            return Err(parse_error(m));
        }
        match &self.tokens[p] {
            Token::LBracket => self.parse_bracketed_expr(p),
            Token::Atom(name) => Ok((Expr::Text(name.clone()), p + 1)),
            Token::Comma => self.parse_expr(p + 1),
            other => {
                let mut m = String::from_str("Unexpected token: ");
                let d = token_debug_exec(other);
                push_str(&mut m, d.as_str());
                Err(parse_error(m))
            },
        }
    }

    fn parse_bracketed_expr(&self, p: usize) -> (r: Result<(Expr, usize), PslError>)
        requires
            p <= self.ts().len(),
        ensures
            expr_result(r, parse_bracketed_at(self.ts(), p as nat)),
            ends_within(parse_bracketed_at(self.ts(), p as nat), p as nat, self.ts().len(), true),
        decreases self.ts().len() - p, 0nat,
    {
        let p1 = match self.expect(p, Token::LBracket) {
            Ok(q) => q,
            Err(e) => {
                return Err(e);
            },
        };
        if self.is_at(p1, &Token::LBracket) {
            if self.is_at_next(p1, &Token::LBracket) {
                self.parse_operation(p1)
            } else {
                self.parse_statement(p1)
            }
        } else {
            self.parse_single(p1)
        }
    }

    fn parse_operation(&self, p: usize) -> (r: Result<(Expr, usize), PslError>)
        requires
            p <= self.ts().len(),
        ensures
            expr_result(r, parse_operation_at(self.ts(), p as nat)),
            ends_within(parse_operation_at(self.ts(), p as nat), p as nat, self.ts().len(), true),
        decreases self.ts().len() - p, 2nat,
    {
        self.bound();
        let (left, q) = match self.parse_expr(p) {
            Ok(x) => x,
            Err(e) => {
                return Err(e);
            },
        };
        let t = self.token_at(q);
        let (op, compares) = match t {
            Token::Gt => (String::from_str(">"), true),
            Token::Lt => (String::from_str("<"), true),
            Token::GtEq => (String::from_str(">="), true),
            Token::LtEq => (String::from_str("<="), true),
            Token::EqEq => (String::from_str("=="), true),
            Token::NotEq => (String::from_str("!="), true),
            Token::Plus => (String::from_str("+"), false),
            Token::Minus => (String::from_str("-"), false),
            Token::Star => (String::from_str("*"), false),
            Token::Slash => (String::from_str("/"), false),
            _ => {
                let mut m = String::from_str("Expected operator, found ");
                let d = token_debug_exec(&t);
                push_str(&mut m, d.as_str());
                return Err(parse_error(m));
            },
        };
        let (right, r) = match self.parse_expr(q + 1) {
            Ok(x) => x,
            Err(e) => {
                return Err(e);
            },
        };
        let end = match self.expect(r, Token::RBracket) {
            Ok(x) => x,
            Err(e) => {
                return Err(e);
            },
        };
        if compares {
            Ok((Expr::ComparisonOp { op, left: Box::new(left), right: Box::new(right) }, end))
        } else {
            Ok((Expr::ArithmeticOp { op, left: Box::new(left), right: Box::new(right) }, end))
        }
    }

    fn parse_target(&self, p: usize, kw: &String) -> (r: Result<(Expr, usize), PslError>)
        requires
            p <= self.ts().len(),
        ensures
            expr_result(r, parse_target_at(self.ts(), p as nat, kw@)),
            ends_within(parse_target_at(self.ts(), p as nat, kw@), p as nat, self.ts().len(), false),
        decreases self.ts().len() - p, 2nat,
    {
        if str_eq(kw.as_str(), "chapter") {
            let (name, q) = self.parse_until_bracket(p);
            Ok((Expr::Chapter(name), q))
        } else if self.is_at(p, &Token::RBracket) {
            Ok((Expr::Item, p))
        } else {
            self.parse_expr(p)
        }
    }

    fn make_statement(kw: String, target: Expr, body: Expr) -> (e: Expr)
        ensures
            e@ == make_statement(kw@, target@, body@),
    {
        if str_eq(kw.as_str(), "define") {
            Expr::Define { target: Box::new(target), body: Box::new(body) }
        } else if str_eq(kw.as_str(), "set") {
            Expr::SetValue { target: Box::new(target), value: Box::new(body) }
        } else if str_eq(kw.as_str(), "add") {
            Expr::Add { target: Box::new(target), value: Box::new(body) }
        } else if str_eq(kw.as_str(), "if") {
            Expr::If { condition: Box::new(target), body: Box::new(body) }
        } else if str_eq(kw.as_str(), "from") {
            Expr::From { base: Box::new(target), path: Box::new(body) }
        } else if str_eq(kw.as_str(), "remove") {
            Expr::Remove { target: Box::new(target) }
        } else {
            let mut params: Vec<(String, Expr)> = Vec::new();
            let id = String::from_str("id");
            let b = String::from_str("body");
            let ghost te = target;
            let ghost be = body;
            params.push((id, target));
            proof {
                lemma_params_model_push(Seq::empty(), id, te);
                assert(Seq::<(String, Expr)>::empty().push((id, te)) =~= params@);
                assert(params_model(Seq::empty()) =~= Seq::empty());
            }
            let ghost p1 = params@;
            params.push((b, body));
            proof {
                lemma_params_model_push(p1, b, be);
                assert(params_model(params@) =~= seq![("id"@, te@), ("body"@, be@)]);
            }
            Expr::Keyword { name: kw, params }
        }
    }

    fn body_of(exprs: Vec<Expr>) -> (e: Expr)
        ensures
            e@ == body_of(exprs_model(exprs@)),
    {
        proof {
            lemma_exprs_model_len(exprs@);
        }
        if exprs.len() == 1 {
            let mut exprs = exprs;
            let ghost before = exprs@;
            let e = exprs.pop().unwrap();
            assert(e == before[0]);
            e
        } else {
            Expr::SequenceExpr(exprs)
        }
    }

    fn parse_statement(&self, p: usize) -> (r: Result<(Expr, usize), PslError>)
        requires
            p <= self.ts().len(),
        ensures
            expr_result(r, parse_statement_at(self.ts(), p as nat)),
            ends_within(parse_statement_at(self.ts(), p as nat), p as nat, self.ts().len(), true),
        decreases self.ts().len() - p, 2nat,
    {
        self.bound();
        let p2 = match self.expect(p, Token::LBracket) {
            Ok(x) => x,
            Err(e) => {
                return Err(e);
            },
        };
        let kw_token = self.token_at(p2);
        let keyword = match kw_token {
            Token::Atom(name) => name,
            other => {
                let mut m = String::from_str("Expected keyword, found ");
                let d = token_debug_exec(&other);
                push_str(&mut m, d.as_str());
                return Err(parse_error(m));
            },
        };
        let p4 = match self.expect(p2 + 1, Token::Colon) {
            Ok(x) => x,
            Err(e) => {
                return Err(e);
            },
        };
        let (target, q) = match self.parse_target(p4, &keyword) {
            Ok(x) => x,
            Err(e) => {
                return Err(e);
            },
        };
        let p6 = match self.expect(q, Token::RBracket) {
            Ok(x) => x,
            Err(e) => {
                return Err(e);
            },
        };
        let p7 = if self.is_at(p6, &Token::Colon) {
            p6 + 1
        } else {
            p6
        };
        let (exprs, p8) = match self.parse_body(p7, Vec::new()) {
            Ok(x) => x,
            Err(e) => {
                return Err(e);
            },
        };
        let end = match self.expect(p8, Token::RBracket) {
            Ok(x) => x,
            Err(e) => {
                return Err(e);
            },
        };
        let body = Self::body_of(exprs);
        Ok((Self::make_statement(keyword, target, body), end))
    }

    fn parse_body(&self, p: usize, acc: Vec<Expr>) -> (r: Result<(Vec<Expr>, usize), PslError>)
        requires
            p <= self.ts().len(),
        ensures
            exprs_result(r, parse_body_at(self.ts(), p as nat, exprs_model(acc@))),
            parse_body_at(self.ts(), p as nat, exprs_model(acc@)) matches Ok((_, q)) ==> p <= q
                <= self.ts().len(),
        decreases self.ts().len() - p, 2nat,
    {
        self.bound();
        if self.is_at(p, &Token::RBracket) || self.is_at(p, &Token::Eof) {
            return Ok((acc, p));
        }
        let (e, q) = match self.parse_expr(p) {
            Ok(x) => x,
            Err(err) => {
                return Err(err);
            },
        };
        let q2 = if self.is_at(q, &Token::Comma) {
            q + 1
        } else {
            q
        };
        let mut acc = acc;
        let ghost before = acc@;
        let ghost ev = e;
        acc.push(e);
        proof {
            lemma_exprs_model_push(before, ev);
        }
        self.parse_body(q2, acc)
    }

    fn parse_single(&self, p: usize) -> (r: Result<(Expr, usize), PslError>)
        requires
            p <= self.ts().len(),
        ensures
            expr_result(r, parse_single_at(self.ts(), p as nat)),
            ends_within(parse_single_at(self.ts(), p as nat), p as nat, self.ts().len(), true),
        decreases self.ts().len() - p, 2nat,
    {
        self.bound();
        let t = self.token_at(p);
        match t {
            Token::Atom(keyword) => {
                let p3 = match self.expect(p + 1, Token::Colon) {
                    Ok(x) => x,
                    Err(e) => {
                        return Err(e);
                    },
                };
                let (e, q) = match self.parse_keyword_body(p3, keyword) {
                    Ok(x) => x,
                    Err(err) => {
                        return Err(err);
                    },
                };
                let end = match self.expect(q, Token::RBracket) {
                    Ok(x) => x,
                    Err(err) => {
                        return Err(err);
                    },
                };
                Ok((e, end))
            },
            Token::Colon => {
                let (params, q) = match self.parse_keyword_params(p + 1, Vec::new()) {
                    Ok(x) => x,
                    Err(e) => {
                        return Err(e);
                    },
                };
                Ok((Expr::Keyword { name: String::new(), params }, q))
            },
            other => {
                let mut m = String::from_str("Expected keyword, found ");
                let d = token_debug_exec(&other);
                push_str(&mut m, d.as_str());
                Err(parse_error(m))
            },
        }
    }

    fn parse_keyword_body(&self, p: usize, keyword: String) -> (r: Result<(Expr, usize), PslError>)
        requires
            p <= self.ts().len(),
        ensures
            expr_result(r, parse_keyword_body_at(self.ts(), p as nat, keyword@)),
            ends_within(
                parse_keyword_body_at(self.ts(), p as nat, keyword@),
                p as nat,
                self.ts().len(),
                false,
            ),
        decreases self.ts().len() - p, 3nat,
    {
        let kw = keyword.as_str();
        if str_eq(kw, "text") {
            let (text, q) = self.parse_until_bracket(p);
            Ok((Expr::Text(text), q))
        } else if str_eq(kw, "number") {
            let (text, q) = self.parse_until_bracket(p);
            if is_number_literal(text.as_str()) {
                Ok((Expr::Number(text), q))
            } else {
                let mut m = String::from_str("Invalid number: ");
                push_str(&mut m, text.as_str());
                Err(parse_error(m))
            }
        } else if str_eq(kw, "flag") {
            let (text, q) = self.parse_until_bracket(p);
            if str_eq(text.as_str(), "on") {
                Ok((Expr::Flag(true), q))
            } else if str_eq(text.as_str(), "off") {
                Ok((Expr::Flag(false), q))
            } else {
                let mut m = String::from_str("Invalid flag value: ");
                push_str(&mut m, text.as_str());
                push_str(&mut m, ". Use 'on' or 'off'");
                Err(parse_error(m))
            }
        } else if str_eq(kw, "item") {
            Ok((Expr::Item, p))
        } else if str_eq(kw, "from") {
            self.parse_from_expr(p)
        } else if str_eq(kw, "remove") {
            match self.parse_expr(p) {
                Ok((target, r)) => Ok((Expr::Remove { target: Box::new(target) }, r)),
                Err(e) => Err(e),
            }
        } else if str_eq(kw, "character") {
            let (text, q) = self.parse_until_bracket(p);
            Ok((Expr::Character(text), q))
        } else if str_eq(kw, "container") {
            let (text, q) = self.parse_until_bracket(p);
            Ok((Expr::Container(text), q))
        } else if str_eq(kw, "attribute") {
            let (text, q) = self.parse_until_bracket(p);
            Ok((Expr::Attribute(text), q))
        } else if str_eq(kw, "chapter") {
            let (text, q) = self.parse_until_bracket(p);
            Ok((Expr::Chapter(text), q))
        } else if str_eq(kw, "section") {
            let (text, q) = self.parse_until_bracket(p);
            Ok((Expr::Section(text), q))
        } else if str_eq(kw, "define") || str_eq(kw, "set") || str_eq(kw, "add") {
            let mut m = keyword.clone();
            push_str(&mut m, " requires double-bracket syntax [[");
            push_str(&mut m, kw);
            push_str(&mut m, ":...]: body]");
            Err(parse_error(m))
        } else {
            match self.parse_keyword_params(p, Vec::new()) {
                Ok((params, r)) => Ok((Expr::Keyword { name: keyword, params }, r)),
                Err(e) => Err(e),
            }
        }
    }

    fn parse_from_expr(&self, p: usize) -> (r: Result<(Expr, usize), PslError>)
        requires
            p <= self.ts().len(),
        ensures
            expr_result(r, parse_from_at(self.ts(), p as nat)),
            ends_within(parse_from_at(self.ts(), p as nat), p as nat, self.ts().len(), true),
        decreases self.ts().len() - p, 2nat,
    {
        let (base, q) = match self.parse_expr(p) {
            Ok(x) => x,
            Err(e) => {
                return Err(e);
            },
        };
        let q1 = match self.expect(q, Token::Colon) {
            Ok(x) => x,
            Err(e) => {
                return Err(e);
            },
        };
        let (path, r) = match self.parse_expr(q1) {
            Ok(x) => x,
            Err(e) => {
                return Err(e);
            },
        };
        Ok((Expr::From { base: Box::new(base), path: Box::new(path) }, r))
    }

    fn parse_keyword_params(&self, p: usize, acc: Vec<(String, Expr)>) -> (r: Result<
        (Vec<(String, Expr)>, usize),
        PslError,
    >)
        requires
            p <= self.ts().len(),
        ensures
            params_result(r, parse_params_at(self.ts(), p as nat, params_model(acc@))),
            parse_params_at(self.ts(), p as nat, params_model(acc@)) matches Ok((_, q)) ==> p <= q
                <= self.ts().len(),
        decreases self.ts().len() - p, 2nat,
    {
        self.bound();
        proof {
            self.lemma_ts();
        }
        let t = self.token_at(p);
        match t {
            Token::RBracket => Ok((acc, p)),
            Token::Eof => Ok((acc, p)),
            Token::Atom(key) => {
                if self.is_at(p + 1, &Token::Colon) {
                    let (v, q) = match self.parse_expr(p + 2) {
                        Ok(x) => x,
                        Err(e) => {
                            return Err(e);
                        },
                    };
                    let q2 = if self.is_at(q, &Token::Comma) {
                        q + 1
                    } else {
                        q
                    };
                    let mut acc = acc;
                    let ghost before = acc@;
                    let ghost kv = key;
                    let ghost vv = v;
                    acc.push((key, v));
                    proof {
                        lemma_params_model_push(before, kv, vv);
                    }
                    self.parse_keyword_params(q2, acc)
                } else {
                    Err(parse_error(String::from_str("Expected ':' after parameter name")))
                }
            },
            Token::LBracket => {
                if acc.len() == 0 {
                    proof {
                        assert(params_model(acc@) =~= Seq::empty());
                    }
                    let (v, q) = match self.parse_expr(p) {
                        Ok(x) => x,
                        Err(e) => {
                            return Err(e);
                        },
                    };
                    let mut params: Vec<(String, Expr)> = Vec::new();
                    let b = String::from_str("body");
                    let ghost vv = v;
                    params.push((b, v));
                    proof {
                        lemma_params_model_push(Seq::empty(), b, vv);
                        assert(Seq::<(String, Expr)>::empty().push((b, vv)) =~= params@);
                    }
                    Ok((params, q))
                } else {
                    Ok((acc, p))
                }
            },
            _ => Ok((acc, p)),
        }
    }

    /// Parses expressions until the end of the tokens.
    pub fn parse_program(&mut self) -> (r: Result<Vec<Expr>, PslError>)
        requires
            old(self).wf(),
        ensures
            final(self).wf(),
            final(self)@.tokens == old(self)@.tokens,
            match r {
                Ok(v) => parse_program_at(old(self)@.tokens, old(self)@.pos, Seq::empty()) == Ok::<
                    Seq<ExprV>,
                    ErrorV,
                >(exprs_model(v@)),
                Err(e) => parse_program_at(old(self)@.tokens, old(self)@.pos, Seq::empty())
                    == Err::<Seq<ExprV>, ErrorV>(e@),
            },
    {
        let ghost ts = self.ts();
        let ghost p0 = self.pos as nat;
        let mut expressions: Vec<Expr> = Vec::new();
        proof {
            assert(exprs_model(expressions@) =~= Seq::empty());
        }
        loop
            invariant
                self.wf(),
                ts == self.ts(),
                ts == old(self)@.tokens,
                p0 == old(self)@.pos,
                parse_program_at(ts, p0, Seq::empty()) == parse_program_at(
                    ts,
                    self.pos as nat,
                    exprs_model(expressions@),
                ),
            decreases ts.len() - self.pos,
        {
            if self.is_at(self.pos, &Token::Eof) {
                return Ok(expressions);
            }
            let (e, q) = match self.parse_expr(self.pos) {
                Ok(x) => x,
                Err(err) => {
                    return Err(err);
                },
            };
            let ghost before = expressions@;
            let ghost ev = e;
            expressions.push(e);
            proof {
                lemma_exprs_model_push(before, ev);
            }
            self.pos = q;
        }
    }
}

/// Parses a whole token sequence into expressions.
pub fn parse(tokens: Vec<Token>) -> (r: Result<Vec<Expr>, PslError>)
    ensures
        match r {
            Ok(v) => spec_parse(tokens_view(tokens@)) == Ok::<Seq<ExprV>, ErrorV>(exprs_model(v@)),
            Err(e) => spec_parse(tokens_view(tokens@)) == Err::<Seq<ExprV>, ErrorV>(e@),
        },
{
    let mut parser = Parser::new(tokens);
    parser.parse_program()
}

} // verus!
