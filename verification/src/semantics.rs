//! The meaning of running a PSL story: how each expression changes the
//! story state and what it yields.
//!
//! Numbers are IEEE-754 doubles kept as bit patterns. What the library cannot
//! compute itself — reading a number literal, the four operations, the
//! comparisons, writing a double as text — a number oracle answers
//! (`NumOracle`); the runtime asks the caller's number function and the model
//! reads the oracle.
use vstd::prelude::*;
use crate::error::ErrorV;
use crate::parser::ExprV;
use crate::text::{decimal, spec_str_debug};
use crate::value::{get_key, insert_key, is_zero_bits, remove_key, ValueV};

verus! {

/// An operation on two doubles.
#[derive(Clone, Copy, Debug, PartialEq, Eq, Structural)]
pub enum ArithOp {
    Add,
    Sub,
    Mul,
    Div,
}

/// A comparison of two doubles. `Equal` holds when the two differ by less
/// than `f64::EPSILON`, `NotEqual` when they do not.
#[derive(Clone, Copy, Debug, PartialEq, Eq, Structural)]
pub enum CompareOp {
    Greater,
    Less,
    GreaterEq,
    LessEq,
    Equal,
    NotEqual,
}

/// What the runtime asks of the number function.
#[derive(Debug)]
pub enum NumQuery {
    /// Read a number literal: `holds` says whether it is valid, `value` is
    /// the bit pattern of the double it denotes.
    Literal(String),
    /// Compute on two doubles (given by their bit patterns): `value` is the
    /// bit pattern of the result.
    Arith(ArithOp, u64, u64),
    /// Compare two doubles: `holds` is the outcome.
    Compare(CompareOp, u64, u64),
    /// Write a double for a reader (`text`): a whole number without a
    /// fraction, any other as `Display` writes it.
    Show(u64),
    /// Write a double as `Debug` writes it (`text`).
    Debug(u64),
}

/// The mathematical value of a `NumQuery`.
pub enum NumQueryV {
    Literal(Seq<char>),
    Arith(ArithOp, u64, u64),
    Compare(CompareOp, u64, u64),
    Show(u64),
    Debug(u64),
}

impl View for NumQuery {
    type V = NumQueryV;

    open spec fn view(&self) -> NumQueryV {
        match self {
            NumQuery::Literal(s) => NumQueryV::Literal(s@),
            NumQuery::Arith(op, a, b) => NumQueryV::Arith(*op, *a, *b),
            NumQuery::Compare(op, a, b) => NumQueryV::Compare(*op, *a, *b),
            NumQuery::Show(n) => NumQueryV::Show(*n),
            NumQuery::Debug(n) => NumQueryV::Debug(*n),
        }
    }
}

/// The number function's answer to a query.
#[derive(Debug)]
pub struct NumAnswer {
    pub value: u64,
    pub holds: bool,
    pub text: String,
}

/// The answers of a number function, as a function of the queries.
pub type NumOracle = spec_fn(NumQueryV) -> NumAnswer;

/// The state of a story: characters by name, the current chapter and
/// section, the lines of output, and the options offered (text, target).
pub struct RuntimeV {
    pub globals: Seq<(Seq<char>, ValueV)>,
    pub chapter: Option<Seq<char>>,
    pub section: Option<Seq<char>>,
    pub output: Seq<Seq<char>>,
    pub options: Seq<(Seq<char>, Seq<char>)>,
}

/// The state after a step, and what the step yielded.
pub type Step = (RuntimeV, Result<ValueV, ErrorV>);

pub open spec fn rerr(m: Seq<char>) -> ErrorV {
    ErrorV::Runtime(m)
}

pub open spec fn with_globals(st: RuntimeV, g: Seq<(Seq<char>, ValueV)>) -> RuntimeV {
    RuntimeV { globals: g, ..st }
}

pub open spec fn with_line(st: RuntimeV, line: Seq<char>) -> RuntimeV {
    RuntimeV { output: st.output.push(line), ..st }
}

pub open spec fn empty_container() -> ValueV {
    ValueV::Container(Seq::empty())
}

/// Truth of a condition (`[[if: ..]]`): a flag that is on, a number other
/// than zero, a text that is not empty, an item, any container.
pub open spec fn condition_holds(v: ValueV) -> bool {
    match v {
        ValueV::Flag(b) => b,
        ValueV::Number(n) => !is_zero_bits(n),
        ValueV::Text(s) => s.len() > 0,
        ValueV::Item => true,
        ValueV::Container(_) => true,
        ValueV::Null => false,
    }
}

// ---------------------------------------------------------------------------
// Paths through containers
// ---------------------------------------------------------------------------

/// The value at `path` inside `cur`.
pub open spec fn follow_path(cur: ValueV, path: ExprV) -> Result<ValueV, ErrorV>
    decreases path,
{
    match path {
        ExprV::Attribute(name) => match cur {
            ValueV::Container(m) => match get_key(m, name) {
                Some(v) => Ok(v),
                None => Err(rerr("Attribute "@ + name + " not found"@)),
            },
            _ => Err(ErrorV::Type("Cannot access attribute on non-container value"@)),
        },
        ExprV::Container(name) => match cur {
            ValueV::Container(m) => match get_key(m, name) {
                Some(v) => Ok(v),
                None => Err(rerr("Container "@ + name + " not found"@)),
            },
            _ => Err(ErrorV::Type("Cannot access container on non-container value"@)),
        },
        ExprV::From { base, path: next } => match follow_path(cur, *base) {
            Ok(v) => follow_path(v, *next),
            Err(e) => Err(e),
        },
        _ => Err(rerr("Invalid path expression"@)),
    }
}

/// The entries `m` with the container named `name` replaced by `inner`.
pub open spec fn put_container(
    m: Seq<(Seq<char>, ValueV)>,
    name: Seq<char>,
    inner: Seq<(Seq<char>, ValueV)>,
) -> Seq<(Seq<char>, ValueV)> {
    insert_key(m, name, ValueV::Container(inner))
}

/// The entries of the container named `name` in `m`, if it is one.
pub open spec fn container_in(m: Seq<(Seq<char>, ValueV)>, name: Seq<char>) -> Option<
    Seq<(Seq<char>, ValueV)>,
> {
    match get_key(m, name) {
        Some(ValueV::Container(inner)) => Some(inner),
        _ => None,
    }
}

pub open spec fn character_missing(name: Seq<char>) -> ErrorV {
    rerr("Character "@ + name + " not found"@)
}

pub open spec fn container_missing(name: Seq<char>) -> ErrorV {
    rerr("Container "@ + name + " not found"@)
}

/// Sets `value` at `path` inside the container entries `m`.
pub open spec fn set_in_container(m: Seq<(Seq<char>, ValueV)>, path: ExprV, value: ValueV) -> Result<
    Seq<(Seq<char>, ValueV)>,
    ErrorV,
>
    decreases path,
{
    match path {
        ExprV::Attribute(name) => Ok(insert_key(m, name, value)),
        ExprV::From { base, path: next } => match *base {
            ExprV::Container(cn) => match container_in(m, cn) {
                Some(inner) => match set_in_container(inner, *next, value) {
                    Ok(inner2) => Ok(put_container(m, cn, inner2)),
                    Err(e) => Err(e),
                },
                None => Err(container_missing(cn)),
            },
            _ => Err(rerr("Invalid nested path"@)),
        },
        _ => Err(rerr("Invalid path"@)),
    }
}

/// Sets `value` at `final_path` inside the container that `inner` leads to
/// from the entries `m`.
pub open spec fn set_in_nested_container(
    m: Seq<(Seq<char>, ValueV)>,
    inner: ExprV,
    final_path: ExprV,
    value: ValueV,
) -> Result<Seq<(Seq<char>, ValueV)>, ErrorV>
    decreases inner,
{
    match inner {
        ExprV::Container(cn) => match container_in(m, cn) {
            Some(im) => match set_in_container(im, final_path, value) {
                Ok(im2) => Ok(put_container(m, cn, im2)),
                Err(e) => Err(e),
            },
            None => Err(container_missing(cn)),
        },
        ExprV::From { base, path: next } => match *base {
            ExprV::Container(cn) => match container_in(m, cn) {
                Some(im) => match set_in_nested_container(im, *next, final_path, value) {
                    Ok(im2) => Ok(put_container(m, cn, im2)),
                    Err(e) => Err(e),
                },
                None => Err(container_missing(cn)),
            },
            _ => Err(rerr("Invalid nested path"@)),
        },
        _ => Err(rerr("Invalid inner path"@)),
    }
}

/// Sets `value` at `path` inside the character `cn`.
pub open spec fn set_in_path(g: Seq<(Seq<char>, ValueV)>, cn: Seq<char>, path: ExprV, value: ValueV) -> Result<
    Seq<(Seq<char>, ValueV)>,
    ErrorV,
> {
    match path {
        ExprV::Attribute(a) => match container_in(g, cn) {
            Some(m) => Ok(put_container(g, cn, insert_key(m, a, value))),
            None => Err(character_missing(cn)),
        },
        ExprV::From { base, path: next } => match *base {
            ExprV::Container(ctn) => match container_in(g, cn) {
                Some(cm) => match container_in(cm, ctn) {
                    Some(inner) => match set_in_container(inner, *next, value) {
                        Ok(inner2) => Ok(put_container(g, cn, put_container(cm, ctn, inner2))),
                        Err(e) => Err(e),
                    },
                    None => Err(container_missing(ctn)),
                },
                None => Err(character_missing(cn)),
            },
            _ => Err(rerr("Invalid path base"@)),
        },
        _ => Err(rerr("Invalid path in set_in_path"@)),
    }
}

/// Sets `value` at `final_path` inside what `inner` leads to from the
/// character `cn`.
pub open spec fn set_in_nested_path(
    g: Seq<(Seq<char>, ValueV)>,
    cn: Seq<char>,
    inner: ExprV,
    final_path: ExprV,
    value: ValueV,
) -> Result<Seq<(Seq<char>, ValueV)>, ErrorV> {
    match inner {
        ExprV::Container(ctn) => match container_in(g, cn) {
            Some(cm) => match container_in(cm, ctn) {
                Some(im) => match set_in_container(im, final_path, value) {
                    Ok(im2) => Ok(put_container(g, cn, put_container(cm, ctn, im2))),
                    Err(e) => Err(e),
                },
                None => Err(container_missing(ctn)),
            },
            None => Err(character_missing(cn)),
        },
        ExprV::From { base, path: next } => match *base {
            ExprV::Container(ctn) => match container_in(g, cn) {
                Some(cm) => match container_in(cm, ctn) {
                    Some(im) => match set_in_nested_container(im, *next, final_path, value) {
                        Ok(im2) => Ok(put_container(g, cn, put_container(cm, ctn, im2))),
                        Err(e) => Err(e),
                    },
                    None => Err(container_missing(ctn)),
                },
                None => Err(character_missing(cn)),
            },
            _ => Err(rerr("Invalid nested path"@)),
        },
        _ => Err(rerr("Invalid inner path"@)),
    }
}

/// Sets `value` at the place `[[from: base]: path]` names.
pub open spec fn set_via_path(g: Seq<(Seq<char>, ValueV)>, base: ExprV, path: ExprV, value: ValueV) -> Result<
    Seq<(Seq<char>, ValueV)>,
    ErrorV,
> {
    match base {
        ExprV::Character(cn) => set_in_path(g, cn, path, value),
        ExprV::From { base: ib, path: ip } => match *ib {
            ExprV::Character(cn) => set_in_nested_path(g, cn, *ip, path, value),
            _ => Err(rerr("Complex nested base not supported"@)),
        },
        _ => Err(rerr("Invalid base in set path"@)),
    }
}

/// Removes the entry at `path` inside the container entries `m`, giving the
/// new entries and the removed value.
pub open spec fn remove_from_container(m: Seq<(Seq<char>, ValueV)>, path: ExprV) -> Result<
    (Seq<(Seq<char>, ValueV)>, ValueV),
    ErrorV,
>
    decreases path,
{
    match path {
        ExprV::Attribute(name) => match remove_key(m, name) {
            (m2, Some(v)) => Ok((m2, v)),
            (_, None) => Err(rerr("Attribute "@ + name + " not found"@)),
        },
        ExprV::From { base, path: next } => match *base {
            ExprV::Container(cn) => match container_in(m, cn) {
                Some(inner) => match remove_from_container(inner, *next) {
                    Ok((inner2, v)) => Ok((put_container(m, cn, inner2), v)),
                    Err(e) => Err(e),
                },
                None => Err(container_missing(cn)),
            },
            _ => Err(rerr("Invalid nested path"@)),
        },
        _ => Err(rerr("Invalid path"@)),
    }
}

/// Removes the entry at `final_path` inside what `inner` leads to from `m`.
pub open spec fn remove_from_nested_container(
    m: Seq<(Seq<char>, ValueV)>,
    inner: ExprV,
    final_path: ExprV,
) -> Result<(Seq<(Seq<char>, ValueV)>, ValueV), ErrorV>
    decreases inner,
{
    match inner {
        ExprV::Container(cn) => match container_in(m, cn) {
            Some(im) => match remove_from_container(im, final_path) {
                Ok((im2, v)) => Ok((put_container(m, cn, im2), v)),
                Err(e) => Err(e),
            },
            None => Err(container_missing(cn)),
        },
        ExprV::From { base, path: next } => match *base {
            ExprV::Container(cn) => match container_in(m, cn) {
                Some(im) => match remove_from_nested_container(im, *next, final_path) {
                    Ok((im2, v)) => Ok((put_container(m, cn, im2), v)),
                    Err(e) => Err(e),
                },
                None => Err(container_missing(cn)),
            },
            _ => Err(rerr("Invalid nested path"@)),
        },
        _ => Err(rerr("Invalid inner path"@)),
    }
}

/// Removes the entry at `path` inside the character `cn`.
pub open spec fn remove_in_path(g: Seq<(Seq<char>, ValueV)>, cn: Seq<char>, path: ExprV) -> Result<
    (Seq<(Seq<char>, ValueV)>, ValueV),
    ErrorV,
> {
    match path {
        ExprV::Attribute(a) => match container_in(g, cn) {
            Some(m) => match remove_key(m, a) {
                (m2, Some(v)) => Ok((put_container(g, cn, m2), v)),
                (_, None) => Err(rerr("Attribute "@ + a + " not found"@)),
            },
            None => Err(character_missing(cn)),
        },
        ExprV::From { base, path: next } => match *base {
            ExprV::Container(ctn) => match container_in(g, cn) {
                Some(cm) => match container_in(cm, ctn) {
                    Some(im) => match remove_from_container(im, *next) {
                        Ok((im2, v)) => Ok((put_container(g, cn, put_container(cm, ctn, im2)), v)),
                        Err(e) => Err(e),
                    },
                    None => Err(container_missing(ctn)),
                },
                None => Err(character_missing(cn)),
            },
            _ => Err(rerr("Invalid path base"@)),
        },
        _ => Err(rerr("Invalid path"@)),
    }
}

/// Removes the entry at `final_path` inside what `inner` leads to from the
/// character `cn`.
pub open spec fn remove_in_nested_path(
    g: Seq<(Seq<char>, ValueV)>,
    cn: Seq<char>,
    inner: ExprV,
    final_path: ExprV,
) -> Result<(Seq<(Seq<char>, ValueV)>, ValueV), ErrorV> {
    match inner {
        ExprV::Container(ctn) => match container_in(g, cn) {
            Some(cm) => match container_in(cm, ctn) {
                Some(im) => match remove_from_container(im, final_path) {
                    Ok((im2, v)) => Ok((put_container(g, cn, put_container(cm, ctn, im2)), v)),
                    Err(e) => Err(e),
                },
                None => Err(container_missing(ctn)),
            },
            None => Err(character_missing(cn)),
        },
        ExprV::From { base, path: next } => match *base {
            ExprV::Container(ctn) => match container_in(g, cn) {
                Some(cm) => match container_in(cm, ctn) {
                    Some(im) => match remove_from_nested_container(im, *next, final_path) {
                        Ok((im2, v)) => Ok((put_container(g, cn, put_container(cm, ctn, im2)), v)),
                        Err(e) => Err(e),
                    },
                    None => Err(container_missing(ctn)),
                },
                None => Err(character_missing(cn)),
            },
            _ => Err(rerr("Invalid nested path"@)),
        },
        _ => Err(rerr("Invalid inner path"@)),
    }
}

/// Removes the entry at the place `[[from: base]: path]` names.
pub open spec fn remove_via_path(g: Seq<(Seq<char>, ValueV)>, base: ExprV, path: ExprV) -> Result<
    (Seq<(Seq<char>, ValueV)>, ValueV),
    ErrorV,
> {
    match base {
        ExprV::Character(cn) => remove_in_path(g, cn, path),
        ExprV::From { base: ib, path: ip } => match *ib {
            ExprV::Character(cn) => remove_in_nested_path(g, cn, *ip, path),
            _ => Err(rerr("Complex nested paths not yet supported"@)),
        },
        _ => Err(rerr("Invalid base in remove path"@)),
    }
}

// ---------------------------------------------------------------------------
// Navigation
// ---------------------------------------------------------------------------

/// Where a `goto` leads.
pub enum GotoV {
    Chapter(Seq<char>),
    Section(Seq<char>),
    Unknown,
}

/// The place named by the first `body` or `target` parameter that names one.
pub open spec fn goto_target(params: Seq<(Seq<char>, ExprV)>) -> GotoV
    decreases params,
{
    if params.len() == 0 {
        GotoV::Unknown
    } else {
        let (k, e) = params[0];
        let rest = params.drop_first();
        proof {
            assert(decreases_to!(params => rest)) by {
                assert(rest =~= params.subrange(1, params.len() as int));
            }
        }
        if k == "body"@ || k == "target"@ {
            match e {
                ExprV::Chapter(n) => GotoV::Chapter(n),
                ExprV::Section(n) => GotoV::Section(n),
                ExprV::Keyword { name, params: ip } => if name == "chapter"@ || name == "section"@ {
                    goto_target(ip)
                } else {
                    goto_target(rest)
                },
                _ => goto_target(rest),
            }
        } else {
            goto_target(rest)
        }
    }
}

/// How a place is written: `chapter::name`, `section::name` or `unknown`.
pub open spec fn goto_text(g: GotoV) -> Seq<char> {
    match g {
        GotoV::Chapter(n) => "chapter::"@ + n,
        GotoV::Section(n) => "section::"@ + n,
        GotoV::Unknown => "unknown"@,
    }
}

/// Moves to a place: a chapter leaves any section.
pub open spec fn go_to(st: RuntimeV, g: GotoV) -> RuntimeV {
    match g {
        GotoV::Chapter(n) => RuntimeV { chapter: Some(n), section: None, ..st },
        GotoV::Section(n) => RuntimeV { section: Some(n), ..st },
        GotoV::Unknown => st,
    }
}

pub open spec fn compare_op_of(op: Seq<char>) -> Option<CompareOp> {
    if op == ">"@ {
        Some(CompareOp::Greater)
    } else if op == "<"@ {
        Some(CompareOp::Less)
    } else if op == ">="@ {
        Some(CompareOp::GreaterEq)
    } else if op == "<="@ {
        Some(CompareOp::LessEq)
    } else if op == "=="@ {
        Some(CompareOp::Equal)
    } else if op == "!="@ {
        Some(CompareOp::NotEqual)
    } else {
        None
    }
}

pub open spec fn arith_op_of(op: Seq<char>) -> Option<ArithOp> {
    if op == "+"@ {
        Some(ArithOp::Add)
    } else if op == "-"@ {
        Some(ArithOp::Sub)
    } else if op == "*"@ {
        Some(ArithOp::Mul)
    } else if op == "/"@ {
        Some(ArithOp::Div)
    } else {
        None
    }
}

// ---------------------------------------------------------------------------
// Evaluation
// ---------------------------------------------------------------------------

pub proof fn lemma_drop_first_decreases<A>(s: Seq<A>)
    requires
        s.len() > 0,
    ensures
        decreases_to!(s => s.drop_first()),
{
    assert(s.drop_first() =~= s.subrange(1, s.len() as int));
}

/// Evaluates `e` in the state `st`.
pub open spec fn eval_expr(st: RuntimeV, e: ExprV, o: NumOracle) -> Step
    decreases e, 0nat,
{
    match e {
        ExprV::Text(s) => (st, Ok(ValueV::Text(s))),
        ExprV::Number(lit) => {
            let a = o(NumQueryV::Literal(lit));
            if a.holds {
                (st, Ok(ValueV::Number(a.value)))
            } else {
                (st, Err(rerr("Invalid number: "@ + lit)))
            }
        },
        ExprV::Flag(b) => (st, Ok(ValueV::Flag(b))),
        ExprV::Item => (st, Ok(ValueV::Item)),
        ExprV::Character(name) => match get_key(st.globals, name) {
            Some(v) => (st, Ok(v)),
            None => (st, Err(ErrorV::Name("Undefined character: "@ + name))),
        },
        ExprV::Attribute(name) => (st, Ok(ValueV::Text(name))),
        ExprV::Container(_) => (st, Ok(ValueV::Item)),
        ExprV::Chapter(name) => (
            with_line(RuntimeV { chapter: Some(name), ..st }, "[LOCATION: chapter:"@ + name + "]"@),
            Ok(ValueV::Text(name)),
        ),
        ExprV::Section(name) => (
            with_line(RuntimeV { section: Some(name), ..st }, "[LOCATION: section:"@ + name + "]"@),
            Ok(ValueV::Text(name)),
        ),
        ExprV::Define { target, body } => match *target {
            ExprV::Character(name) => {
                let st1 = with_globals(st, insert_key(st.globals, name, empty_container()));
                let (st2, r) = define_body(st1, name, *body, o);
                match r {
                    Ok(_) => (st2, Ok(empty_container())),
                    Err(err) => (st2, Err(err)),
                }
            },
            ExprV::Container(_) => (st, Ok(empty_container())),
            _ => (st, Err(rerr("Invalid define target"@))),
        },
        ExprV::SetValue { target, value } => {
            let (st1, r) = eval_expr(st, *value, o);
            match r {
                Err(err) => (st1, Err(err)),
                Ok(v) => match *target {
                    ExprV::From { base, path } => match set_via_path(st1.globals, *base, *path, v) {
                        Ok(g) => (with_globals(st1, g), Ok(v)),
                        Err(err) => (st1, Err(err)),
                    },
                    _ => (st1, Ok(v)),
                },
            }
        },
        ExprV::Add { target, value } => {
            let (st1, r) = eval_expr(st, *value, o);
            match r {
                Err(err) => (st1, Err(err)),
                Ok(v) => match *target {
                    ExprV::From { base, path } => {
                        let (st2, rb) = eval_expr(st1, *base, o);
                        let existing = match rb {
                            Ok(bv) => follow_path(bv, *path),
                            Err(err) => Err(err),
                        };
                        let sum = match existing {
                            Ok(ex) => match (ex, v) {
                                (ValueV::Number(n), ValueV::Number(m)) => Ok(
                                    ValueV::Number(o(NumQueryV::Arith(ArithOp::Add, n, m)).value),
                                ),
                                (ValueV::Item, ValueV::Item) => Ok(ValueV::Item),
                                _ => Err(ErrorV::Type("Cannot add values of different types"@)),
                            },
                            Err(_) => Ok(v),
                        };
                        match sum {
                            Err(err) => (st2, Err(err)),
                            Ok(s) => match set_via_path(st2.globals, *base, *path, s) {
                                Ok(g) => (with_globals(st2, g), Ok(s)),
                                Err(err) => (st2, Err(err)),
                            },
                        }
                    },
                    _ => (st1, Ok(v)),
                },
            }
        },
        ExprV::Remove { target } => match *target {
            ExprV::From { base, path } => match remove_via_path(st.globals, *base, *path) {
                Ok((g, v)) => (with_globals(st, g), Ok(v)),
                Err(err) => (st, Err(err)),
            },
            _ => (st, Ok(ValueV::Null)),
        },
        ExprV::From { base, path } => {
            let (st1, rb) = eval_expr(st, *base, o);
            match rb {
                Ok(bv) => (st1, follow_path(bv, *path)),
                Err(err) => (st1, Err(err)),
            }
        },
        ExprV::If { condition, body } => {
            let (st1, rc) = eval_expr(st, *condition, o);
            match rc {
                Err(err) => (st1, Err(err)),
                Ok(c) => if condition_holds(c) {
                    eval_expr(st1, *body, o)
                } else {
                    (st1, Ok(ValueV::Null))
                },
            }
        },
        ExprV::Sequence(es) => eval_seq(st, es, ValueV::Null, o),
        ExprV::Keyword { name, params } => if name == "exists"@ {
            eval_exists(st, params, o)
        } else if name == "if"@ {
            eval_if_keyword(st, params, o)
        } else if name == "display"@ {
            eval_display(st, params, o)
        } else if name == "option"@ {
            eval_option(st, params, Seq::empty(), Seq::empty(), o)
        } else if name == "as"@ {
            eval_as(st, params, Seq::empty(), Seq::empty(), o)
        } else if name == "goto"@ {
            let g = goto_target(params);
            (
                with_line(go_to(st, g), "[GOTO] "@ + goto_text(g)),
                Ok(ValueV::Text(goto_text(g))),
            )
        } else if name == "chapter"@ {
            eval_chapter(st, params, Seq::empty(), Seq::empty(), o)
        } else {
            (st, Err(rerr("Unknown keyword: "@ + name)))
        },
        ExprV::Comparison { op, left, right } => {
            let (st1, rl) = eval_expr(st, *left, o);
            match rl {
                Err(err) => (st1, Err(err)),
                Ok(lv) => {
                    let (st2, rr) = eval_expr(st1, *right, o);
                    match rr {
                        Err(err) => (st2, Err(err)),
                        Ok(rv) => match (lv, rv) {
                            (ValueV::Number(a), ValueV::Number(b)) => match compare_op_of(op) {
                                Some(c) => (
                                    st2,
                                    Ok(ValueV::Flag(o(NumQueryV::Compare(c, a, b)).holds)),
                                ),
                                None => (st2, Err(rerr("Unknown operator: "@ + op))),
                            },
                            _ => (st2, Err(ErrorV::Type("Comparison requires numeric values"@))),
                        },
                    }
                },
            }
        },
        ExprV::Arithmetic { op, left, right } => {
            let (st1, rl) = eval_expr(st, *left, o);
            match rl {
                Err(err) => (st1, Err(err)),
                Ok(lv) => {
                    let (st2, rr) = eval_expr(st1, *right, o);
                    match rr {
                        Err(err) => (st2, Err(err)),
                        Ok(rv) => match (lv, rv) {
                            (ValueV::Number(a), ValueV::Number(b)) => match arith_op_of(op) {
                                Some(k) => if k == ArithOp::Div && is_zero_bits(b) {
                                    (st2, Err(rerr("Division by zero"@)))
                                } else {
                                    (st2, Ok(ValueV::Number(o(NumQueryV::Arith(k, a, b)).value)))
                                },
                                None => (st2, Err(rerr("Unknown operator: "@ + op))),
                            },
                            _ => (st2, Err(ErrorV::Type("Arithmetic requires numeric values"@))),
                        },
                    }
                },
            }
        },
    }
}

/// Evaluates `es` in order, yielding the last value (`last` when empty) or
/// the first error.
pub open spec fn eval_seq(st: RuntimeV, es: Seq<ExprV>, last: ValueV, o: NumOracle) -> Step
    decreases es, 0nat,
{
    if es.len() == 0 {
        (st, Ok(last))
    } else {
        proof {
            lemma_drop_first_decreases(es);
        }
        let (st1, r) = eval_expr(st, es[0], o);
        match r {
            Err(err) => (st1, Err(err)),
            Ok(v) => eval_seq(st1, es.drop_first(), v, o),
        }
    }
}

/// Evaluates the body of `[[define: [character: ch]]: body]`: attributes
/// set directly go to the character, containers defined directly are added
/// to it.
pub open spec fn define_body(st: RuntimeV, ch: Seq<char>, e: ExprV, o: NumOracle) -> Step
    decreases e, 1nat,
{
    match e {
        ExprV::Sequence(es) => define_body_seq(st, ch, es, ValueV::Null, o),
        ExprV::SetValue { target, value } => match *target {
            ExprV::Attribute(a) => {
                let (st1, r) = eval_expr(st, *value, o);
                match r {
                    Err(err) => (st1, Err(err)),
                    Ok(v) => match container_in(st1.globals, ch) {
                        Some(m) => (
                            with_globals(st1, put_container(st1.globals, ch, insert_key(m, a, v))),
                            Ok(v),
                        ),
                        None => (st1, Err(rerr("Character not found: "@ + ch))),
                    },
                }
            },
            _ => eval_expr(st, e, o),
        },
        ExprV::Define { target, body } => match *target {
            ExprV::Container(cn) => {
                let st1 = match container_in(st.globals, ch) {
                    Some(m) => with_globals(
                        st,
                        put_container(st.globals, ch, insert_key(m, cn, empty_container())),
                    ),
                    None => st,
                };
                let (st2, r) = container_body(st1, ch, cn, *body, o);
                match r {
                    Ok(_) => (st2, Ok(empty_container())),
                    Err(err) => (st2, Err(err)),
                }
            },
            _ => eval_expr(st, e, o),
        },
        _ => eval_expr(st, e, o),
    }
}

pub open spec fn define_body_seq(st: RuntimeV, ch: Seq<char>, es: Seq<ExprV>, last: ValueV, o: NumOracle) -> Step
    decreases es, 1nat,
{
    if es.len() == 0 {
        (st, Ok(last))
    } else {
        proof {
            lemma_drop_first_decreases(es);
        }
        let (st1, r) = define_body(st, ch, es[0], o);
        match r {
            Err(err) => (st1, Err(err)),
            Ok(v) => define_body_seq(st1, ch, es.drop_first(), v, o),
        }
    }
}

/// Evaluates the body of `[[define: [container: cn]]: body]` inside the
/// character `ch`: attributes set directly go to the container.
pub open spec fn container_body(st: RuntimeV, ch: Seq<char>, cn: Seq<char>, e: ExprV, o: NumOracle) -> Step
    decreases e, 1nat,
{
    match e {
        ExprV::Sequence(es) => container_body_seq(st, ch, cn, es, ValueV::Null, o),
        ExprV::SetValue { target, value } => match *target {
            ExprV::Attribute(a) => {
                let (st1, r) = eval_expr(st, *value, o);
                match r {
                    Err(err) => (st1, Err(err)),
                    Ok(v) => match container_in(st1.globals, ch) {
                        Some(cm) => match container_in(cm, cn) {
                            Some(inner) => (
                                with_globals(
                                    st1,
                                    put_container(
                                        st1.globals,
                                        ch,
                                        put_container(cm, cn, insert_key(inner, a, v)),
                                    ),
                                ),
                                Ok(v),
                            ),
                            None => (
                                st1,
                                Err(rerr("Container "@ + cn + " not found in character "@ + ch)),
                            ),
                        },
                        None => (st1, Err(character_missing(ch))),
                    },
                }
            },
            _ => eval_expr(st, e, o),
        },
        _ => eval_expr(st, e, o),
    }
}

pub open spec fn container_body_seq(
    st: RuntimeV,
    ch: Seq<char>,
    cn: Seq<char>,
    es: Seq<ExprV>,
    last: ValueV,
    o: NumOracle,
) -> Step
    decreases es, 1nat,
{
    if es.len() == 0 {
        (st, Ok(last))
    } else {
        proof {
            lemma_drop_first_decreases(es);
        }
        let (st1, r) = container_body(st, ch, cn, es[0], o);
        match r {
            Err(err) => (st1, Err(err)),
            Ok(v) => container_body_seq(st1, ch, cn, es.drop_first(), v, o),
        }
    }
}

/// `[exists: x]`: whether the first `body` parameter evaluates to a value
/// other than null; a name error or a runtime error counts as absence.
pub open spec fn eval_exists(st: RuntimeV, params: Seq<(Seq<char>, ExprV)>, o: NumOracle) -> Step
    decreases params, 0nat,
{
    if params.len() == 0 {
        (st, Ok(ValueV::Flag(false)))
    } else {
        proof {
            lemma_drop_first_decreases(params);
        }
        if params[0].0 == "body"@ {
            let (st1, r) = eval_expr(st, params[0].1, o);
            match r {
                Ok(ValueV::Null) => (st1, Ok(ValueV::Flag(false))),
                Ok(_) => (st1, Ok(ValueV::Flag(true))),
                Err(ErrorV::Name(_)) => (st1, Ok(ValueV::Flag(false))),
                Err(ErrorV::Runtime(_)) => (st1, Ok(ValueV::Flag(false))),
                Err(err) => (st1, Err(err)),
            }
        } else {
            eval_exists(st, params.drop_first(), o)
        }
    }
}

/// `[if: body: x]`: whether the first `body` parameter holds as a condition.
pub open spec fn eval_if_keyword(st: RuntimeV, params: Seq<(Seq<char>, ExprV)>, o: NumOracle) -> Step
    decreases params, 0nat,
{
    if params.len() == 0 {
        (st, Ok(ValueV::Flag(false)))
    } else {
        proof {
            lemma_drop_first_decreases(params);
        }
        if params[0].0 == "body"@ {
            let (st1, r) = eval_expr(st, params[0].1, o);
            match r {
                Ok(c) => (st1, Ok(ValueV::Flag(condition_holds(c)))),
                Err(err) => (st1, Err(err)),
            }
        } else {
            eval_if_keyword(st, params.drop_first(), o)
        }
    }
}

/// `[[display: text]: options]`: shows the text, then evaluates the options.
pub open spec fn eval_display(st: RuntimeV, params: Seq<(Seq<char>, ExprV)>, o: NumOracle) -> Step
    decreases params, 0nat,
{
    if params.len() == 0 {
        (st, Ok(ValueV::Null))
    } else {
        proof {
            lemma_drop_first_decreases(params);
        }
        let (k, e) = params[0];
        if k == "id"@ {
            let (st1, r) = eval_expr(st, e, o);
            match r {
                Err(err) => (st1, Err(err)),
                Ok(v) => {
                    let st2 = match v {
                        ValueV::Text(t) => with_line(st1, "[DISPLAY] "@ + t),
                        _ => st1,
                    };
                    eval_display(st2, params.drop_first(), o)
                },
            }
        } else if k == "body"@ {
            let (st1, r) = eval_expr(st, e, o);
            match r {
                Err(err) => (st1, Err(err)),
                Ok(_) => eval_display(st1, params.drop_first(), o),
            }
        } else {
            eval_display(st, params.drop_first(), o)
        }
    }
}

/// `[[option: text]: [goto: place]]`: offers the text with the place as its
/// target (when the text is not empty).
pub open spec fn eval_option(
    st: RuntimeV,
    params: Seq<(Seq<char>, ExprV)>,
    text: Seq<char>,
    target: Seq<char>,
    o: NumOracle,
) -> Step
    decreases params, 0nat,
{
    if params.len() == 0 {
        if text.len() > 0 {
            (RuntimeV { options: st.options.push((text, target)), ..st }, Ok(ValueV::Null))
        } else {
            (st, Ok(ValueV::Null))
        }
    } else {
        proof {
            lemma_drop_first_decreases(params);
        }
        let (k, e) = params[0];
        if k == "id"@ {
            let (st1, r) = eval_expr(st, e, o);
            match r {
                Err(err) => (st1, Err(err)),
                Ok(v) => {
                    let text2 = match v {
                        ValueV::Text(t) => t,
                        _ => text,
                    };
                    eval_option(st1, params.drop_first(), text2, target, o)
                },
            }
        } else if k == "body"@ {
            match e {
                ExprV::Keyword { name, params: gp } => {
                    let target2 = if name == "goto"@ {
                        goto_text(goto_target(gp))
                    } else {
                        target
                    };
                    eval_option(st, params.drop_first(), text, target2, o)
                },
                _ => {
                    let (st1, r) = eval_expr(st, e, o);
                    match r {
                        Err(err) => (st1, Err(err)),
                        Ok(_) => eval_option(st1, params.drop_first(), text, target, o),
                    }
                },
            }
        } else {
            eval_option(st, params.drop_first(), text, target, o)
        }
    }
}

/// The line that narrates `text`, with its speaker when there is one.
pub open spec fn narration(label: Seq<char>, text: Seq<char>) -> Seq<char> {
    if label.len() > 0 {
        "[AS: "@ + label + "] "@ + text
    } else {
        "[TEXT] "@ + text
    }
}

/// `[[as: speaker]: text]`: narrates the text, with the speaker's name.
pub open spec fn eval_as(
    st: RuntimeV,
    params: Seq<(Seq<char>, ExprV)>,
    label: Seq<char>,
    text: Seq<char>,
    o: NumOracle,
) -> Step
    decreases params, 0nat,
{
    if params.len() == 0 {
        (with_line(st, narration(label, text)), Ok(ValueV::Null))
    } else {
        proof {
            lemma_drop_first_decreases(params);
        }
        let (k, e) = params[0];
        if k == "id"@ {
            if e == ExprV::Item {
                eval_as(st, params.drop_first(), label, text, o)
            } else {
                let (st1, r) = eval_expr(st, e, o);
                match r {
                    Err(err) => (st1, Err(err)),
                    Ok(v) => {
                        let label2 = match v {
                            ValueV::Text(l) => l,
                            ValueV::Container(_) => "Container"@,
                            _ => label,
                        };
                        eval_as(st1, params.drop_first(), label2, text, o)
                    },
                }
            }
        } else if k == "body"@ {
            let (st1, r) = eval_expr(st, e, o);
            match r {
                Err(err) => (st1, Err(err)),
                Ok(v) => {
                    let text2 = match v {
                        ValueV::Text(t) => t,
                        _ => text,
                    };
                    eval_as(st1, params.drop_first(), label, text2, o)
                },
            }
        } else {
            eval_as(st, params.drop_first(), label, text, o)
        }
    }
}

/// `[[chapter: name]: text]`: enters the chapter and shows its heading (when
/// the text is not empty).
pub open spec fn eval_chapter(
    st: RuntimeV,
    params: Seq<(Seq<char>, ExprV)>,
    name: Seq<char>,
    text: Seq<char>,
    o: NumOracle,
) -> Step
    decreases params, 0nat,
{
    if params.len() == 0 {
        if text.len() > 0 {
            (with_line(st, "[CHAPTER: "@ + name + "] "@ + text), Ok(ValueV::Null))
        } else {
            (st, Ok(ValueV::Null))
        }
    } else {
        proof {
            lemma_drop_first_decreases(params);
        }
        let (k, e) = params[0];
        if k == "id"@ {
            match e {
                ExprV::Chapter(n) => eval_chapter(
                    RuntimeV { chapter: Some(n), ..st },
                    params.drop_first(),
                    n,
                    text,
                    o,
                ),
                _ => eval_chapter(st, params.drop_first(), name, text, o),
            }
        } else if k == "body"@ {
            let (st1, r) = eval_expr(st, e, o);
            match r {
                Err(err) => (st1, Err(err)),
                Ok(v) => {
                    let text2 = match v {
                        ValueV::Text(t) => t,
                        _ => text,
                    };
                    eval_chapter(st1, params.drop_first(), name, text2, o)
                },
            }
        } else {
            eval_chapter(st, params.drop_first(), name, text, o)
        }
    }
}

// ---------------------------------------------------------------------------
// Programs
// ---------------------------------------------------------------------------

/// How `Debug` writes the double that the literal `lit` denotes.
pub open spec fn number_debug(lit: Seq<char>, o: NumOracle) -> Seq<char> {
    o(NumQueryV::Debug(o(NumQueryV::Literal(lit)).value)).text@
}

/// How `Debug` writes an expression (numbers as the doubles they denote).
pub open spec fn expr_debug(e: ExprV, o: NumOracle) -> Seq<char>
    decreases e,
{
    let d = |s: Seq<char>| spec_str_debug(s);
    match e {
        ExprV::Text(s) => "Text("@ + d(s) + ")"@,
        ExprV::Number(s) => "Number("@ + number_debug(s, o) + ")"@,
        ExprV::Flag(b) => if b { "Flag(true)"@ } else { "Flag(false)"@ },
        ExprV::Item => "Item"@,
        ExprV::Define { target, body } => "Define { target: "@ + expr_debug(*target, o) + ", body: "@
            + expr_debug(*body, o) + " }"@,
        ExprV::SetValue { target, value } => "Set { target: "@ + expr_debug(*target, o)
            + ", value: "@ + expr_debug(*value, o) + " }"@,
        ExprV::Add { target, value } => "Add { target: "@ + expr_debug(*target, o) + ", value: "@
            + expr_debug(*value, o) + " }"@,
        ExprV::Remove { target } => "Remove { target: "@ + expr_debug(*target, o) + " }"@,
        ExprV::From { base, path } => "From { base: "@ + expr_debug(*base, o) + ", path: "@
            + expr_debug(*path, o) + " }"@,
        ExprV::Attribute(s) => "Attribute("@ + d(s) + ")"@,
        ExprV::Character(s) => "Character("@ + d(s) + ")"@,
        ExprV::Container(s) => "Container("@ + d(s) + ")"@,
        ExprV::Chapter(s) => "Chapter("@ + d(s) + ")"@,
        ExprV::Section(s) => "Section("@ + d(s) + ")"@,
        ExprV::If { condition, body } => "If { condition: "@ + expr_debug(*condition, o)
            + ", body: "@ + expr_debug(*body, o) + " }"@,
        ExprV::Keyword { name, params } => "Keyword { name: "@ + d(name) + ", params: ["@
            + params_debug(params, o) + "] }"@,
        ExprV::Sequence(es) => "SequenceExpr(["@ + exprs_debug(es, o) + "])"@,
        ExprV::Comparison { op, left, right } => "ComparisonOp { op: "@ + d(op) + ", left: "@
            + expr_debug(*left, o) + ", right: "@ + expr_debug(*right, o) + " }"@,
        ExprV::Arithmetic { op, left, right } => "ArithmeticOp { op: "@ + d(op) + ", left: "@
            + expr_debug(*left, o) + ", right: "@ + expr_debug(*right, o) + " }"@,
    }
}

/// The parameters, written as `Debug` writes a list of pairs (without the
/// brackets).
pub open spec fn params_debug(params: Seq<(Seq<char>, ExprV)>, o: NumOracle) -> Seq<char>
    decreases params,
{
    if params.len() == 0 {
        Seq::empty()
    } else {
        proof {
            lemma_drop_first_decreases(params);
        }
        let item = "("@ + spec_str_debug(params[0].0) + ", "@ + expr_debug(params[0].1, o) + ")"@;
        if params.len() == 1 {
            item
        } else {
            item + ", "@ + params_debug(params.drop_first(), o)
        }
    }
}

/// The expressions, written as `Debug` writes a list (without the brackets).
pub open spec fn exprs_debug(es: Seq<ExprV>, o: NumOracle) -> Seq<char>
    decreases es,
{
    if es.len() == 0 {
        Seq::empty()
    } else {
        proof {
            lemma_drop_first_decreases(es);
        }
        if es.len() == 1 {
            expr_debug(es[0], o)
        } else {
            expr_debug(es[0], o) + ", "@ + exprs_debug(es.drop_first(), o)
        }
    }
}

/// The error that stops a program at its expression number `idx`.
pub open spec fn program_error(idx: nat, err: ErrorV, e: ExprV, o: NumOracle) -> ErrorV {
    rerr(
        "Error executing expression "@ + decimal(idx) + ": "@ + crate::error::error_text(err)
            + " (expr: "@ + expr_debug(e, o) + ")"@,
    )
}

/// Runs the expressions `es` in order from number `idx` on; the first error
/// stops the program.
pub open spec fn run_program(st: RuntimeV, es: Seq<ExprV>, idx: nat, o: NumOracle) -> (
    RuntimeV,
    Result<(), ErrorV>,
)
    decreases es.len(),
{
    if es.len() == 0 {
        (st, Ok(()))
    } else {
        let (st1, r) = eval_expr(st, es[0], o);
        match r {
            Err(err) => (st1, Err(program_error(idx, err, es[0], o))),
            Ok(_) => run_program(st1, es.drop_first(), idx + 1, o),
        }
    }
}

} // verus!
