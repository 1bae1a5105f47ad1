//! The story runtime: evaluates expressions against the story state.
use vstd::prelude::*;
use crate::error::{ErrorV, PslError};
use crate::parser::{exprs_model, params_model, Expr, ExprV};
use crate::paths::{remove_via_path_exec, runtime_error, set_via_path_exec};
use crate::semantics::{
    arith_op_of, compare_op_of, condition_holds, container_body, container_body_seq, define_body,
    define_body_seq, eval_as, eval_chapter, eval_display, eval_exists, eval_expr, eval_if_keyword,
    eval_option, eval_seq, expr_debug, exprs_debug, follow_path, goto_target, goto_text,
    params_debug, run_program, with_line, ArithOp, CompareOp, GotoV, NumAnswer, NumOracle,
    NumQuery, RuntimeV,
};
use crate::text::{push_decimal, push_str, str_debug, str_eq};
use crate::value::{
    duplicate_entries, entries_model, get_entry, insert_entry, number_is_zero, Value, ValueV,
};

verus! {

/// The lines of output, as texts.
pub open spec fn lines_view(s: Seq<String>) -> Seq<Seq<char>> {
    s.map_values(|x: String| x@)
}

/// The options offered, as (text, target) pairs.
pub open spec fn options_view(s: Seq<(String, String)>) -> Seq<(Seq<char>, Seq<char>)> {
    s.map_values(|x: (String, String)| (x.0@, x.1@))
}

pub open spec fn opt_view(o: Option<String>) -> Option<Seq<char>> {
    match o {
        Some(s) => Some(s@),
        None => None,
    }
}

/// A step's outcome as a value.
pub open spec fn val_res(r: Result<Value, PslError>) -> Result<ValueV, ErrorV> {
    match r {
        Ok(v) => Ok(v.model()),
        Err(e) => Err(e@),
    }
}

/// The number function `f` answers each query as `o` does (and accepts
/// every query).
pub open spec fn answers_by<F: Fn(NumQuery) -> NumAnswer>(f: F, o: NumOracle) -> bool {
    &&& forall|q: NumQuery| #[trigger] call_requires(f, (q,))
    &&& forall|q: NumQuery, a: NumAnswer| #[trigger] call_ensures(f, (q,), a) ==> a == o(q@)
}

/// Where a `goto` leads.
pub enum Goto {
    Chapter(String),
    Section(String),
    Unknown,
}

impl View for Goto {
    type V = GotoV;

    open spec fn view(&self) -> GotoV {
        match self {
            Goto::Chapter(n) => GotoV::Chapter(n@),
            Goto::Section(n) => GotoV::Section(n@),
            Goto::Unknown => GotoV::Unknown,
        }
    }
}

pub proof fn lemma_params_model(s: Seq<(String, Expr)>)
    ensures
        params_model(s).len() == s.len(),
        forall|i: int| 0 <= i < s.len() ==> #[trigger] params_model(s)[i] == (s[i].0@, s[i].1@),
    decreases s.len(),
{
    if s.len() > 0 {
        lemma_params_model(s.drop_last());
    }
}

proof fn lemma_skip_step<A>(s: Seq<A>, i: int)
    requires
        0 <= i < s.len(),
    ensures
        s.skip(i).len() > 0,
        s.skip(i)[0] == s[i],
        s.skip(i).drop_first() == s.skip(i + 1),
{
    assert(s.skip(i).drop_first() =~= s.skip(i + 1));
}

proof fn lemma_lines_push(s: Seq<String>, x: String)
    ensures
        lines_view(s.push(x)) == lines_view(s).push(x@),
{
    assert(s.push(x).map_values(|x: String| x@) =~= s.map_values(|x: String| x@).push(x@));
}

proof fn lemma_options_push(s: Seq<(String, String)>, x: (String, String))
    ensures
        options_view(s.push(x)) == options_view(s).push((x.0@, x.1@)),
{
    assert(s.push(x).map_values(|x: (String, String)| (x.0@, x.1@)) =~= s.map_values(
        |x: (String, String)| (x.0@, x.1@),
    ).push((x.0@, x.1@)));
}

/// `a` followed by `b`.
fn concat2(a: &str, b: &str) -> (r: String)
    ensures
        r@ == a@ + b@,
{
    let mut s = String::from_str(a);
    push_str(&mut s, b);
    s
}

/// `a` followed by `b` and `c`.
fn concat3(a: &str, b: &str, c: &str) -> (r: String)
    ensures
        r@ == a@ + b@ + c@,
{
    let mut s = String::from_str(a);
    push_str(&mut s, b);
    push_str(&mut s, c);
    s
}

/// The place a `goto`'s parameters name.
pub fn goto_target_exec(params: &Vec<(String, Expr)>) -> (r: Goto)
    ensures
        r@ == goto_target(params_model(params@)),
    decreases params,
{
    let ghost ps = params_model(params@);
    proof {
        lemma_params_model(params@);
        reveal_with_fuel(Expr::model, 2);
    }
    let mut i: usize = 0;
    proof {
        assert(ps.skip(0) =~= ps);
    }
    while i < params.len()
        invariant
            i <= params.len(),
            ps == params_model(params@),
            ps.len() == params@.len(),
            forall|j: int| 0 <= j < params@.len() ==> #[trigger] ps[j] == (params@[j].0@, params@[j].1@),
            goto_target(ps) == goto_target(ps.skip(i as int)),
        decreases params.len() - i,
    {
        proof {
            lemma_skip_step(ps, i as int);
        }
        let k = params[i].0.as_str();
        if str_eq(k, "body") || str_eq(k, "target") {
            match &params[i].1 {
                Expr::Chapter(n) => {
                    return Goto::Chapter(n.clone());
                },
                Expr::Section(n) => {
                    return Goto::Section(n.clone());
                },
                Expr::Keyword { name, params: ip } => {
                    if str_eq(name.as_str(), "chapter") || str_eq(name.as_str(), "section") {
                        proof {
                            assert(decreases_to!(params => params@[i as int].1)) by {
                                assert(decreases_to!(params => params@));
                                assert(decreases_to!(params@ => params@[i as int]));
                                assert(decreases_to!(params@[i as int] => params@[i as int].1));
                            }
                        }
                        return goto_target_exec(ip);
                    }
                },
                _ => {},
            }
        }
        i = i + 1;
    }
    Goto::Unknown
}

/// How a place is written.
pub fn goto_text_exec(g: &Goto) -> (r: String)
    ensures
        r@ == goto_text(g@),
{
    match g {
        Goto::Chapter(n) => {
            let mut s = String::from_str("chapter::");
            push_str(&mut s, n.as_str());
            s
        },
        Goto::Section(n) => {
            let mut s = String::from_str("section::");
            push_str(&mut s, n.as_str());
            s
        },
        Goto::Unknown => String::from_str("unknown"),
    }
}

fn compare_op_exec(op: &str) -> (r: Option<CompareOp>)
    ensures
        r == compare_op_of(op@),
{
    if str_eq(op, ">") {
        Some(CompareOp::Greater)
    } else if str_eq(op, "<") {
        Some(CompareOp::Less)
    } else if str_eq(op, ">=") {
        Some(CompareOp::GreaterEq)
    } else if str_eq(op, "<=") {
        Some(CompareOp::LessEq)
    } else if str_eq(op, "==") {
        Some(CompareOp::Equal)
    } else if str_eq(op, "!=") {
        Some(CompareOp::NotEqual)
    } else {
        None
    }
}

fn arith_op_exec(op: &str) -> (r: Option<ArithOp>)
    ensures
        r == arith_op_of(op@),
{
    if str_eq(op, "+") {
        Some(ArithOp::Add)
    } else if str_eq(op, "-") {
        Some(ArithOp::Sub)
    } else if str_eq(op, "*") {
        Some(ArithOp::Mul)
    } else if str_eq(op, "/") {
        Some(ArithOp::Div)
    } else {
        None
    }
}

/// Runs PSL expressions: keeps the characters, the current chapter and
/// section, the output and the options offered. Numbers are computed by the
/// number function given at creation (see `NumQuery`).
pub struct Runtime<F: Fn(NumQuery) -> NumAnswer> {
    globals: Vec<(String, Value)>,
    current_chapter: Option<String>,
    current_section: Option<String>,
    output: Vec<String>,
    pending_options: Vec<(String, String)>,
    numbers: F,
    number_model: Ghost<NumOracle>,
}

impl<F: Fn(NumQuery) -> NumAnswer> View for Runtime<F> {
    type V = RuntimeV;

    closed spec fn view(&self) -> RuntimeV {
        RuntimeV {
            globals: entries_model(self.globals@),
            chapter: opt_view(self.current_chapter),
            section: opt_view(self.current_section),
            output: lines_view(self.output@),
            options: options_view(self.pending_options@),
        }
    }
}

impl<F: Fn(NumQuery) -> NumAnswer> Runtime<F> {
    /// The number function answers as the model says.
    pub closed spec fn wf(&self) -> bool {
        answers_by(self.numbers, self.number_model@)
    }

    /// How the runtime's number function answers.
    pub closed spec fn numbers(&self) -> NumOracle {
        self.number_model@
    }

    /// A runtime with no characters, no place, no output and no options.
    pub fn new(numbers: F) -> (r: Self)
        requires
            exists|o: NumOracle| answers_by(numbers, o),
        ensures
            r@ == (RuntimeV {
                globals: Seq::empty(),
                chapter: None,
                section: None,
                output: Seq::empty(),
                options: Seq::empty(),
            }),
            answers_by(numbers, r.numbers()),
            r.wf(),
    {
        let ghost o = choose|o: NumOracle| answers_by(numbers, o);
        let r = Runtime {
            globals: Vec::new(),
            current_chapter: None,
            current_section: None,
            output: Vec::new(),
            pending_options: Vec::new(),
            numbers,
            number_model: Ghost(o),
        };
        proof {
            assert(entries_model(r.globals@) =~= Seq::empty());
            assert(lines_view(r.output@) =~= Seq::empty());
            assert(options_view(r.pending_options@) =~= Seq::empty());
        }
        r
    }

    /// The lines of output so far.
    pub fn get_output(&self) -> (r: &[String])
        ensures
            lines_view(r@) == self@.output,
    {
        self.output.as_slice()
    }

    /// The options offered so far, as (text, target) pairs.
    pub fn get_options(&self) -> (r: &[(String, String)])
        ensures
            options_view(r@) == self@.options,
    {
        self.pending_options.as_slice()
    }

    /// Forgets the output and the options.
    pub fn clear_output(&mut self)
        ensures
            final(self)@ == (RuntimeV { output: Seq::empty(), options: Seq::empty(), ..old(self)@ }),
            final(self).numbers() == old(self).numbers(),
            final(self).wf() == old(self).wf(),
    {
        self.output.clear();
        self.pending_options.clear();
        proof {
            assert(lines_view(self.output@) =~= Seq::empty());
            assert(options_view(self.pending_options@) =~= Seq::empty());
        }
    }

    /// A copy of the characters.
    pub fn get_globals(&self) -> (r: Vec<(String, Value)>)
        ensures
            entries_model(r@) == self@.globals,
    {
        duplicate_entries(&self.globals)
    }

    /// The current chapter.
    pub fn get_current_chapter(&self) -> (r: Option<String>)
        ensures
            opt_view(r) == self@.chapter,
    {
        match &self.current_chapter {
            Some(s) => Some(s.clone()),
            None => None,
        }
    }

    /// The current section.
    pub fn get_current_section(&self) -> (r: Option<String>)
        ensures
            opt_view(r) == self@.section,
    {
        match &self.current_section {
            Some(s) => Some(s.clone()),
            None => None,
        }
    }

    /// Puts back saved characters and place; output and options stay.
    pub fn restore_state(
        &mut self,
        globals: Vec<(String, Value)>,
        current_chapter: Option<String>,
        current_section: Option<String>,
    ) -> (r: Result<(), PslError>)
        ensures
            r is Ok,
            final(self)@ == (RuntimeV {
                globals: entries_model(globals@),
                chapter: opt_view(current_chapter),
                section: opt_view(current_section),
                ..old(self)@
            }),
            final(self).numbers() == old(self).numbers(),
            final(self).wf() == old(self).wf(),
    {
        self.globals = globals;
        self.current_chapter = current_chapter;
        self.current_section = current_section;
        Ok(())
    }

    fn ask(&self, q: NumQuery) -> (a: NumAnswer)
        requires
            self.wf(),
        ensures
            a == self.numbers()(q@),
    {
        let ghost qv = q;
        let a = (self.numbers)(q);
        a
    }

    fn push_line(&mut self, line: String)
        ensures
            final(self)@ == with_line(old(self)@, line@),
            final(self).numbers() == old(self).numbers(),
            final(self).wf() == old(self).wf(),
    {
        let ghost before = self.output@;
        self.output.push(line);
        proof {
            lemma_lines_push(before, line);
        }
    }

    /// Runs the expressions of a program in order; the first error stops it
    /// and is reported with the expression's number and form.
    pub fn execute(&mut self, program: Vec<Expr>) -> (r: Result<(), PslError>)
        requires
            old(self).wf(),
        ensures
            final(self).numbers() == old(self).numbers(),
            final(self).wf(),
            (final(self)@, match r {
                Ok(()) => Ok(()),
                Err(e) => Err(e@),
            }) == run_program(old(self)@, exprs_model(program@), 0, old(self).numbers()),
    {
        let ghost es = exprs_model(program@);
        proof {
            crate::parser::lemma_exprs_model_len(program@);
        }
        let mut idx: usize = 0;
        proof {
            assert(es.skip(0) =~= es);
        }
        while idx < program.len()
            invariant
                idx <= program.len(),
                es == exprs_model(program@),
                es.len() == program@.len(),
                forall|j: int| 0 <= j < program@.len() ==> #[trigger] es[j] == program@[j]@,
                self.numbers() == old(self).numbers(),
                self.wf(),
                run_program(old(self)@, es, 0, old(self).numbers()) == run_program(
                    self@,
                    es.skip(idx as int),
                    idx as nat,
                    old(self).numbers(),
                ),
            decreases program.len() - idx,
        {
            proof {
                lemma_skip_step(es, idx as int);
            }
            match self.eval(&program[idx]) {
                Ok(_) => {},
                Err(e) => {
                    let mut m = String::from_str("Error executing expression ");
                    push_decimal(&mut m, idx);
                    push_str(&mut m, ": ");
                    let t = e.to_message();
                    push_str(&mut m, t.as_str());
                    push_str(&mut m, " (expr: ");
                    let d = expr_debug_exec(self, &program[idx]);
                    push_str(&mut m, d.as_str());
                    push_str(&mut m, ")");
                    proof {
                        assert(m@ =~= "Error executing expression "@ + crate::text::decimal(
                            idx as nat,
                        ) + ": "@ + crate::error::error_text(e@) + " (expr: "@ + expr_debug(
                            es[idx as int],
                            old(self).numbers(),
                        ) + ")"@);
                    }
                    return Err(PslError::RuntimeError(m));
                },
            }
            idx = idx + 1;
        }
        proof {
            assert(es.skip(idx as int) =~= Seq::<ExprV>::empty());
        }
        Ok(())
    }

    /// Evaluates one expression, changing the story state as it says.
    pub fn eval(&mut self, expr: &Expr) -> (r: Result<Value, PslError>)
        requires
            old(self).wf(),
        ensures
            final(self).numbers() == old(self).numbers(),
            final(self).wf(),
            (final(self)@, val_res(r)) == eval_expr(old(self)@, expr@, old(self).numbers()),
        decreases expr, 2nat,
    {
        proof {
            reveal_with_fuel(Expr::model, 2);
        }
        match expr {
            Expr::Text(s) => Ok(Value::Text(s.clone())),
            Expr::Number(lit) => {
                let a = self.ask(NumQuery::Literal(lit.clone()));
                if a.holds {
                    Ok(Value::Number(a.value))
                } else {
                    Err(PslError::RuntimeError(concat2("Invalid number: ", lit.as_str())))
                }
            },
            Expr::Flag(b) => Ok(Value::Flag(*b)),
            Expr::Item => Ok(Value::Item),
            Expr::Character(name) => match get_entry(&self.globals, name.as_str()) {
                Some(v) => Ok(v.duplicate()),
                None => Err(PslError::NameError(concat2("Undefined character: ", name.as_str()))),
            },
            Expr::Attribute(name) => Ok(Value::Text(name.clone())),
            Expr::Container(_) => Ok(Value::Item),
            Expr::Chapter(name) => {
                self.current_chapter = Some(name.clone());
                self.push_line(concat3("[LOCATION: chapter:", name.as_str(), "]"));
                Ok(Value::Text(name.clone()))
            },
            Expr::Section(name) => {
                self.current_section = Some(name.clone());
                self.push_line(concat3("[LOCATION: section:", name.as_str(), "]"));
                Ok(Value::Text(name.clone()))
            },
            Expr::Define { .. } => self.eval_define(expr),
            Expr::SetValue { .. } => self.eval_set(expr),
            Expr::Add { .. } => self.eval_add(expr),
            Expr::Remove { target } => self.eval_remove(target),
            Expr::From { base, path } => self.get_via_path(base, path),
            Expr::If { .. } => self.eval_if_expr(expr),
            Expr::SequenceExpr(exprs) => self.eval_sequence(exprs),
            Expr::Keyword { name, params } => self.eval_keyword(name, params),
            Expr::ComparisonOp { .. } => self.eval_comparison(expr),
            Expr::ArithmeticOp { .. } => self.eval_arithmetic(expr),
        }
    }

    fn eval_sequence(&mut self, exprs: &Vec<Expr>) -> (r: Result<Value, PslError>)
        requires
            old(self).wf(),
        ensures
            final(self).numbers() == old(self).numbers(),
            final(self).wf(),
            (final(self)@, val_res(r)) == eval_seq(
                old(self)@,
                exprs_model(exprs@),
                ValueV::Null,
                old(self).numbers(),
            ),
        decreases exprs, 1nat,
    {
        let ghost es = exprs_model(exprs@);
        proof {
            crate::parser::lemma_exprs_model_len(exprs@);
        }
        let mut last = Value::Null;
        let mut i: usize = 0;
        proof {
            assert(es.skip(0) =~= es);
        }
        while i < exprs.len()
            invariant
                i <= exprs.len(),
                es == exprs_model(exprs@),
                es.len() == exprs@.len(),
                forall|j: int| 0 <= j < exprs@.len() ==> #[trigger] es[j] == exprs@[j]@,
                self.numbers() == old(self).numbers(),
                self.wf(),
                eval_seq(old(self)@, es, ValueV::Null, old(self).numbers()) == eval_seq(
                    self@,
                    es.skip(i as int),
                    last.model(),
                    old(self).numbers(),
                ),
            decreases exprs.len() - i,
        {
            proof {
                lemma_skip_step(es, i as int);
                assert(decreases_to!(exprs => exprs@[i as int])) by {
                    assert(decreases_to!(exprs => exprs@));
                }
            }
            match self.eval(&exprs[i]) {
                Ok(v) => {
                    last = v;
                },
                Err(e) => {
                    return Err(e);
                },
            }
            i = i + 1;
        }
        proof {
            assert(es.skip(i as int) =~= Seq::<ExprV>::empty());
        }
        Ok(last)
    }

    fn eval_define(&mut self, expr: &Expr) -> (r: Result<Value, PslError>)
        requires
            old(self).wf(),
            expr@ is Define,
        ensures
            final(self).numbers() == old(self).numbers(),
            final(self).wf(),
            (final(self)@, val_res(r)) == eval_expr(old(self)@, expr@, old(self).numbers()),
        decreases expr, 1nat,
    {
        proof {
            reveal_with_fuel(Expr::model, 3);
        }
        match expr {
            Expr::Define { target, body } => match &**target {
                Expr::Character(name) => {
                    insert_entry(&mut self.globals, name.clone(), Value::Container(Vec::new()));
                    proof {
                        assert(entries_model(Seq::<(String, Value)>::empty()) =~= Seq::empty());
                    }
                    match self.define_body(name, body) {
                        Ok(_) => Ok(Value::Container(Vec::new())),
                        Err(e) => Err(e),
                    }
                },
                Expr::Container(_) => Ok(Value::Container(Vec::new())),
                _ => Err(PslError::RuntimeError(String::from_str("Invalid define target"))),
            },
            _ => {
                proof {
                    assert(false);
                }
                Err(PslError::RuntimeError(String::new()))
            },
        }
    }

    /// Evaluates the expressions of a character's definition in order.
    fn define_body_list(&mut self, character: &String, exprs: &Vec<Expr>) -> (r: Result<
        Value,
        PslError,
    >)
        requires
            old(self).wf(),
        ensures
            final(self).numbers() == old(self).numbers(),
            final(self).wf(),
            (final(self)@, val_res(r)) == define_body_seq(
                old(self)@,
                character@,
                exprs_model(exprs@),
                ValueV::Null,
                old(self).numbers(),
            ),
        decreases exprs, 4nat,
    {
        let ghost es = exprs_model(exprs@);
        proof {
            crate::parser::lemma_exprs_model_len(exprs@);
        }
        let mut last = Value::Null;
        let mut i: usize = 0;
        proof {
            assert(es.skip(0) =~= es);
        }
        while i < exprs.len()
            invariant
                i <= exprs.len(),
                es == exprs_model(exprs@),
                es.len() == exprs@.len(),
                forall|j: int| 0 <= j < exprs@.len() ==> #[trigger] es[j] == exprs@[j]@,
                self.numbers() == old(self).numbers(),
                self.wf(),
                define_body_seq(old(self)@, character@, es, ValueV::Null, old(self).numbers())
                    == define_body_seq(
                    self@,
                    character@,
                    es.skip(i as int),
                    last.model(),
                    old(self).numbers(),
                ),
            decreases exprs.len() - i,
        {
            proof {
                lemma_skip_step(es, i as int);
                assert(decreases_to!(exprs => exprs@[i as int])) by {
                    assert(decreases_to!(exprs => exprs@));
                }
            }
            match self.define_body(character, &exprs[i]) {
                Ok(v) => {
                    last = v;
                },
                Err(e) => {
                    return Err(e);
                },
            }
            i = i + 1;
        }
        proof {
            assert(es.skip(i as int) =~= Seq::<ExprV>::empty());
        }
        Ok(last)
    }

    /// Evaluates the expressions of a container's definition in order.
    fn container_body_list(&mut self, character: &String, container: &String, exprs: &Vec<Expr>) -> (r:
        Result<Value, PslError>)
        requires
            old(self).wf(),
        ensures
            final(self).numbers() == old(self).numbers(),
            final(self).wf(),
            (final(self)@, val_res(r)) == container_body_seq(
                old(self)@,
                character@,
                container@,
                exprs_model(exprs@),
                ValueV::Null,
                old(self).numbers(),
            ),
        decreases exprs, 4nat,
    {
        let ghost es = exprs_model(exprs@);
        proof {
            crate::parser::lemma_exprs_model_len(exprs@);
        }
        let mut last = Value::Null;
        let mut i: usize = 0;
        proof {
            assert(es.skip(0) =~= es);
        }
        while i < exprs.len()
            invariant
                i <= exprs.len(),
                es == exprs_model(exprs@),
                es.len() == exprs@.len(),
                forall|j: int| 0 <= j < exprs@.len() ==> #[trigger] es[j] == exprs@[j]@,
                self.numbers() == old(self).numbers(),
                self.wf(),
                container_body_seq(
                    old(self)@,
                    character@,
                    container@,
                    es,
                    ValueV::Null,
                    old(self).numbers(),
                ) == container_body_seq(
                    self@,
                    character@,
                    container@,
                    es.skip(i as int),
                    last.model(),
                    old(self).numbers(),
                ),
            decreases exprs.len() - i,
        {
            proof {
                lemma_skip_step(es, i as int);
                assert(decreases_to!(exprs => exprs@[i as int])) by {
                    assert(decreases_to!(exprs => exprs@));
                }
            }
            match self.container_body(character, container, &exprs[i]) {
                Ok(v) => {
                    last = v;
                },
                Err(e) => {
                    return Err(e);
                },
            }
            i = i + 1;
        }
        proof {
            assert(es.skip(i as int) =~= Seq::<ExprV>::empty());
        }
        Ok(last)
    }

    /// Evaluates the body of a character's definition.
    fn define_body(&mut self, character: &String, expr: &Expr) -> (r: Result<Value, PslError>)
        requires
            old(self).wf(),
        ensures
            final(self).numbers() == old(self).numbers(),
            final(self).wf(),
            (final(self)@, val_res(r)) == define_body(
                old(self)@,
                character@,
                expr@,
                old(self).numbers(),
            ),
        decreases expr, 3nat,
    {
        proof {
            reveal_with_fuel(Expr::model, 3);
        }
        match expr {
            Expr::SequenceExpr(exprs) => self.define_body_list(character, exprs),
            Expr::SetValue { target, value } => match &**target {
                Expr::Attribute(a) => {
                    let v = match self.eval(value) {
                        Ok(v) => v,
                        Err(e) => {
                            return Err(e);
                        },
                    };
                    let ghost g0 = self.globals@;
                    match crate::paths::take_container(&mut self.globals, character.as_str()) {
                        Some((i, k, map)) => {
                            let mut map = map;
                            insert_entry(&mut map, a.clone(), v.duplicate());
                            crate::paths::restore_container(&mut self.globals, Ghost(g0), i, k, map);
                            Ok(v)
                        },
                        None => Err(PslError::RuntimeError(concat2("Character not found: ", character.as_str()))),
                    }
                },
                _ => self.eval(expr),
            },
            Expr::Define { target, body } => match &**target {
                Expr::Container(cn) => {
                    let ghost g0 = self.globals@;
                    match crate::paths::take_container(&mut self.globals, character.as_str()) {
                        Some((i, k, map)) => {
                            let mut map = map;
                            insert_entry(&mut map, cn.clone(), Value::Container(Vec::new()));
                            proof {
                                assert(entries_model(Seq::<(String, Value)>::empty()) =~= Seq::empty());
                            }
                            crate::paths::restore_container(&mut self.globals, Ghost(g0), i, k, map);
                        },
                        None => {},
                    }
                    match self.container_body(character, cn, body) {
                        Ok(_) => Ok(Value::Container(Vec::new())),
                        Err(e) => Err(e),
                    }
                },
                _ => self.eval(expr),
            },
            _ => self.eval(expr),
        }
    }

    /// Evaluates the body of a container's definition inside a character.
    fn container_body(&mut self, character: &String, container: &String, expr: &Expr) -> (r: Result<
        Value,
        PslError,
    >)
        requires
            old(self).wf(),
        ensures
            final(self).numbers() == old(self).numbers(),
            final(self).wf(),
            (final(self)@, val_res(r)) == container_body(
                old(self)@,
                character@,
                container@,
                expr@,
                old(self).numbers(),
            ),
        decreases expr, 3nat,
    {
        proof {
            reveal_with_fuel(Expr::model, 3);
        }
        match expr {
            Expr::SequenceExpr(exprs) => self.container_body_list(character, container, exprs),
            Expr::SetValue { target, value } => match &**target {
                Expr::Attribute(a) => {
                    let v = match self.eval(value) {
                        Ok(v) => v,
                        Err(e) => {
                            return Err(e);
                        },
                    };
                    let ghost g0 = self.globals@;
                    match crate::paths::take_container(&mut self.globals, character.as_str()) {
                        Some((i, k, char_map)) => {
                            let mut char_map = char_map;
                            let ghost cm0 = char_map@;
                            let r = match crate::paths::take_container(
                                &mut char_map,
                                container.as_str(),
                            ) {
                                Some((j, k2, inner)) => {
                                    let mut inner = inner;
                                    insert_entry(&mut inner, a.clone(), v.duplicate());
                                    crate::paths::restore_container(
                                        &mut char_map,
                                        Ghost(cm0),
                                        j,
                                        k2,
                                        inner,
                                    );
                                    Ok(v)
                                },
                                None => {
                                    let mut m = concat3(
                                        "Container ",
                                        container.as_str(),
                                        " not found in character ",
                                    );
                                    push_str(&mut m, character.as_str());
                                    Err(PslError::RuntimeError(m))
                                },
                            };
                            crate::paths::restore_container(
                                &mut self.globals,
                                Ghost(g0),
                                i,
                                k,
                                char_map,
                            );
                            proof {
                                if r is Err {
                                    crate::paths::lemma_put_same(
                                        entries_model(g0),
                                        character@,
                                        entries_model(cm0),
                                    );
                                }
                            }
                            r
                        },
                        None => Err(runtime_error("Character ", character.as_str(), " not found")),
                    }
                },
                _ => self.eval(expr),
            },
            _ => self.eval(expr),
        }
    }

    fn eval_set(&mut self, expr: &Expr) -> (r: Result<Value, PslError>)
        requires
            old(self).wf(),
            expr@ is SetValue,
        ensures
            final(self).numbers() == old(self).numbers(),
            final(self).wf(),
            (final(self)@, val_res(r)) == eval_expr(old(self)@, expr@, old(self).numbers()),
        decreases expr, 1nat,
    {
        proof {
            reveal_with_fuel(Expr::model, 3);
        }
        match expr {
            Expr::SetValue { target, value } => {
                let v = match self.eval(value) {
                    Ok(v) => v,
                    Err(e) => {
                        return Err(e);
                    },
                };
                match &**target {
                    Expr::From { base, path } => {
                        match set_via_path_exec(&mut self.globals, base, path, v.duplicate()) {
                            Ok(()) => Ok(v),
                            Err(e) => Err(e),
                        }
                    },
                    _ => Ok(v),
                }
            },
            _ => {
                proof {
                    assert(false);
                }
                Err(PslError::RuntimeError(String::new()))
            },
        }
    }

    fn eval_add(&mut self, expr: &Expr) -> (r: Result<Value, PslError>)
        requires
            old(self).wf(),
            expr@ is Add,
        ensures
            final(self).numbers() == old(self).numbers(),
            final(self).wf(),
            (final(self)@, val_res(r)) == eval_expr(old(self)@, expr@, old(self).numbers()),
        decreases expr, 1nat,
    {
        proof {
            reveal_with_fuel(Expr::model, 3);
        }
        match expr {
            Expr::Add { target, value } => {
                let v = match self.eval(value) {
                    Ok(v) => v,
                    Err(e) => {
                        return Err(e);
                    },
                };
                match &**target {
                    Expr::From { base, path } => {
                        proof {
                            assert(decreases_to!(expr => **base)) by {
                                assert(decreases_to!(expr => **target));
                            }
                        }
                        let existing = self.get_via_path(base, path);
                        let sum = match existing {
                            Ok(ex) => match (ex, &v) {
                                (Value::Number(n), Value::Number(m)) => {
                                    let a = self.ask(NumQuery::Arith(ArithOp::Add, n, *m));
                                    Value::Number(a.value)
                                },
                                (Value::Item, Value::Item) => Value::Item,
                                _ => {
                                    return Err(
                                        PslError::TypeError(
                                            String::from_str("Cannot add values of different types"),
                                        ),
                                    );
                                },
                            },
                            Err(_) => v,
                        };
                        match set_via_path_exec(&mut self.globals, base, path, sum.duplicate()) {
                            Ok(()) => Ok(sum),
                            Err(e) => Err(e),
                        }
                    },
                    _ => Ok(v),
                }
            },
            _ => {
                proof {
                    assert(false);
                }
                Err(PslError::RuntimeError(String::new()))
            },
        }
    }

    fn eval_remove(&mut self, target: &Expr) -> (r: Result<Value, PslError>)
        requires
            old(self).wf(),
        ensures
            final(self).numbers() == old(self).numbers(),
            final(self).wf(),
            (final(self)@, val_res(r)) == eval_expr(
                old(self)@,
                ExprV::Remove { target: Box::new(target@) },
                old(self).numbers(),
            ),
    {
        proof {
            reveal_with_fuel(Expr::model, 2);
        }
        match target {
            Expr::From { base, path } => remove_via_path_exec(&mut self.globals, base, path),
            _ => Ok(Value::Null),
        }
    }

    /// Evaluates `base`, then follows `path` from its value.
    fn get_via_path(&mut self, base: &Expr, path: &Expr) -> (r: Result<Value, PslError>)
        requires
            old(self).wf(),
        ensures
            final(self).numbers() == old(self).numbers(),
            final(self).wf(),
            (final(self)@, val_res(r)) == ({
                let (st1, rb) = eval_expr(old(self)@, base@, old(self).numbers());
                match rb {
                    Ok(bv) => (st1, follow_path(bv, path@)),
                    Err(err) => (st1, Err(err)),
                }
            }),
        decreases base, 3nat,
    {
        let base_val = match self.eval(base) {
            Ok(v) => v,
            Err(e) => {
                return Err(e);
            },
        };
        follow_path_exec(&base_val, path)
    }

    fn eval_if_expr(&mut self, expr: &Expr) -> (r: Result<Value, PslError>)
        requires
            old(self).wf(),
            expr@ is If,
        ensures
            final(self).numbers() == old(self).numbers(),
            final(self).wf(),
            (final(self)@, val_res(r)) == eval_expr(old(self)@, expr@, old(self).numbers()),
        decreases expr, 1nat,
    {
        proof {
            reveal_with_fuel(Expr::model, 2);
        }
        match expr {
            Expr::If { condition, body } => {
                let c = match self.eval(condition) {
                    Ok(v) => v,
                    Err(e) => {
                        return Err(e);
                    },
                };
                if condition_holds_exec(&c) {
                    self.eval(body)
                } else {
                    Ok(Value::Null)
                }
            },
            _ => {
                proof {
                    assert(false);
                }
                Err(PslError::RuntimeError(String::new()))
            },
        }
    }

    fn eval_comparison(&mut self, expr: &Expr) -> (r: Result<Value, PslError>)
        requires
            old(self).wf(),
            expr@ is Comparison,
        ensures
            final(self).numbers() == old(self).numbers(),
            final(self).wf(),
            (final(self)@, val_res(r)) == eval_expr(old(self)@, expr@, old(self).numbers()),
        decreases expr, 1nat,
    {
        proof {
            reveal_with_fuel(Expr::model, 2);
        }
        match expr {
            Expr::ComparisonOp { op, left, right } => {
                let lv = match self.eval(left) {
                    Ok(v) => v,
                    Err(e) => {
                        return Err(e);
                    },
                };
                let rv = match self.eval(right) {
                    Ok(v) => v,
                    Err(e) => {
                        return Err(e);
                    },
                };
                match (lv, rv) {
                    (Value::Number(a), Value::Number(b)) => match compare_op_exec(op.as_str()) {
                        Some(c) => {
                            let ans = self.ask(NumQuery::Compare(c, a, b));
                            Ok(Value::Flag(ans.holds))
                        },
                        None => Err(PslError::RuntimeError(concat2("Unknown operator: ", op.as_str()))),
                    },
                    _ => Err(
                        PslError::TypeError(String::from_str("Comparison requires numeric values")),
                    ),
                }
            },
            _ => {
                proof {
                    assert(false);
                }
                Err(PslError::RuntimeError(String::new()))
            },
        }
    }

    fn eval_arithmetic(&mut self, expr: &Expr) -> (r: Result<Value, PslError>)
        requires
            old(self).wf(),
            expr@ is Arithmetic,
        ensures
            final(self).numbers() == old(self).numbers(),
            final(self).wf(),
            (final(self)@, val_res(r)) == eval_expr(old(self)@, expr@, old(self).numbers()),
        decreases expr, 1nat,
    {
        proof {
            reveal_with_fuel(Expr::model, 2);
        }
        match expr {
            Expr::ArithmeticOp { op, left, right } => {
                let lv = match self.eval(left) {
                    Ok(v) => v,
                    Err(e) => {
                        return Err(e);
                    },
                };
                let rv = match self.eval(right) {
                    Ok(v) => v,
                    Err(e) => {
                        return Err(e);
                    },
                };
                match (lv, rv) {
                    (Value::Number(a), Value::Number(b)) => match arith_op_exec(op.as_str()) {
                        Some(k) => {
                            if k == ArithOp::Div && number_is_zero(b) {
                                Err(PslError::RuntimeError(String::from_str("Division by zero")))
                            } else {
                                let ans = self.ask(NumQuery::Arith(k, a, b));
                                Ok(Value::Number(ans.value))
                            }
                        },
                        None => Err(PslError::RuntimeError(concat2("Unknown operator: ", op.as_str()))),
                    },
                    _ => Err(
                        PslError::TypeError(String::from_str("Arithmetic requires numeric values")),
                    ),
                }
            },
            _ => {
                proof {
                    assert(false);
                }
                Err(PslError::RuntimeError(String::new()))
            },
        }
    }

    fn eval_keyword(&mut self, name: &String, params: &Vec<(String, Expr)>) -> (r: Result<
        Value,
        PslError,
    >)
        requires
            old(self).wf(),
        ensures
            final(self).numbers() == old(self).numbers(),
            final(self).wf(),
            (final(self)@, val_res(r)) == eval_expr(
                old(self)@,
                ExprV::Keyword { name: name@, params: params_model(params@) },
                old(self).numbers(),
            ),
        decreases params, 1nat,
    {
        let n = name.as_str();
        if str_eq(n, "exists") {
            self.eval_exists(params)
        } else if str_eq(n, "if") {
            self.eval_if(params)
        } else if str_eq(n, "display") {
            self.eval_display(params)
        } else if str_eq(n, "option") {
            self.eval_option(params)
        } else if str_eq(n, "as") {
            self.eval_as(params)
        } else if str_eq(n, "goto") {
            self.eval_goto(params)
        } else if str_eq(n, "chapter") {
            self.eval_chapter(params)
        } else {
            Err(PslError::RuntimeError(concat2("Unknown keyword: ", n)))
        }
    }

    fn eval_exists(&mut self, params: &Vec<(String, Expr)>) -> (r: Result<Value, PslError>)
        requires
            old(self).wf(),
        ensures
            final(self).numbers() == old(self).numbers(),
            final(self).wf(),
            (final(self)@, val_res(r)) == eval_exists(
                old(self)@,
                params_model(params@),
                old(self).numbers(),
            ),
        decreases params, 0nat,
    {
        let ghost ps = params_model(params@);
        proof {
            lemma_params_model(params@);
        }
        let mut i: usize = 0;
        proof {
            assert(ps.skip(0) =~= ps);
        }
        while i < params.len()
            invariant
                i <= params.len(),
                ps == params_model(params@),
                ps.len() == params@.len(),
                forall|j: int|
                    0 <= j < params@.len() ==> #[trigger] ps[j] == (params@[j].0@, params@[j].1@),
                self.numbers() == old(self).numbers(),
                self.wf(),
                eval_exists(old(self)@, ps, old(self).numbers()) == eval_exists(
                    self@,
                    ps.skip(i as int),
                    old(self).numbers(),
                ),
            decreases params.len() - i,
        {
            proof {
                lemma_skip_step(ps, i as int);
                assert(decreases_to!(params => params@[i as int].1)) by {
                    assert(decreases_to!(params => params@));
                    assert(decreases_to!(params@ => params@[i as int]));
                }
            }
            if str_eq(params[i].0.as_str(), "body") {
                return match self.eval(&params[i].1) {
                    Ok(Value::Null) => Ok(Value::Flag(false)),
                    Ok(_) => Ok(Value::Flag(true)),
                    Err(PslError::NameError(_)) => Ok(Value::Flag(false)),
                    Err(PslError::RuntimeError(_)) => Ok(Value::Flag(false)),
                    Err(e) => Err(e),
                };
            }
            i = i + 1;
        }
        proof {
            assert(ps.skip(i as int) =~= Seq::<(Seq<char>, ExprV)>::empty());
        }
        Ok(Value::Flag(false))
    }

    fn eval_if(&mut self, params: &Vec<(String, Expr)>) -> (r: Result<Value, PslError>)
        requires
            old(self).wf(),
        ensures
            final(self).numbers() == old(self).numbers(),
            final(self).wf(),
            (final(self)@, val_res(r)) == eval_if_keyword(
                old(self)@,
                params_model(params@),
                old(self).numbers(),
            ),
        decreases params, 0nat,
    {
        let ghost ps = params_model(params@);
        proof {
            lemma_params_model(params@);
        }
        let mut i: usize = 0;
        proof {
            assert(ps.skip(0) =~= ps);
        }
        while i < params.len()
            invariant
                i <= params.len(),
                ps == params_model(params@),
                ps.len() == params@.len(),
                forall|j: int|
                    0 <= j < params@.len() ==> #[trigger] ps[j] == (params@[j].0@, params@[j].1@),
                self.numbers() == old(self).numbers(),
                self.wf(),
                eval_if_keyword(old(self)@, ps, old(self).numbers()) == eval_if_keyword(
                    self@,
                    ps.skip(i as int),
                    old(self).numbers(),
                ),
            decreases params.len() - i,
        {
            proof {
                lemma_skip_step(ps, i as int);
                assert(decreases_to!(params => params@[i as int].1)) by {
                    assert(decreases_to!(params => params@));
                    assert(decreases_to!(params@ => params@[i as int]));
                }
            }
            if str_eq(params[i].0.as_str(), "body") {
                return match self.eval(&params[i].1) {
                    Ok(c) => Ok(Value::Flag(condition_holds_exec(&c))),
                    Err(e) => Err(e),
                };
            }
            i = i + 1;
        }
        proof {
            assert(ps.skip(i as int) =~= Seq::<(Seq<char>, ExprV)>::empty());
        }
        Ok(Value::Flag(false))
    }

    fn eval_display(&mut self, params: &Vec<(String, Expr)>) -> (r: Result<Value, PslError>)
        requires
            old(self).wf(),
        ensures
            final(self).numbers() == old(self).numbers(),
            final(self).wf(),
            (final(self)@, val_res(r)) == eval_display(
                old(self)@,
                params_model(params@),
                old(self).numbers(),
            ),
        decreases params, 0nat,
    {
        let ghost ps = params_model(params@);
        proof {
            lemma_params_model(params@);
        }
        let mut i: usize = 0;
        proof {
            assert(ps.skip(0) =~= ps);
        }
        while i < params.len()
            invariant
                i <= params.len(),
                ps == params_model(params@),
                ps.len() == params@.len(),
                forall|j: int|
                    0 <= j < params@.len() ==> #[trigger] ps[j] == (params@[j].0@, params@[j].1@),
                self.numbers() == old(self).numbers(),
                self.wf(),
                eval_display(old(self)@, ps, old(self).numbers()) == eval_display(
                    self@,
                    ps.skip(i as int),
                    old(self).numbers(),
                ),
            decreases params.len() - i,
        {
            proof {
                lemma_skip_step(ps, i as int);
                assert(decreases_to!(params => params@[i as int].1)) by {
                    assert(decreases_to!(params => params@));
                    assert(decreases_to!(params@ => params@[i as int]));
                }
            }
            let k = params[i].0.as_str();
            if str_eq(k, "id") {
                match self.eval(&params[i].1) {
                    Ok(v) => {
                        match v {
                            Value::Text(t) => {
                                self.push_line(concat2("[DISPLAY] ", t.as_str()));
                            },
                            _ => {},
                        }
                    },
                    Err(e) => {
                        return Err(e);
                    },
                }
            } else if str_eq(k, "body") {
                match self.eval(&params[i].1) {
                    Ok(_) => {},
                    Err(e) => {
                        return Err(e);
                    },
                }
            }
            i = i + 1;
        }
        proof {
            assert(ps.skip(i as int) =~= Seq::<(Seq<char>, ExprV)>::empty());
        }
        Ok(Value::Null)
    }

    fn eval_option(&mut self, params: &Vec<(String, Expr)>) -> (r: Result<Value, PslError>)
        requires
            old(self).wf(),
        ensures
            final(self).numbers() == old(self).numbers(),
            final(self).wf(),
            (final(self)@, val_res(r)) == eval_option(
                old(self)@,
                params_model(params@),
                Seq::empty(),
                Seq::empty(),
                old(self).numbers(),
            ),
        decreases params, 0nat,
    {
        let ghost ps = params_model(params@);
        proof {
            lemma_params_model(params@);
            reveal_with_fuel(Expr::model, 2);
        }
        let mut option_text = String::new();
        let mut goto_target = String::new();
        let mut i: usize = 0;
        proof {
            assert(ps.skip(0) =~= ps);
        }
        while i < params.len()
            invariant
                i <= params.len(),
                ps == params_model(params@),
                ps.len() == params@.len(),
                forall|j: int|
                    0 <= j < params@.len() ==> #[trigger] ps[j] == (params@[j].0@, params@[j].1@),
                self.numbers() == old(self).numbers(),
                self.wf(),
                eval_option(old(self)@, ps, Seq::empty(), Seq::empty(), old(self).numbers())
                    == eval_option(
                    self@,
                    ps.skip(i as int),
                    option_text@,
                    goto_target@,
                    old(self).numbers(),
                ),
            decreases params.len() - i,
        {
            proof {
                lemma_skip_step(ps, i as int);
                assert(decreases_to!(params => params@[i as int].1)) by {
                    assert(decreases_to!(params => params@));
                    assert(decreases_to!(params@ => params@[i as int]));
                }
            }
            let k = params[i].0.as_str();
            if str_eq(k, "id") {
                match self.eval(&params[i].1) {
                    Ok(v) => {
                        match v {
                            Value::Text(t) => {
                                option_text = t;
                            },
                            _ => {},
                        }
                    },
                    Err(e) => {
                        return Err(e);
                    },
                }
            } else if str_eq(k, "body") {
                match &params[i].1 {
                    Expr::Keyword { name, params: goto_params } => {
                        if str_eq(name.as_str(), "goto") {
                            let g = goto_target_exec(goto_params);
                            goto_target = goto_text_exec(&g);
                        }
                    },
                    other => {
                        match self.eval(other) {
                            Ok(_) => {},
                            Err(e) => {
                                return Err(e);
                            },
                        }
                    },
                }
            }
            i = i + 1;
        }
        proof {
            assert(ps.skip(i as int) =~= Seq::<(Seq<char>, ExprV)>::empty());
        }
        if !option_text.as_str().is_empty() {
            let ghost before = self.pending_options@;
            let ghost item = (option_text, goto_target);
            self.pending_options.push((option_text, goto_target));
            proof {
                lemma_options_push(before, item);
            }
        }
        Ok(Value::Null)
    }

    fn eval_as(&mut self, params: &Vec<(String, Expr)>) -> (r: Result<Value, PslError>)
        requires
            old(self).wf(),
        ensures
            final(self).numbers() == old(self).numbers(),
            final(self).wf(),
            (final(self)@, val_res(r)) == eval_as(
                old(self)@,
                params_model(params@),
                Seq::empty(),
                Seq::empty(),
                old(self).numbers(),
            ),
        decreases params, 0nat,
    {
        let ghost ps = params_model(params@);
        proof {
            lemma_params_model(params@);
        }
        let mut label = String::new();
        let mut text_content = String::new();
        let mut i: usize = 0;
        proof {
            assert(ps.skip(0) =~= ps);
        }
        while i < params.len()
            invariant
                i <= params.len(),
                ps == params_model(params@),
                ps.len() == params@.len(),
                forall|j: int|
                    0 <= j < params@.len() ==> #[trigger] ps[j] == (params@[j].0@, params@[j].1@),
                self.numbers() == old(self).numbers(),
                self.wf(),
                eval_as(old(self)@, ps, Seq::empty(), Seq::empty(), old(self).numbers()) == eval_as(
                    self@,
                    ps.skip(i as int),
                    label@,
                    text_content@,
                    old(self).numbers(),
                ),
            decreases params.len() - i,
        {
            proof {
                lemma_skip_step(ps, i as int);
                assert(decreases_to!(params => params@[i as int].1)) by {
                    assert(decreases_to!(params => params@));
                    assert(decreases_to!(params@ => params@[i as int]));
                }
            }
            let k = params[i].0.as_str();
            if str_eq(k, "id") {
                match &params[i].1 {
                    Expr::Item => {},
                    e => {
                        proof {
                            assert(e@ != ExprV::Item);
                        }
                        match self.eval(e) {
                            Ok(v) => {
                                match v {
                                    Value::Text(l) => {
                                        label = l;
                                    },
                                    Value::Container(_) => {
                                        label = String::from_str("Container");
                                    },
                                    _ => {},
                                }
                            },
                            Err(err) => {
                                return Err(err);
                            },
                        }
                    },
                }
            } else if str_eq(k, "body") {
                match self.eval(&params[i].1) {
                    Ok(v) => {
                        match v {
                            Value::Text(t) => {
                                text_content = t;
                            },
                            _ => {},
                        }
                    },
                    Err(e) => {
                        return Err(e);
                    },
                }
            }
            i = i + 1;
        }
        proof {
            assert(ps.skip(i as int) =~= Seq::<(Seq<char>, ExprV)>::empty());
        }
        let line = if !label.as_str().is_empty() {
            let mut l = concat3("[AS: ", label.as_str(), "] ");
            push_str(&mut l, text_content.as_str());
            l
        } else {
            concat2("[TEXT] ", text_content.as_str())
        };
        self.push_line(line);
        Ok(Value::Null)
    }

    fn eval_goto(&mut self, params: &Vec<(String, Expr)>) -> (r: Result<Value, PslError>)
        requires
            old(self).wf(),
        ensures
            final(self).numbers() == old(self).numbers(),
            final(self).wf(),
            (final(self)@, val_res(r)) == eval_expr(
                old(self)@,
                ExprV::Keyword { name: "goto"@, params: params_model(params@) },
                old(self).numbers(),
            ),
    {
        proof {
            reveal_strlit("goto");
            reveal_strlit("exists");
            reveal_strlit("if");
            reveal_strlit("display");
            reveal_strlit("option");
            reveal_strlit("as");
        }
        let target = goto_target_exec(params);
        let text = goto_text_exec(&target);
        match &target {
            Goto::Chapter(n) => {
                self.current_chapter = Some(n.clone());
                self.current_section = None;
            },
            Goto::Section(n) => {
                self.current_section = Some(n.clone());
            },
            Goto::Unknown => {},
        }
        self.push_line(concat2("[GOTO] ", text.as_str()));
        Ok(Value::Text(text))
    }

    fn eval_chapter(&mut self, params: &Vec<(String, Expr)>) -> (r: Result<Value, PslError>)
        requires
            old(self).wf(),
        ensures
            final(self).numbers() == old(self).numbers(),
            final(self).wf(),
            (final(self)@, val_res(r)) == eval_chapter(
                old(self)@,
                params_model(params@),
                Seq::empty(),
                Seq::empty(),
                old(self).numbers(),
            ),
        decreases params, 0nat,
    {
        let ghost ps = params_model(params@);
        proof {
            lemma_params_model(params@);
            reveal_with_fuel(Expr::model, 2);
        }
        let mut chapter_name = String::new();
        let mut display_text = String::new();
        let mut i: usize = 0;
        proof {
            assert(ps.skip(0) =~= ps);
        }
        while i < params.len()
            invariant
                i <= params.len(),
                ps == params_model(params@),
                ps.len() == params@.len(),
                forall|j: int|
                    0 <= j < params@.len() ==> #[trigger] ps[j] == (params@[j].0@, params@[j].1@),
                self.numbers() == old(self).numbers(),
                self.wf(),
                eval_chapter(old(self)@, ps, Seq::empty(), Seq::empty(), old(self).numbers())
                    == eval_chapter(
                    self@,
                    ps.skip(i as int),
                    chapter_name@,
                    display_text@,
                    old(self).numbers(),
                ),
            decreases params.len() - i,
        {
            proof {
                lemma_skip_step(ps, i as int);
                assert(decreases_to!(params => params@[i as int].1)) by {
                    assert(decreases_to!(params => params@));
                    assert(decreases_to!(params@ => params@[i as int]));
                }
            }
            let k = params[i].0.as_str();
            if str_eq(k, "id") {
                match &params[i].1 {
                    Expr::Chapter(name) => {
                        chapter_name = name.clone();
                        self.current_chapter = Some(name.clone());
                    },
                    _ => {},
                }
            } else if str_eq(k, "body") {
                match self.eval(&params[i].1) {
                    Ok(v) => {
                        match v {
                            Value::Text(t) => {
                                display_text = t;
                            },
                            _ => {},
                        }
                    },
                    Err(e) => {
                        return Err(e);
                    },
                }
            }
            i = i + 1;
        }
        proof {
            assert(ps.skip(i as int) =~= Seq::<(Seq<char>, ExprV)>::empty());
        }
        if !display_text.as_str().is_empty() {
            let mut l = concat3("[CHAPTER: ", chapter_name.as_str(), "] ");
            push_str(&mut l, display_text.as_str());
            self.push_line(l);
        }
        Ok(Value::Null)
    }
}

/// Whether a value holds as a condition.
pub fn condition_holds_exec(v: &Value) -> (r: bool)
    ensures
        r == condition_holds(v.model()),
{
    match v {
        Value::Flag(b) => *b,
        Value::Number(n) => !number_is_zero(*n),
        Value::Text(s) => !s.as_str().is_empty(),
        Value::Item => true,
        Value::Container(_) => true,
        Value::Null => false,
    }
}

/// The value at `path` inside `cur`.
pub fn follow_path_exec(cur: &Value, path: &Expr) -> (r: Result<Value, PslError>)
    ensures
        val_res(r) == follow_path(cur.model(), path@),
    decreases path,
{
    match path {
        Expr::Attribute(name) => match cur {
            Value::Container(m) => match get_entry(m, name.as_str()) {
                Some(v) => Ok(v.duplicate()),
                None => Err(runtime_error("Attribute ", name.as_str(), " not found")),
            },
            _ => Err(
                PslError::TypeError(
                    String::from_str("Cannot access attribute on non-container value"),
                ),
            ),
        },
        Expr::Container(name) => match cur {
            Value::Container(m) => match get_entry(m, name.as_str()) {
                Some(v) => Ok(v.duplicate()),
                None => Err(runtime_error("Container ", name.as_str(), " not found")),
            },
            _ => Err(
                PslError::TypeError(
                    String::from_str("Cannot access container on non-container value"),
                ),
            ),
        },
        Expr::From { base, path: next } => {
            let inter = match follow_path_exec(cur, base) {
                Ok(v) => v,
                Err(e) => {
                    return Err(e);
                },
            };
            follow_path_exec(&inter, next)
        },
        _ => Err(PslError::RuntimeError(String::from_str("Invalid path expression"))),
    }
}

/// How `Debug` writes an expression.
fn expr_debug_exec<F: Fn(NumQuery) -> NumAnswer>(rt: &Runtime<F>, e: &Expr) -> (r: String)
    requires
        rt.wf(),
    ensures
        r@ == expr_debug(e@, rt.numbers()),
    decreases e,
{
    proof {
        reveal_with_fuel(Expr::model, 2);
    }
    let mut s = String::new();
    match e {
        Expr::Text(x) => {
            push_str(&mut s, "Text(");
            push_str(&mut s, str_debug(x.as_str()).as_str());
            push_str(&mut s, ")");
        },
        Expr::Number(x) => {
            let a = rt.ask(NumQuery::Literal(x.clone()));
            let d = rt.ask(NumQuery::Debug(a.value));
            push_str(&mut s, "Number(");
            push_str(&mut s, d.text.as_str());
            push_str(&mut s, ")");
        },
        Expr::Flag(b) => {
            if *b {
                push_str(&mut s, "Flag(true)");
            } else {
                push_str(&mut s, "Flag(false)");
            }
        },
        Expr::Item => {
            push_str(&mut s, "Item");
        },
        Expr::Define { target, body } => {
            push_str(&mut s, "Define { target: ");
            push_str(&mut s, expr_debug_exec(rt, target).as_str());
            push_str(&mut s, ", body: ");
            push_str(&mut s, expr_debug_exec(rt, body).as_str());
            push_str(&mut s, " }");
        },
        Expr::SetValue { target, value } => {
            push_str(&mut s, "Set { target: ");
            push_str(&mut s, expr_debug_exec(rt, target).as_str());
            push_str(&mut s, ", value: ");
            push_str(&mut s, expr_debug_exec(rt, value).as_str());
            push_str(&mut s, " }");
        },
        Expr::Add { target, value } => {
            push_str(&mut s, "Add { target: ");
            push_str(&mut s, expr_debug_exec(rt, target).as_str());
            push_str(&mut s, ", value: ");
            push_str(&mut s, expr_debug_exec(rt, value).as_str());
            push_str(&mut s, " }");
        },
        Expr::Remove { target } => {
            push_str(&mut s, "Remove { target: ");
            push_str(&mut s, expr_debug_exec(rt, target).as_str());
            push_str(&mut s, " }");
        },
        Expr::From { base, path } => {
            push_str(&mut s, "From { base: ");
            push_str(&mut s, expr_debug_exec(rt, base).as_str());
            push_str(&mut s, ", path: ");
            push_str(&mut s, expr_debug_exec(rt, path).as_str());
            push_str(&mut s, " }");
        },
        Expr::Attribute(x) => {
            push_str(&mut s, "Attribute(");
            push_str(&mut s, str_debug(x.as_str()).as_str());
            push_str(&mut s, ")");
        },
        Expr::Character(x) => {
            push_str(&mut s, "Character(");
            push_str(&mut s, str_debug(x.as_str()).as_str());
            push_str(&mut s, ")");
        },
        Expr::Container(x) => {
            push_str(&mut s, "Container(");
            push_str(&mut s, str_debug(x.as_str()).as_str());
            push_str(&mut s, ")");
        },
        Expr::Chapter(x) => {
            push_str(&mut s, "Chapter(");
            push_str(&mut s, str_debug(x.as_str()).as_str());
            push_str(&mut s, ")");
        },
        Expr::Section(x) => {
            push_str(&mut s, "Section(");
            push_str(&mut s, str_debug(x.as_str()).as_str());
            push_str(&mut s, ")");
        },
        Expr::If { condition, body } => {
            push_str(&mut s, "If { condition: ");
            push_str(&mut s, expr_debug_exec(rt, condition).as_str());
            push_str(&mut s, ", body: ");
            push_str(&mut s, expr_debug_exec(rt, body).as_str());
            push_str(&mut s, " }");
        },
        Expr::Keyword { name, params } => {
            push_str(&mut s, "Keyword { name: ");
            push_str(&mut s, str_debug(name.as_str()).as_str());
            push_str(&mut s, ", params: [");
            push_str(&mut s, params_debug_exec(rt, params).as_str());
            push_str(&mut s, "] }");
        },
        Expr::SequenceExpr(es) => {
            push_str(&mut s, "SequenceExpr([");
            push_str(&mut s, exprs_debug_exec(rt, es).as_str());
            push_str(&mut s, "])");
        },
        Expr::ComparisonOp { op, left, right } => {
            push_str(&mut s, "ComparisonOp { op: ");
            push_str(&mut s, str_debug(op.as_str()).as_str());
            push_str(&mut s, ", left: ");
            push_str(&mut s, expr_debug_exec(rt, left).as_str());
            push_str(&mut s, ", right: ");
            push_str(&mut s, expr_debug_exec(rt, right).as_str());
            push_str(&mut s, " }");
        },
        Expr::ArithmeticOp { op, left, right } => {
            push_str(&mut s, "ArithmeticOp { op: ");
            push_str(&mut s, str_debug(op.as_str()).as_str());
            push_str(&mut s, ", left: ");
            push_str(&mut s, expr_debug_exec(rt, left).as_str());
            push_str(&mut s, ", right: ");
            push_str(&mut s, expr_debug_exec(rt, right).as_str());
            push_str(&mut s, " }");
        },
    }
    proof {
        assert(s@ =~= expr_debug(e@, rt.numbers()));
    }
    s
}

fn params_debug_exec<F: Fn(NumQuery) -> NumAnswer>(rt: &Runtime<F>, params: &Vec<(String, Expr)>) -> (r:
    String)
    requires
        rt.wf(),
    ensures
        r@ == params_debug(params_model(params@), rt.numbers()),
    decreases params,
{
    let ghost ps = params_model(params@);
    proof {
        lemma_params_model(params@);
    }
    // built from the back: the text of ps.skip(i) for i going down
    let mut s = String::new();
    let mut i: usize = params.len();
    proof {
        assert(ps.skip(0) =~= ps);
    }
    while i > 0
        invariant
            i <= params.len(),
            ps == params_model(params@),
            ps.len() == params@.len(),
            forall|j: int| 0 <= j < params@.len() ==> #[trigger] ps[j] == (params@[j].0@, params@[j].1@),
            rt.wf(),
            s@ == params_debug(ps.skip(i as int), rt.numbers()),
        decreases i,
    {
        let j = i - 1;
        proof {
            lemma_skip_step(ps, j as int);
            assert(decreases_to!(params => params@[j as int].1)) by {
                assert(decreases_to!(params => params@));
                assert(decreases_to!(params@ => params@[j as int]));
            }
        }
        let mut item = String::from_str("(");
        push_str(&mut item, str_debug(params[j].0.as_str()).as_str());
        push_str(&mut item, ", ");
        push_str(&mut item, expr_debug_exec(rt, &params[j].1).as_str());
        push_str(&mut item, ")");
        if i < params.len() {
            push_str(&mut item, ", ");
        }
        push_str(&mut item, s.as_str());
        proof {
            if i < params@.len() {
                assert(item@ =~= params_debug(ps.skip(j as int), rt.numbers()));
            } else {
                assert(ps.skip(i as int) =~= Seq::<(Seq<char>, ExprV)>::empty());
                assert(ps.skip(j as int).len() == 1);
                assert(item@ =~= params_debug(ps.skip(j as int), rt.numbers()));
            }
        }
        s = item;
        i = j;
    }
    proof {
        assert(ps.skip(0) =~= ps);
    }
    s
}

fn exprs_debug_exec<F: Fn(NumQuery) -> NumAnswer>(rt: &Runtime<F>, es: &Vec<Expr>) -> (r: String)
    requires
        rt.wf(),
    ensures
        r@ == exprs_debug(exprs_model(es@), rt.numbers()),
    decreases es,
{
    let ghost xs = exprs_model(es@);
    proof {
        crate::parser::lemma_exprs_model_len(es@);
    }
    let mut s = String::new();
    let mut i: usize = es.len();
    proof {
        assert(xs.skip(0) =~= xs);
    }
    while i > 0
        invariant
            i <= es.len(),
            xs == exprs_model(es@),
            xs.len() == es@.len(),
            forall|j: int| 0 <= j < es@.len() ==> #[trigger] xs[j] == es@[j]@,
            rt.wf(),
            s@ == exprs_debug(xs.skip(i as int), rt.numbers()),
        decreases i,
    {
        let j = i - 1;
        proof {
            lemma_skip_step(xs, j as int);
            assert(decreases_to!(es => es@[j as int])) by {
                assert(decreases_to!(es => es@));
            }
        }
        let mut item = expr_debug_exec(rt, &es[j]);
        if i < es.len() {
            push_str(&mut item, ", ");
        }
        push_str(&mut item, s.as_str());
        proof {
            if i < es@.len() {
                assert(item@ =~= exprs_debug(xs.skip(j as int), rt.numbers()));
            } else {
                assert(xs.skip(i as int) =~= Seq::<ExprV>::empty());
                assert(xs.skip(j as int).len() == 1);
                assert(item@ =~= exprs_debug(xs.skip(j as int), rt.numbers()));
            }
        }
        s = item;
        i = j;
    }
    proof {
        assert(xs.skip(0) =~= xs);
    }
    s
}

} // verus!
