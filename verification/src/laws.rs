//! What holds of the story runtime across its operations: what a read gives
//! back of a write, what a removal leaves, and what every step keeps.
use vstd::prelude::*;
use crate::error::ErrorV;
use crate::parser::ExprV;
use crate::semantics::{
    container_body, container_body_seq, container_in, define_body, define_body_seq,
    empty_container, eval_as, eval_chapter, eval_display, eval_exists, eval_expr, eval_if_keyword,
    eval_option, eval_seq, follow_path, goto_target, goto_text, lemma_drop_first_decreases,
    put_container, remove_from_container, remove_from_nested_container, remove_via_path,
    set_in_container, set_in_nested_container, set_via_path, with_globals, with_line, ArithOp,
    CompareOp, NumOracle, NumQueryV, RuntimeV, Step, run_program, compare_op_of, arith_op_of,
};
use crate::value::{
    find_from, find_key, get_key, insert_key, keys_distinct, lemma_find_from, remove_key, ValueV,
};

verus! {

// ---------------------------------------------------------------------------
// Named entries
// ---------------------------------------------------------------------------

/// `find_from` answers the first position named `k` from `start` on.
proof fn lemma_find_first(s: Seq<(Seq<char>, ValueV)>, k: Seq<char>, i: nat, start: nat)
    requires
        start <= i < s.len(),
        s[i as int].0 == k,
        forall|m: int| start <= m < i ==> s[m].0 != k,
    ensures
        find_from(s, k, start) == Some(i),
    decreases i - start,
{
    if start < i {
        lemma_find_first(s, k, i, start + 1);
    }
}

/// `find_from` finds nothing when no entry from `start` on is named `k`.
proof fn lemma_find_none(s: Seq<(Seq<char>, ValueV)>, k: Seq<char>, start: nat)
    requires
        forall|m: int| start <= m < s.len() ==> s[m].0 != k,
    ensures
        find_from(s, k, start) is None,
    decreases s.len() - start,
{
    if start < s.len() {
        lemma_find_none(s, k, start + 1);
    }
}

/// Reading a name after setting it gives the value set.
pub proof fn lemma_get_after_insert(m: Seq<(Seq<char>, ValueV)>, k: Seq<char>, v: ValueV)
    ensures
        get_key(insert_key(m, k, v), k) == Some(v),
{
    lemma_find_from(m, k, 0);
    let m2 = insert_key(m, k, v);
    match find_key(m, k) {
        Some(i) => {
            lemma_find_first(m2, k, i, 0);
        },
        None => {
            lemma_find_first(m2, k, m.len(), 0);
        },
    }
}

/// Setting a name leaves the others as they were.
pub proof fn lemma_get_other_after_insert(
    m: Seq<(Seq<char>, ValueV)>,
    k: Seq<char>,
    v: ValueV,
    other: Seq<char>,
)
    requires
        other != k,
    ensures
        get_key(insert_key(m, k, v), other) == get_key(m, other),
{
    lemma_find_from(m, k, 0);
    lemma_find_from(m, other, 0);
    let m2 = insert_key(m, k, v);
    match find_key(m, other) {
        Some(j) => {
            lemma_find_first(m2, other, j, 0);
        },
        None => {
            lemma_find_none(m2, other, 0);
        },
    }
}

/// Reading a container after putting it back gives the entries put.
proof fn lemma_container_after_put(
    m: Seq<(Seq<char>, ValueV)>,
    name: Seq<char>,
    inner: Seq<(Seq<char>, ValueV)>,
)
    ensures
        get_key(put_container(m, name, inner), name) == Some(ValueV::Container(inner)),
        container_in(put_container(m, name, inner), name) == Some(inner),
{
    lemma_get_after_insert(m, name, ValueV::Container(inner));
}

// ---------------------------------------------------------------------------
// Reading back a write
// ---------------------------------------------------------------------------

/// After a write at `path` inside container entries, the path leads to the
/// value written.
proof fn lemma_set_in_container_reads_back(m: Seq<(Seq<char>, ValueV)>, path: ExprV, v: ValueV)
    requires
        set_in_container(m, path, v) is Ok,
    ensures
        follow_path(ValueV::Container(set_in_container(m, path, v)->Ok_0), path) == Ok::<
            ValueV,
            ErrorV,
        >(v),
    decreases path,
{
    match path {
        ExprV::Attribute(name) => {
            lemma_get_after_insert(m, name, v);
        },
        ExprV::From { base, path: next } => {
            if let ExprV::Container(cn) = *base {
                let inner = container_in(m, cn)->Some_0;
                lemma_set_in_container_reads_back(inner, *next, v);
                let inner2 = set_in_container(inner, *next, v)->Ok_0;
                lemma_container_after_put(m, cn, inner2);
                let m2 = put_container(m, cn, inner2);
                assert(follow_path(ValueV::Container(m2), ExprV::Container(cn)) == Ok::<
                    ValueV,
                    ErrorV,
                >(ValueV::Container(inner2)));
            }
        },
        _ => {},
    }
}

/// After a write at `final_path` inside what `inner` leads to, following
/// `inner` and then `final_path` gives the value written.
proof fn lemma_set_in_nested_container_reads_back(
    m: Seq<(Seq<char>, ValueV)>,
    inner: ExprV,
    final_path: ExprV,
    v: ValueV,
)
    requires
        set_in_nested_container(m, inner, final_path, v) is Ok,
    ensures
        follow_path(
            ValueV::Container(set_in_nested_container(m, inner, final_path, v)->Ok_0),
            ExprV::From { base: Box::new(inner), path: Box::new(final_path) },
        ) == Ok::<ValueV, ErrorV>(v),
    decreases inner,
{
    match inner {
        ExprV::Container(cn) => {
            let im = container_in(m, cn)->Some_0;
            lemma_set_in_container_reads_back(im, final_path, v);
            let im2 = set_in_container(im, final_path, v)->Ok_0;
            lemma_container_after_put(m, cn, im2);
            assert(follow_path(ValueV::Container(put_container(m, cn, im2)), ExprV::Container(cn))
                == Ok::<ValueV, ErrorV>(ValueV::Container(im2)));
        },
        ExprV::From { base, path: next } => {
            if let ExprV::Container(cn) = *base {
                let im = container_in(m, cn)->Some_0;
                lemma_set_in_nested_container_reads_back(im, *next, final_path, v);
                let im2 = set_in_nested_container(im, *next, final_path, v)->Ok_0;
                lemma_container_after_put(m, cn, im2);
                let m2 = put_container(m, cn, im2);
                assert(follow_path(ValueV::Container(m2), ExprV::Container(cn)) == Ok::<
                    ValueV,
                    ErrorV,
                >(ValueV::Container(im2)));
                assert(follow_path(ValueV::Container(m2), inner) == follow_path(
                    ValueV::Container(im2),
                    *next,
                ));
            }
        },
        _ => {},
    }
}

/// What `[[from: base]: path]` reads from the characters `g`.
pub open spec fn read_via_path(g: Seq<(Seq<char>, ValueV)>, base: ExprV, path: ExprV) -> Result<
    ValueV,
    ErrorV,
> {
    match base {
        ExprV::Character(cn) => match get_key(g, cn) {
            Some(c) => follow_path(c, path),
            None => Err(ErrorV::Name("Undefined character: "@ + cn)),
        },
        ExprV::From { base: ib, path: ip } => match *ib {
            ExprV::Character(cn) => match get_key(g, cn) {
                Some(c) => match follow_path(c, *ip) {
                    Ok(x) => follow_path(x, path),
                    Err(e) => Err(e),
                },
                None => Err(ErrorV::Name("Undefined character: "@ + cn)),
            },
            _ => Err(ErrorV::Name(Seq::empty())),
        },
        _ => Err(ErrorV::Name(Seq::empty())),
    }
}

/// After a write through `[[from: base]: path]` succeeds, reading the same
/// place gives the value written.
pub proof fn lemma_set_via_path_reads_back(
    g: Seq<(Seq<char>, ValueV)>,
    base: ExprV,
    path: ExprV,
    v: ValueV,
)
    requires
        set_via_path(g, base, path, v) is Ok,
    ensures
        read_via_path(set_via_path(g, base, path, v)->Ok_0, base, path) == Ok::<ValueV, ErrorV>(v),
{
    match base {
        ExprV::Character(cn) => {
            let cm = container_in(g, cn)->Some_0;
            match path {
                ExprV::Attribute(a) => {
                    lemma_container_after_put(g, cn, insert_key(cm, a, v));
                    lemma_get_after_insert(cm, a, v);
                },
                ExprV::From { base: pb, path: next } => {
                    if let ExprV::Container(ctn) = *pb {
                        let inner = container_in(cm, ctn)->Some_0;
                        lemma_set_in_container_reads_back(inner, *next, v);
                        let inner2 = set_in_container(inner, *next, v)->Ok_0;
                        lemma_container_after_put(cm, ctn, inner2);
                        lemma_container_after_put(g, cn, put_container(cm, ctn, inner2));
                        let cm2 = put_container(cm, ctn, inner2);
                        assert(follow_path(ValueV::Container(cm2), ExprV::Container(ctn)) == Ok::<
                            ValueV,
                            ErrorV,
                        >(ValueV::Container(inner2)));
                        assert(follow_path(ValueV::Container(cm2), path) == Ok::<ValueV, ErrorV>(v));
                    }
                },
                _ => {},
            }
        },
        ExprV::From { base: ib, path: ip } => {
            if let ExprV::Character(cn) = *ib {
                let cm = container_in(g, cn)->Some_0;
                match *ip {
                    ExprV::Container(ctn) => {
                        let im = container_in(cm, ctn)->Some_0;
                        lemma_set_in_container_reads_back(im, path, v);
                        let im2 = set_in_container(im, path, v)->Ok_0;
                        lemma_container_after_put(cm, ctn, im2);
                        lemma_container_after_put(g, cn, put_container(cm, ctn, im2));
                        let cm2 = put_container(cm, ctn, im2);
                        assert(follow_path(ValueV::Container(cm2), ExprV::Container(ctn)) == Ok::<
                            ValueV,
                            ErrorV,
                        >(ValueV::Container(im2)));
                    },
                    ExprV::From { base: nb, path: next } => {
                        if let ExprV::Container(ctn) = *nb {
                            let im = container_in(cm, ctn)->Some_0;
                            lemma_set_in_nested_container_reads_back(im, *next, path, v);
                            let im2 = set_in_nested_container(im, *next, path, v)->Ok_0;
                            lemma_container_after_put(cm, ctn, im2);
                            lemma_container_after_put(g, cn, put_container(cm, ctn, im2));
                            let cm2 = put_container(cm, ctn, im2);
                            assert(follow_path(ValueV::Container(cm2), ExprV::Container(ctn))
                                == Ok::<ValueV, ErrorV>(ValueV::Container(im2)));
                            assert(follow_path(ValueV::Container(cm2), *ip) == follow_path(
                                ValueV::Container(im2),
                                *next,
                            ));
                        }
                    },
                    _ => {},
                }
            }
        },
        _ => {},
    }
}

/// Literals evaluate to themselves and change nothing: a text, a flag, an
/// item and an attribute name give their own value, and a number literal
/// gives the double that the number function reads from it (or the error
/// `Invalid number` when the function refuses it).
pub proof fn law_literals_evaluate_to_themselves(st: RuntimeV, e: ExprV, o: NumOracle)
    ensures
        e matches ExprV::Text(s) ==> eval_expr(st, e, o) == (st, Ok::<ValueV, ErrorV>(ValueV::Text(s))),
        e matches ExprV::Flag(b) ==> eval_expr(st, e, o) == (st, Ok::<ValueV, ErrorV>(ValueV::Flag(b))),
        e is Item ==> eval_expr(st, e, o) == (st, Ok::<ValueV, ErrorV>(ValueV::Item)),
        e matches ExprV::Attribute(a) ==> eval_expr(st, e, o) == (st, Ok::<ValueV, ErrorV>(
            ValueV::Text(a),
        )),
        e matches ExprV::Number(lit) ==> eval_expr(st, e, o).0 == st && (o(
            NumQueryV::Literal(lit),
        ).holds ==> eval_expr(st, e, o).1 == Ok::<ValueV, ErrorV>(
            ValueV::Number(o(NumQueryV::Literal(lit)).value),
        )),
{
}

// ---------------------------------------------------------------------------
// Operators
// ---------------------------------------------------------------------------

/// `[[left] op [right]]` as a comparison.
pub open spec fn comparison_expr(op: Seq<char>, left: ExprV, right: ExprV) -> ExprV {
    ExprV::Comparison { op, left: Box::new(left), right: Box::new(right) }
}

/// `[[left] op [right]]` as arithmetic.
pub open spec fn arithmetic_expr(op: Seq<char>, left: ExprV, right: ExprV) -> ExprV {
    ExprV::Arithmetic { op, left: Box::new(left), right: Box::new(right) }
}

/// Each comparison operator asks the number function for the comparison it
/// names: once both operands have evaluated to the numbers `a` and `b`,
/// `>` gives the answer to "a > b", `<` to "a < b", `>=` to "a >= b", `<=`
/// to "a <= b", `==` to "a equals b" and `!=` to "a differs from b"; the
/// story state is the one the operands left.
pub proof fn law_comparisons_ask_their_operator(st: RuntimeV, left: ExprV, right: ExprV, o: NumOracle)
    ensures
        ({
            let (st1, rl) = eval_expr(st, left, o);
            let (st2, rr) = eval_expr(st1, right, o);
            (rl, rr) matches (Ok(ValueV::Number(a)), Ok(ValueV::Number(b))) ==> {
                let ask = |c: CompareOp| (st2, Ok::<ValueV, ErrorV>(ValueV::Flag(o(NumQueryV::Compare(c, a, b)).holds)));
                &&& eval_expr(st, comparison_expr(">"@, left, right), o) == ask(CompareOp::Greater)
                &&& eval_expr(st, comparison_expr("<"@, left, right), o) == ask(CompareOp::Less)
                &&& eval_expr(st, comparison_expr(">="@, left, right), o) == ask(CompareOp::GreaterEq)
                &&& eval_expr(st, comparison_expr("<="@, left, right), o) == ask(CompareOp::LessEq)
                &&& eval_expr(st, comparison_expr("=="@, left, right), o) == ask(CompareOp::Equal)
                &&& eval_expr(st, comparison_expr("!="@, left, right), o) == ask(CompareOp::NotEqual)
            }
        }),
{
    reveal_strlit(">");
    reveal_strlit("<");
    reveal_strlit(">=");
    reveal_strlit("<=");
    reveal_strlit("==");
    reveal_strlit("!=");
    assert("<"@ != ">"@) by {
        assert("<"@[0] != ">"@[0]);
    }
    assert(">="@ != ">"@) by {
        assert(">="@.len() != ">"@.len());
    }
    assert(">="@ != "<"@) by {
        assert(">="@.len() != "<"@.len());
    }
    assert("<="@ != ">"@) by {
        assert("<="@.len() != ">"@.len());
    }
    assert("<="@ != "<"@) by {
        assert("<="@.len() != "<"@.len());
    }
    assert("<="@ != ">="@) by {
        assert("<="@[0] != ">="@[0]);
    }
    assert("=="@ != ">"@) by {
        assert("=="@.len() != ">"@.len());
    }
    assert("=="@ != "<"@) by {
        assert("=="@.len() != "<"@.len());
    }
    assert("=="@ != ">="@) by {
        assert("=="@[0] != ">="@[0]);
    }
    assert("=="@ != "<="@) by {
        assert("=="@[0] != "<="@[0]);
    }
    assert("!="@ != ">"@) by {
        assert("!="@.len() != ">"@.len());
    }
    assert("!="@ != "<"@) by {
        assert("!="@.len() != "<"@.len());
    }
    assert("!="@ != ">="@) by {
        assert("!="@[0] != ">="@[0]);
    }
    assert("!="@ != "<="@) by {
        assert("!="@[0] != "<="@[0]);
    }
    assert("!="@ != "=="@) by {
        assert("!="@[0] != "=="@[0]);
    }
    assert(compare_op_of(">"@) == Some(CompareOp::Greater));
    assert(compare_op_of("<"@) == Some(CompareOp::Less));
    assert(compare_op_of(">="@) == Some(CompareOp::GreaterEq));
    assert(compare_op_of("<="@) == Some(CompareOp::LessEq));
    assert(compare_op_of("=="@) == Some(CompareOp::Equal));
    assert(compare_op_of("!="@) == Some(CompareOp::NotEqual));
    let (st1, rl) = eval_expr(st, left, o);
    let (st2, rr) = eval_expr(st1, right, o);
    if let (Ok(ValueV::Number(a)), Ok(ValueV::Number(b))) = (rl, rr) {
        assert(eval_expr(st, comparison_expr(">"@, left, right), o) == (st2, Ok::<ValueV, ErrorV>(ValueV::Flag(o(NumQueryV::Compare(CompareOp::Greater, a, b)).holds))));
        assert(eval_expr(st, comparison_expr("<"@, left, right), o) == (st2, Ok::<ValueV, ErrorV>(ValueV::Flag(o(NumQueryV::Compare(CompareOp::Less, a, b)).holds))));
        assert(eval_expr(st, comparison_expr(">="@, left, right), o) == (st2, Ok::<ValueV, ErrorV>(ValueV::Flag(o(NumQueryV::Compare(CompareOp::GreaterEq, a, b)).holds))));
        assert(eval_expr(st, comparison_expr("<="@, left, right), o) == (st2, Ok::<ValueV, ErrorV>(ValueV::Flag(o(NumQueryV::Compare(CompareOp::LessEq, a, b)).holds))));
        assert(eval_expr(st, comparison_expr("=="@, left, right), o) == (st2, Ok::<ValueV, ErrorV>(ValueV::Flag(o(NumQueryV::Compare(CompareOp::Equal, a, b)).holds))));
        assert(eval_expr(st, comparison_expr("!="@, left, right), o) == (st2, Ok::<ValueV, ErrorV>(ValueV::Flag(o(NumQueryV::Compare(CompareOp::NotEqual, a, b)).holds))));
    }
}

/// Each arithmetic operator asks the number function for the operation it
/// names: once both operands have evaluated to the numbers `a` and `b`,
/// `+` gives a + b, `-` gives a - b, `*` gives a * b, and `/` gives a / b,
/// or the error "Division by zero" when `b` is zero (either sign).
pub proof fn law_arithmetic_asks_its_operator(st: RuntimeV, left: ExprV, right: ExprV, o: NumOracle)
    ensures
        ({
            let (st1, rl) = eval_expr(st, left, o);
            let (st2, rr) = eval_expr(st1, right, o);
            (rl, rr) matches (Ok(ValueV::Number(a)), Ok(ValueV::Number(b))) ==> {
                let ask = |k: ArithOp| (st2, Ok::<ValueV, ErrorV>(ValueV::Number(o(NumQueryV::Arith(k, a, b)).value)));
                &&& eval_expr(st, arithmetic_expr("+"@, left, right), o) == ask(ArithOp::Add)
                &&& eval_expr(st, arithmetic_expr("-"@, left, right), o) == ask(ArithOp::Sub)
                &&& eval_expr(st, arithmetic_expr("*"@, left, right), o) == ask(ArithOp::Mul)
                &&& eval_expr(st, arithmetic_expr("/"@, left, right), o) == if crate::value::is_zero_bits(b) {
                    (st2, Err::<ValueV, ErrorV>(ErrorV::Runtime("Division by zero"@)))
                } else {
                    ask(ArithOp::Div)
                }
            }
        }),
{
    reveal_strlit("+");
    reveal_strlit("-");
    reveal_strlit("*");
    reveal_strlit("/");
    assert("-"@ != "+"@) by {
        assert("-"@[0] != "+"@[0]);
    }
    assert("*"@ != "+"@) by {
        assert("*"@[0] != "+"@[0]);
    }
    assert("*"@ != "-"@) by {
        assert("*"@[0] != "-"@[0]);
    }
    assert("/"@ != "+"@) by {
        assert("/"@[0] != "+"@[0]);
    }
    assert("/"@ != "-"@) by {
        assert("/"@[0] != "-"@[0]);
    }
    assert("/"@ != "*"@) by {
        assert("/"@[0] != "*"@[0]);
    }
    assert(arith_op_of("+"@) == Some(ArithOp::Add));
    assert(arith_op_of("-"@) == Some(ArithOp::Sub));
    assert(arith_op_of("*"@) == Some(ArithOp::Mul));
    assert(arith_op_of("/"@) == Some(ArithOp::Div));
    let (st1, rl) = eval_expr(st, left, o);
    let (st2, rr) = eval_expr(st1, right, o);
    if let (Ok(ValueV::Number(a)), Ok(ValueV::Number(b))) = (rl, rr) {
        assert(eval_expr(st, arithmetic_expr("+"@, left, right), o) == (st2, Ok::<ValueV, ErrorV>(ValueV::Number(o(NumQueryV::Arith(ArithOp::Add, a, b)).value))));
        assert(eval_expr(st, arithmetic_expr("-"@, left, right), o) == (st2, Ok::<ValueV, ErrorV>(ValueV::Number(o(NumQueryV::Arith(ArithOp::Sub, a, b)).value))));
        assert(eval_expr(st, arithmetic_expr("*"@, left, right), o) == (st2, Ok::<ValueV, ErrorV>(ValueV::Number(o(NumQueryV::Arith(ArithOp::Mul, a, b)).value))));
    }
}

// ---------------------------------------------------------------------------
// Chapters
// ---------------------------------------------------------------------------

/// `[[chapter: name]: [text: heading]]`.
pub open spec fn chapter_expr(name: Seq<char>, heading: Seq<char>) -> ExprV {
    ExprV::Keyword {
        name: "chapter"@,
        params: seq![("id"@, ExprV::Chapter(name)), ("body"@, ExprV::Text(heading))],
    }
}

/// A chapter heading enters its chapter: `[[chapter: name]: [text:
/// heading]]` makes `name` the current chapter, leaves everything else but
/// the output as it was, shows `[CHAPTER: name] heading` when the heading
/// is not empty, and yields null.
pub proof fn law_chapter_heading_enters_chapter(st: RuntimeV, name: Seq<char>, heading: Seq<char>, o: NumOracle)
    ensures
        ({
            let entered = RuntimeV { chapter: Some(name), ..st };
            eval_expr(st, chapter_expr(name, heading), o) == (
                if heading.len() > 0 {
                    RuntimeV { output: st.output.push("[CHAPTER: "@ + name + "] "@ + heading), ..entered }
                } else {
                    entered
                },
                Ok::<ValueV, ErrorV>(ValueV::Null),
            )
        }),
{
    reveal_strlit("chapter");
    reveal_strlit("exists");
    reveal_strlit("if");
    reveal_strlit("display");
    reveal_strlit("option");
    reveal_strlit("as");
    reveal_strlit("goto");
    reveal_strlit("id");
    reveal_strlit("body");
    assert("if"@ != "exists"@) by {
        assert("if"@.len() != "exists"@.len());
    }
    assert("display"@ != "exists"@) by {
        assert("display"@.len() != "exists"@.len());
    }
    assert("display"@ != "if"@) by {
        assert("display"@.len() != "if"@.len());
    }
    assert("option"@ != "exists"@) by {
        assert("option"@[0] != "exists"@[0]);
    }
    assert("option"@ != "if"@) by {
        assert("option"@.len() != "if"@.len());
    }
    assert("option"@ != "display"@) by {
        assert("option"@.len() != "display"@.len());
    }
    assert("as"@ != "exists"@) by {
        assert("as"@.len() != "exists"@.len());
    }
    assert("as"@ != "if"@) by {
        assert("as"@[0] != "if"@[0]);
    }
    assert("as"@ != "display"@) by {
        assert("as"@.len() != "display"@.len());
    }
    assert("as"@ != "option"@) by {
        assert("as"@.len() != "option"@.len());
    }
    assert("goto"@ != "exists"@) by {
        assert("goto"@.len() != "exists"@.len());
    }
    assert("goto"@ != "if"@) by {
        assert("goto"@.len() != "if"@.len());
    }
    assert("goto"@ != "display"@) by {
        assert("goto"@.len() != "display"@.len());
    }
    assert("goto"@ != "option"@) by {
        assert("goto"@.len() != "option"@.len());
    }
    assert("goto"@ != "as"@) by {
        assert("goto"@.len() != "as"@.len());
    }
    assert("chapter"@ != "exists"@) by {
        assert("chapter"@.len() != "exists"@.len());
    }
    assert("chapter"@ != "if"@) by {
        assert("chapter"@.len() != "if"@.len());
    }
    assert("chapter"@ != "display"@) by {
        assert("chapter"@[0] != "display"@[0]);
    }
    assert("chapter"@ != "option"@) by {
        assert("chapter"@.len() != "option"@.len());
    }
    assert("chapter"@ != "as"@) by {
        assert("chapter"@.len() != "as"@.len());
    }
    assert("chapter"@ != "goto"@) by {
        assert("chapter"@.len() != "goto"@.len());
    }
    assert("body"@ != "id"@) by {
        assert("body"@.len() != "id"@.len());
    }
    let params = seq![("id"@, ExprV::Chapter(name)), ("body"@, ExprV::Text(heading))];
    let entered = RuntimeV { chapter: Some(name), ..st };
    assert(params.drop_first().drop_first() =~= Seq::<(Seq<char>, ExprV)>::empty());
    assert(params.drop_first()[0] == ("body"@, ExprV::Text(heading)));
    let rest = params.drop_first();
    let after = if heading.len() > 0 {
        with_line(entered, "[CHAPTER: "@ + name + "] "@ + heading)
    } else {
        entered
    };
    assert(eval_chapter(entered, rest.drop_first(), name, heading, o) == (after, Ok::<ValueV, ErrorV>(ValueV::Null)));
    assert(rest.len() == 1 && rest[0].0 == "body"@ && rest[0].1 == ExprV::Text(heading));
    assert(rest[0].0 != "id"@);
    assert(eval_expr(entered, ExprV::Text(heading), o) == (entered, Ok::<ValueV, ErrorV>(ValueV::Text(heading))));
    assert(eval_chapter(entered, rest, name, Seq::empty(), o) == (after, Ok::<ValueV, ErrorV>(ValueV::Null)));
    assert(eval_chapter(st, params, Seq::empty(), Seq::empty(), o) == (after, Ok::<ValueV, ErrorV>(ValueV::Null)));
}

/// `[[set: [[from: base]: path]]: value]`.
pub open spec fn set_expr(base: ExprV, path: ExprV, value: ExprV) -> ExprV {
    ExprV::SetValue { target: Box::new(from_expr(base, path)), value: Box::new(value) }
}

/// `[[from: base]: path]`.
pub open spec fn from_expr(base: ExprV, path: ExprV) -> ExprV {
    ExprV::From { base: Box::new(base), path: Box::new(path) }
}

/// `[exists: x]`.
pub open spec fn exists_expr(x: ExprV) -> ExprV {
    ExprV::Keyword { name: "exists"@, params: seq![("body"@, x)] }
}

/// A write reads back: once `[[set: [[from: base]: path]]: value]` has set
/// a value, `[[from: base]: path]` gives that value and changes nothing, and
/// `[exists: [[from: base]: path]]` holds unless the value is null.
pub proof fn law_set_then_get(st: RuntimeV, base: ExprV, path: ExprV, value: ExprV, o: NumOracle)
    requires
        eval_expr(st, set_expr(base, path, value), o).1 is Ok,
    ensures
        ({
            let (st1, r) = eval_expr(st, set_expr(base, path, value), o);
            &&& eval_expr(st1, from_expr(base, path), o) == (st1, r)
            &&& r != Ok::<ValueV, ErrorV>(ValueV::Null) ==> eval_expr(
                st1,
                exists_expr(from_expr(base, path)),
                o,
            ) == (st1, Ok::<ValueV, ErrorV>(ValueV::Flag(true)))
        }),
{
    let (st0, rv) = eval_expr(st, value, o);
    let v = rv->Ok_0;
    let g1 = set_via_path(st0.globals, base, path, v)->Ok_0;
    let st1 = RuntimeV { globals: g1, ..st0 };
    lemma_set_via_path_reads_back(st0.globals, base, path, v);
    assert(eval_expr(st, set_expr(base, path, value), o) == (st1, Ok::<ValueV, ErrorV>(v)));
    match base {
        ExprV::Character(cn) => {
            let c = get_key(g1, cn)->Some_0;
            assert(eval_expr(st1, base, o) == (st1, Ok::<ValueV, ErrorV>(c)));
        },
        ExprV::From { base: ib, path: ip } => {
            if let ExprV::Character(cn) = *ib {
                let c = get_key(g1, cn)->Some_0;
                assert(eval_expr(st1, *ib, o) == (st1, Ok::<ValueV, ErrorV>(c)));
                assert(eval_expr(st1, base, o) == (st1, follow_path(c, *ip)));
            }
        },
        _ => {},
    }
    assert(eval_expr(st1, from_expr(base, path), o) == (st1, Ok::<ValueV, ErrorV>(v)));
    let params = seq![("body"@, from_expr(base, path))];
    assert(params[0].0 == "body"@);
    assert(crate::semantics::eval_exists(st1, params, o) == (st1, Ok::<ValueV, ErrorV>(
        ValueV::Flag(v != ValueV::Null),
    )));
}

// ---------------------------------------------------------------------------
// Well-formed values
// ---------------------------------------------------------------------------

/// Every container, at every depth, names each entry once.
pub open spec fn value_wf(v: ValueV) -> bool
    decreases v, 1nat, 0nat,
{
    match v {
        ValueV::Container(m) => keys_distinct(m) && values_wf_upto(m, m.len()),
        _ => true,
    }
}

/// The first `n` values of `m` are well-formed.
pub open spec fn values_wf_upto(m: Seq<(Seq<char>, ValueV)>, n: nat) -> bool
    decreases m, 0nat, n,
{
    if n == 0 || n > m.len() {
        true
    } else {
        proof {
            assert(decreases_to!(m => m[n - 1]));
        }
        values_wf_upto(m, (n - 1) as nat) && value_wf(m[n - 1].1)
    }
}

/// `values_wf_upto` says that each of the first `n` values is well-formed.
pub proof fn lemma_values_wf_upto(m: Seq<(Seq<char>, ValueV)>, n: nat)
    requires
        n <= m.len(),
    ensures
        values_wf_upto(m, n) <==> forall|i: int| 0 <= i < n ==> #[trigger] value_wf(m[i].1),
    decreases n,
{
    if n > 0 {
        lemma_values_wf_upto(m, (n - 1) as nat);
        if values_wf_upto(m, n) {
            assert forall|i: int| 0 <= i < n implies #[trigger] value_wf(m[i].1) by {
                if i < n - 1 {
                    assert(values_wf_upto(m, (n - 1) as nat));
                }
            }
        }
        if forall|i: int| 0 <= i < n ==> #[trigger] value_wf(m[i].1) {
            assert(value_wf(m[n - 1].1));
            assert forall|i: int| 0 <= i < n - 1 implies #[trigger] value_wf(m[i].1) by {
                assert(value_wf(m[i].1));
            }
        }
    }
}

/// Entries that name each entry once and hold well-formed values.
pub open spec fn entries_wf(m: Seq<(Seq<char>, ValueV)>) -> bool {
    keys_distinct(m) && forall|i: int| 0 <= i < m.len() ==> #[trigger] value_wf(m[i].1)
}

/// A container is well-formed when its entries are.
pub proof fn lemma_container_wf(m: Seq<(Seq<char>, ValueV)>)
    ensures
        value_wf(ValueV::Container(m)) == entries_wf(m),
{
    lemma_values_wf_upto(m, m.len());
}

/// Characters that are well-formed containers, each named once.
pub open spec fn globals_wf(g: Seq<(Seq<char>, ValueV)>) -> bool {
    &&& entries_wf(g)
    &&& forall|i: int| 0 <= i < g.len() ==> #[trigger] g[i].1 is Container
}

/// Setting a name keeps the entries well-formed when the value is.
pub proof fn lemma_insert_wf(m: Seq<(Seq<char>, ValueV)>, k: Seq<char>, v: ValueV)
    requires
        entries_wf(m),
        value_wf(v),
    ensures
        entries_wf(insert_key(m, k, v)),
{
    lemma_find_from(m, k, 0);
    let m2 = insert_key(m, k, v);
    assert forall|i: int| 0 <= i < m2.len() implies #[trigger] value_wf(m2[i].1) by {
        if i < m.len() && m2[i] != (k, v) {
            assert(m2[i] == m[i]);
        }
    }
    assert(keys_distinct(m2));
}

/// Removing a name keeps the entries well-formed, and the value removed is
/// well-formed.
pub proof fn lemma_remove_wf(m: Seq<(Seq<char>, ValueV)>, k: Seq<char>)
    requires
        entries_wf(m),
    ensures
        entries_wf(remove_key(m, k).0),
        remove_key(m, k).1 matches Some(x) ==> value_wf(x),
{
    lemma_find_from(m, k, 0);
    let m2 = remove_key(m, k).0;
    if let Some(j) = find_key(m, k) {
        assert(value_wf(m[j as int].1));
        assert forall|i: int| 0 <= i < m2.len() implies #[trigger] value_wf(m2[i].1) by {
            if i < j {
                assert(m2[i] == m[i]);
            } else {
                assert(m2[i] == m[i + 1]);
            }
        }
        assert forall|a: int, b: int| 0 <= a < b < m2.len() implies m2[a].0 != m2[b].0 by {
            let a1 = if a < j { a } else { a + 1 };
            let b1 = if b < j { b } else { b + 1 };
            assert(m2[a] == m[a1] && m2[b] == m[b1]);
        }
    }
}

/// What a well-formed container holds is well-formed.
pub proof fn lemma_get_wf(m: Seq<(Seq<char>, ValueV)>, k: Seq<char>)
    requires
        entries_wf(m),
    ensures
        get_key(m, k) matches Some(x) ==> value_wf(x),
        container_in(m, k) matches Some(inner) ==> entries_wf(inner),
{
    lemma_find_from(m, k, 0);
    if let Some(j) = find_key(m, k) {
        assert(value_wf(m[j as int].1));
        if let ValueV::Container(inner) = m[j as int].1 {
            lemma_container_wf(inner);
        }
    }
}

/// Putting a well-formed container back keeps the entries well-formed.
pub proof fn lemma_put_wf(m: Seq<(Seq<char>, ValueV)>, name: Seq<char>, inner: Seq<(Seq<char>, ValueV)>)
    requires
        entries_wf(m),
        entries_wf(inner),
    ensures
        entries_wf(put_container(m, name, inner)),
{
    lemma_container_wf(inner);
    lemma_insert_wf(m, name, ValueV::Container(inner));
}

/// Putting a well-formed container back keeps the characters well-formed.
pub proof fn lemma_put_globals_wf(
    g: Seq<(Seq<char>, ValueV)>,
    name: Seq<char>,
    inner: Seq<(Seq<char>, ValueV)>,
)
    requires
        globals_wf(g),
        entries_wf(inner),
    ensures
        globals_wf(put_container(g, name, inner)),
{
    lemma_put_wf(g, name, inner);
    lemma_find_from(g, name, 0);
    let g2 = put_container(g, name, inner);
    assert forall|i: int| 0 <= i < g2.len() implies #[trigger] g2[i].1 is Container by {
        if i < g.len() && g2[i].0 != name {
            assert(g2[i] == g[i]);
        }
    }
}

/// What a path leads to inside a well-formed value is well-formed.
pub proof fn lemma_follow_wf(c: ValueV, path: ExprV)
    requires
        value_wf(c),
    ensures
        follow_path(c, path) matches Ok(x) ==> value_wf(x),
    decreases path,
{
    match path {
        ExprV::Attribute(name) => {
            if let ValueV::Container(m) = c {
                lemma_container_wf(m);
                lemma_get_wf(m, name);
            }
        },
        ExprV::Container(name) => {
            if let ValueV::Container(m) = c {
                lemma_container_wf(m);
                lemma_get_wf(m, name);
            }
        },
        ExprV::From { base, path: next } => {
            lemma_follow_wf(c, *base);
            if let Ok(x) = follow_path(c, *base) {
                lemma_follow_wf(x, *next);
            }
        },
        _ => {},
    }
}

/// A write inside well-formed entries keeps them well-formed.
proof fn lemma_set_in_container_wf(m: Seq<(Seq<char>, ValueV)>, path: ExprV, v: ValueV)
    requires
        entries_wf(m),
        value_wf(v),
    ensures
        set_in_container(m, path, v) matches Ok(m2) ==> entries_wf(m2),
    decreases path,
{
    match path {
        ExprV::Attribute(name) => {
            lemma_insert_wf(m, name, v);
        },
        ExprV::From { base, path: next } => {
            if let ExprV::Container(cn) = *base {
                lemma_get_wf(m, cn);
                if let Some(inner) = container_in(m, cn) {
                    lemma_set_in_container_wf(inner, *next, v);
                    if let Ok(inner2) = set_in_container(inner, *next, v) {
                        lemma_put_wf(m, cn, inner2);
                    }
                }
            }
        },
        _ => {},
    }
}

proof fn lemma_set_in_nested_container_wf(
    m: Seq<(Seq<char>, ValueV)>,
    inner: ExprV,
    final_path: ExprV,
    v: ValueV,
)
    requires
        entries_wf(m),
        value_wf(v),
    ensures
        set_in_nested_container(m, inner, final_path, v) matches Ok(m2) ==> entries_wf(m2),
    decreases inner,
{
    match inner {
        ExprV::Container(cn) => {
            lemma_get_wf(m, cn);
            if let Some(im) = container_in(m, cn) {
                lemma_set_in_container_wf(im, final_path, v);
                if let Ok(im2) = set_in_container(im, final_path, v) {
                    lemma_put_wf(m, cn, im2);
                }
            }
        },
        ExprV::From { base, path: next } => {
            if let ExprV::Container(cn) = *base {
                lemma_get_wf(m, cn);
                if let Some(im) = container_in(m, cn) {
                    lemma_set_in_nested_container_wf(im, *next, final_path, v);
                    if let Ok(im2) = set_in_nested_container(im, *next, final_path, v) {
                        lemma_put_wf(m, cn, im2);
                    }
                }
            }
        },
        _ => {},
    }
}

/// A write through `[[from: base]: path]` keeps the characters
/// well-formed when the value is.
pub proof fn lemma_set_via_path_wf(g: Seq<(Seq<char>, ValueV)>, base: ExprV, path: ExprV, v: ValueV)
    requires
        globals_wf(g),
        value_wf(v),
    ensures
        set_via_path(g, base, path, v) matches Ok(g2) ==> globals_wf(g2),
{
    match base {
        ExprV::Character(cn) => {
            lemma_get_wf(g, cn);
            if let Some(cm) = container_in(g, cn) {
                match path {
                    ExprV::Attribute(a) => {
                        lemma_insert_wf(cm, a, v);
                        lemma_put_globals_wf(g, cn, insert_key(cm, a, v));
                    },
                    ExprV::From { base: pb, path: next } => {
                        if let ExprV::Container(ctn) = *pb {
                            lemma_get_wf(cm, ctn);
                            if let Some(inner) = container_in(cm, ctn) {
                                lemma_set_in_container_wf(inner, *next, v);
                                if let Ok(inner2) = set_in_container(inner, *next, v) {
                                    lemma_put_wf(cm, ctn, inner2);
                                    lemma_put_globals_wf(g, cn, put_container(cm, ctn, inner2));
                                }
                            }
                        }
                    },
                    _ => {},
                }
            }
        },
        ExprV::From { base: ib, path: ip } => {
            if let ExprV::Character(cn) = *ib {
                lemma_get_wf(g, cn);
                if let Some(cm) = container_in(g, cn) {
                    match *ip {
                        ExprV::Container(ctn) => {
                            lemma_get_wf(cm, ctn);
                            if let Some(im) = container_in(cm, ctn) {
                                lemma_set_in_container_wf(im, path, v);
                                if let Ok(im2) = set_in_container(im, path, v) {
                                    lemma_put_wf(cm, ctn, im2);
                                    lemma_put_globals_wf(g, cn, put_container(cm, ctn, im2));
                                }
                            }
                        },
                        ExprV::From { base: nb, path: next } => {
                            if let ExprV::Container(ctn) = *nb {
                                lemma_get_wf(cm, ctn);
                                if let Some(im) = container_in(cm, ctn) {
                                    lemma_set_in_nested_container_wf(im, *next, path, v);
                                    if let Ok(im2) = set_in_nested_container(im, *next, path, v) {
                                        lemma_put_wf(cm, ctn, im2);
                                        lemma_put_globals_wf(g, cn, put_container(cm, ctn, im2));
                                    }
                                }
                            }
                        },
                        _ => {},
                    }
                }
            }
        },
        _ => {},
    }
}

/// A removal inside well-formed entries keeps them well-formed, and gives
/// a well-formed value.
proof fn lemma_remove_from_container_wf(m: Seq<(Seq<char>, ValueV)>, path: ExprV)
    requires
        entries_wf(m),
    ensures
        remove_from_container(m, path) matches Ok((m2, x)) ==> entries_wf(m2) && value_wf(x),
    decreases path,
{
    match path {
        ExprV::Attribute(name) => {
            lemma_remove_wf(m, name);
        },
        ExprV::From { base, path: next } => {
            if let ExprV::Container(cn) = *base {
                lemma_get_wf(m, cn);
                if let Some(inner) = container_in(m, cn) {
                    lemma_remove_from_container_wf(inner, *next);
                    if let Ok((inner2, _)) = remove_from_container(inner, *next) {
                        lemma_put_wf(m, cn, inner2);
                    }
                }
            }
        },
        _ => {},
    }
}

proof fn lemma_remove_from_nested_container_wf(m: Seq<(Seq<char>, ValueV)>, inner: ExprV, final_path: ExprV)
    requires
        entries_wf(m),
    ensures
        remove_from_nested_container(m, inner, final_path) matches Ok((m2, x)) ==> entries_wf(m2)
            && value_wf(x),
    decreases inner,
{
    match inner {
        ExprV::Container(cn) => {
            lemma_get_wf(m, cn);
            if let Some(im) = container_in(m, cn) {
                lemma_remove_from_container_wf(im, final_path);
                if let Ok((im2, _)) = remove_from_container(im, final_path) {
                    lemma_put_wf(m, cn, im2);
                }
            }
        },
        ExprV::From { base, path: next } => {
            if let ExprV::Container(cn) = *base {
                lemma_get_wf(m, cn);
                if let Some(im) = container_in(m, cn) {
                    lemma_remove_from_nested_container_wf(im, *next, final_path);
                    if let Ok((im2, _)) = remove_from_nested_container(im, *next, final_path) {
                        lemma_put_wf(m, cn, im2);
                    }
                }
            }
        },
        _ => {},
    }
}

/// A removal through `[[from: base]: path]` keeps the characters
/// well-formed, and gives a well-formed value.
pub proof fn lemma_remove_via_path_wf(g: Seq<(Seq<char>, ValueV)>, base: ExprV, path: ExprV)
    requires
        globals_wf(g),
    ensures
        remove_via_path(g, base, path) matches Ok((g2, x)) ==> globals_wf(g2) && value_wf(x),
{
    match base {
        ExprV::Character(cn) => {
            lemma_get_wf(g, cn);
            if let Some(cm) = container_in(g, cn) {
                match path {
                    ExprV::Attribute(a) => {
                        lemma_remove_wf(cm, a);
                        lemma_put_globals_wf(g, cn, remove_key(cm, a).0);
                    },
                    ExprV::From { base: pb, path: next } => {
                        if let ExprV::Container(ctn) = *pb {
                            lemma_get_wf(cm, ctn);
                            if let Some(im) = container_in(cm, ctn) {
                                lemma_remove_from_container_wf(im, *next);
                                if let Ok((im2, _)) = remove_from_container(im, *next) {
                                    lemma_put_wf(cm, ctn, im2);
                                    lemma_put_globals_wf(g, cn, put_container(cm, ctn, im2));
                                }
                            }
                        }
                    },
                    _ => {},
                }
            }
        },
        ExprV::From { base: ib, path: ip } => {
            if let ExprV::Character(cn) = *ib {
                lemma_get_wf(g, cn);
                if let Some(cm) = container_in(g, cn) {
                    match *ip {
                        ExprV::Container(ctn) => {
                            lemma_get_wf(cm, ctn);
                            if let Some(im) = container_in(cm, ctn) {
                                lemma_remove_from_container_wf(im, path);
                                if let Ok((im2, _)) = remove_from_container(im, path) {
                                    lemma_put_wf(cm, ctn, im2);
                                    lemma_put_globals_wf(g, cn, put_container(cm, ctn, im2));
                                }
                            }
                        },
                        ExprV::From { base: nb, path: next } => {
                            if let ExprV::Container(ctn) = *nb {
                                lemma_get_wf(cm, ctn);
                                if let Some(im) = container_in(cm, ctn) {
                                    lemma_remove_from_nested_container_wf(im, *next, path);
                                    if let Ok((im2, _)) = remove_from_nested_container(im, *next, path) {
                                        lemma_put_wf(cm, ctn, im2);
                                        lemma_put_globals_wf(g, cn, put_container(cm, ctn, im2));
                                    }
                                }
                            }
                        },
                        _ => {},
                    }
                }
            }
        },
        _ => {},
    }
}

// ---------------------------------------------------------------------------
// What every step keeps
// ---------------------------------------------------------------------------

/// A step from `st` keeps the characters well-formed, and what it yields is
/// well-formed.
pub open spec fn keeps_wf(st: RuntimeV, step: Step) -> bool {
    globals_wf(st.globals) ==> globals_wf(step.0.globals) && (step.1 matches Ok(v) ==> value_wf(v))
}

proof fn lemma_empty_container_wf()
    ensures
        value_wf(empty_container()),
        entries_wf(Seq::<(Seq<char>, ValueV)>::empty()),
{
    lemma_container_wf(Seq::empty());
}

proof fn lemma_eval_wf(st: RuntimeV, e: ExprV, o: NumOracle)
    ensures
        keeps_wf(st, eval_expr(st, e, o)),
    decreases e, 0nat,
{
    if globals_wf(st.globals) {
        let g = st.globals;
        match e {
            ExprV::Character(name) => {
                lemma_get_wf(g, name);
            },
            ExprV::Define { target, body } => {
                lemma_empty_container_wf();
                if let ExprV::Character(name) = *target {
                    lemma_put_globals_wf(g, name, Seq::empty());
                    let st1 = with_globals(st, insert_key(g, name, empty_container()));
                    lemma_define_body_wf(st1, name, *body, o);
                }
            },
            ExprV::SetValue { target, value } => {
                lemma_eval_wf(st, *value, o);
                let (st1, r) = eval_expr(st, *value, o);
                if let Ok(v) = r {
                    if let ExprV::From { base, path } = *target {
                        lemma_set_via_path_wf(st1.globals, *base, *path, v);
                    }
                }
            },
            ExprV::Add { target, value } => {
                lemma_eval_wf(st, *value, o);
                let (st1, r) = eval_expr(st, *value, o);
                if let Ok(v) = r {
                    if let ExprV::From { base, path } = *target {
                        lemma_eval_wf(st1, *base, o);
                        let (st2, rb) = eval_expr(st1, *base, o);
                        let existing = match rb {
                            Ok(bv) => follow_path(bv, *path),
                            Err(err) => Err(err),
                        };
                        let sum = match existing {
                            Ok(ex) => match (ex, v) {
                                (ValueV::Number(n), ValueV::Number(m)) => Ok(
                                    ValueV::Number(o(NumQueryV::Arith(ArithOp::Add, n, m)).value),
                                ),
                                (ValueV::Item, ValueV::Item) => Ok(ValueV::Item),
                                _ => Err(ErrorV::Type("Cannot add values of different types"@)),
                            },
                            Err(_) => Ok(v),
                        };
                        if let Ok(sv) = sum {
                            lemma_set_via_path_wf(st2.globals, *base, *path, sv);
                        }
                    }
                }
            },
            ExprV::Remove { target } => {
                if let ExprV::From { base, path } = *target {
                    lemma_remove_via_path_wf(g, *base, *path);
                }
            },
            ExprV::From { base, path } => {
                lemma_eval_wf(st, *base, o);
                let (st1, rb) = eval_expr(st, *base, o);
                if let Ok(bv) = rb {
                    lemma_follow_wf(bv, *path);
                }
            },
            ExprV::If { condition, body } => {
                lemma_eval_wf(st, *condition, o);
                let (st1, rc) = eval_expr(st, *condition, o);
                lemma_eval_wf(st1, *body, o);
            },
            ExprV::Sequence(es) => {
                lemma_eval_seq_wf(st, es, ValueV::Null, o);
            },
            ExprV::Keyword { name, params } => {
                lemma_exists_wf(st, params, o);
                lemma_if_keyword_wf(st, params, o);
                lemma_display_wf(st, params, o);
                lemma_option_wf(st, params, Seq::empty(), Seq::empty(), o);
                lemma_as_wf(st, params, Seq::empty(), Seq::empty(), o);
                lemma_chapter_wf(st, params, Seq::empty(), Seq::empty(), o);
            },
            ExprV::Comparison { op, left, right } => {
                lemma_eval_wf(st, *left, o);
                let (st1, rl) = eval_expr(st, *left, o);
                lemma_eval_wf(st1, *right, o);
            },
            ExprV::Arithmetic { op, left, right } => {
                lemma_eval_wf(st, *left, o);
                let (st1, rl) = eval_expr(st, *left, o);
                lemma_eval_wf(st1, *right, o);
            },
            _ => {},
        }
    }
}

proof fn lemma_eval_seq_wf(st: RuntimeV, es: Seq<ExprV>, last: ValueV, o: NumOracle)
    requires
        value_wf(last),
    ensures
        keeps_wf(st, eval_seq(st, es, last, o)),
    decreases es, 0nat,
{
    if es.len() > 0 {
        lemma_drop_first_decreases(es);
        lemma_eval_wf(st, es[0], o);
        let (st1, r) = eval_expr(st, es[0], o);
        if let Ok(v) = r {
            if globals_wf(st.globals) {
                lemma_eval_seq_wf(st1, es.drop_first(), v, o);
            }
        }
    }
}

proof fn lemma_define_body_wf(st: RuntimeV, ch: Seq<char>, e: ExprV, o: NumOracle)
    ensures
        keeps_wf(st, define_body(st, ch, e, o)),
    decreases e, 1nat,
{
    lemma_eval_wf(st, e, o);
    if globals_wf(st.globals) {
        let g = st.globals;
        lemma_empty_container_wf();
        match e {
            ExprV::Sequence(es) => {
                lemma_define_body_seq_wf(st, ch, es, ValueV::Null, o);
            },
            ExprV::SetValue { target, value } => {
                if let ExprV::Attribute(a) = *target {
                    lemma_eval_wf(st, *value, o);
                    let (st1, r) = eval_expr(st, *value, o);
                    if let Ok(v) = r {
                        lemma_get_wf(st1.globals, ch);
                        if let Some(m) = container_in(st1.globals, ch) {
                            lemma_insert_wf(m, a, v);
                            lemma_put_globals_wf(st1.globals, ch, insert_key(m, a, v));
                        }
                    }
                }
            },
            ExprV::Define { target, body } => {
                if let ExprV::Container(cn) = *target {
                    lemma_get_wf(g, ch);
                    let st1 = match container_in(g, ch) {
                        Some(m) => {
                            lemma_insert_wf(m, cn, empty_container());
                            lemma_put_globals_wf(g, ch, insert_key(m, cn, empty_container()));
                            with_globals(st, put_container(g, ch, insert_key(m, cn, empty_container())))
                        },
                        None => st,
                    };
                    lemma_container_body_wf(st1, ch, cn, *body, o);
                }
            },
            _ => {},
        }
    }
}

proof fn lemma_define_body_seq_wf(st: RuntimeV, ch: Seq<char>, es: Seq<ExprV>, last: ValueV, o: NumOracle)
    requires
        value_wf(last),
    ensures
        keeps_wf(st, define_body_seq(st, ch, es, last, o)),
    decreases es, 1nat,
{
    if es.len() > 0 {
        lemma_drop_first_decreases(es);
        lemma_define_body_wf(st, ch, es[0], o);
        let (st1, r) = define_body(st, ch, es[0], o);
        if let Ok(v) = r {
            if globals_wf(st.globals) {
                lemma_define_body_seq_wf(st1, ch, es.drop_first(), v, o);
            }
        }
    }
}

proof fn lemma_container_body_wf(st: RuntimeV, ch: Seq<char>, cn: Seq<char>, e: ExprV, o: NumOracle)
    ensures
        keeps_wf(st, container_body(st, ch, cn, e, o)),
    decreases e, 1nat,
{
    lemma_eval_wf(st, e, o);
    if globals_wf(st.globals) {
        match e {
            ExprV::Sequence(es) => {
                lemma_container_body_seq_wf(st, ch, cn, es, ValueV::Null, o);
            },
            ExprV::SetValue { target, value } => {
                if let ExprV::Attribute(a) = *target {
                    lemma_eval_wf(st, *value, o);
                    let (st1, r) = eval_expr(st, *value, o);
                    if let Ok(v) = r {
                        lemma_get_wf(st1.globals, ch);
                        if let Some(cm) = container_in(st1.globals, ch) {
                            lemma_get_wf(cm, cn);
                            if let Some(inner) = container_in(cm, cn) {
                                lemma_insert_wf(inner, a, v);
                                lemma_put_wf(cm, cn, insert_key(inner, a, v));
                                lemma_put_globals_wf(
                                    st1.globals,
                                    ch,
                                    put_container(cm, cn, insert_key(inner, a, v)),
                                );
                            }
                        }
                    }
                }
            },
            _ => {},
        }
    }
}

proof fn lemma_container_body_seq_wf(
    st: RuntimeV,
    ch: Seq<char>,
    cn: Seq<char>,
    es: Seq<ExprV>,
    last: ValueV,
    o: NumOracle,
)
    requires
        value_wf(last),
    ensures
        keeps_wf(st, container_body_seq(st, ch, cn, es, last, o)),
    decreases es, 1nat,
{
    if es.len() > 0 {
        lemma_drop_first_decreases(es);
        lemma_container_body_wf(st, ch, cn, es[0], o);
        let (st1, r) = container_body(st, ch, cn, es[0], o);
        if let Ok(v) = r {
            if globals_wf(st.globals) {
                lemma_container_body_seq_wf(st1, ch, cn, es.drop_first(), v, o);
            }
        }
    }
}

proof fn lemma_exists_wf(st: RuntimeV, params: Seq<(Seq<char>, ExprV)>, o: NumOracle)
    ensures
        keeps_wf(st, eval_exists(st, params, o)),
    decreases params, 0nat,
{
    if params.len() > 0 {
        lemma_drop_first_decreases(params);
        lemma_eval_wf(st, params[0].1, o);
        lemma_exists_wf(st, params.drop_first(), o);
    }
}

proof fn lemma_if_keyword_wf(st: RuntimeV, params: Seq<(Seq<char>, ExprV)>, o: NumOracle)
    ensures
        keeps_wf(st, eval_if_keyword(st, params, o)),
    decreases params, 0nat,
{
    if params.len() > 0 {
        lemma_drop_first_decreases(params);
        lemma_eval_wf(st, params[0].1, o);
        lemma_if_keyword_wf(st, params.drop_first(), o);
    }
}

proof fn lemma_display_wf(st: RuntimeV, params: Seq<(Seq<char>, ExprV)>, o: NumOracle)
    ensures
        keeps_wf(st, eval_display(st, params, o)),
    decreases params, 0nat,
{
    if params.len() > 0 {
        lemma_drop_first_decreases(params);
        let (k, e) = params[0];
        lemma_eval_wf(st, e, o);
        let (st1, r) = eval_expr(st, e, o);
        if let Ok(v) = r {
            let st2 = match v {
                ValueV::Text(t) => with_line(st1, "[DISPLAY] "@ + t),
                _ => st1,
            };
            lemma_display_wf(st2, params.drop_first(), o);
            lemma_display_wf(st1, params.drop_first(), o);
        }
        lemma_display_wf(st, params.drop_first(), o);
    }
}

proof fn lemma_option_wf(
    st: RuntimeV,
    params: Seq<(Seq<char>, ExprV)>,
    text: Seq<char>,
    target: Seq<char>,
    o: NumOracle,
)
    ensures
        keeps_wf(st, eval_option(st, params, text, target, o)),
    decreases params, 0nat,
{
    if params.len() > 0 {
        lemma_drop_first_decreases(params);
        let (k, e) = params[0];
        lemma_eval_wf(st, e, o);
        let (st1, r) = eval_expr(st, e, o);
        let text2 = match r {
            Ok(ValueV::Text(t)) => t,
            _ => text,
        };
        let target2 = match e {
            ExprV::Keyword { name, params: gp } => if name == "goto"@ {
                goto_text(goto_target(gp))
            } else {
                target
            },
            _ => target,
        };
        lemma_option_wf(st1, params.drop_first(), text2, target, o);
        lemma_option_wf(st1, params.drop_first(), text, target, o);
        lemma_option_wf(st, params.drop_first(), text, target2, o);
        lemma_option_wf(st, params.drop_first(), text, target, o);
    }
}

proof fn lemma_as_wf(
    st: RuntimeV,
    params: Seq<(Seq<char>, ExprV)>,
    label: Seq<char>,
    text: Seq<char>,
    o: NumOracle,
)
    ensures
        keeps_wf(st, eval_as(st, params, label, text, o)),
    decreases params, 0nat,
{
    if params.len() > 0 {
        lemma_drop_first_decreases(params);
        let (k, e) = params[0];
        lemma_eval_wf(st, e, o);
        let (st1, r) = eval_expr(st, e, o);
        let label2 = match r {
            Ok(ValueV::Text(l)) => l,
            Ok(ValueV::Container(_)) => "Container"@,
            _ => label,
        };
        let text2 = match r {
            Ok(ValueV::Text(t)) => t,
            _ => text,
        };
        lemma_as_wf(st1, params.drop_first(), label2, text, o);
        lemma_as_wf(st1, params.drop_first(), label, text2, o);
        lemma_as_wf(st, params.drop_first(), label, text, o);
    }
}

proof fn lemma_chapter_wf(
    st: RuntimeV,
    params: Seq<(Seq<char>, ExprV)>,
    name: Seq<char>,
    text: Seq<char>,
    o: NumOracle,
)
    ensures
        keeps_wf(st, eval_chapter(st, params, name, text, o)),
    decreases params, 0nat,
{
    if params.len() > 0 {
        lemma_drop_first_decreases(params);
        let (k, e) = params[0];
        lemma_eval_wf(st, e, o);
        let (st1, r) = eval_expr(st, e, o);
        let text2 = match r {
            Ok(ValueV::Text(t)) => t,
            _ => text,
        };
        if let ExprV::Chapter(n) = e {
            lemma_chapter_wf(RuntimeV { chapter: Some(n), ..st }, params.drop_first(), n, text, o);
        }
        lemma_chapter_wf(st1, params.drop_first(), name, text2, o);
        lemma_chapter_wf(st, params.drop_first(), name, text, o);
    }
}

/// Every step keeps the characters well-formed: when each character is a
/// container and no container, at any depth, names an entry twice, the same
/// holds after evaluating any expression, and the value it yields has no
/// container that names an entry twice.
pub proof fn law_eval_keeps_globals_wf(st: RuntimeV, e: ExprV, o: NumOracle)
    requires
        globals_wf(st.globals),
    ensures
        globals_wf(eval_expr(st, e, o).0.globals),
        eval_expr(st, e, o).1 matches Ok(v) ==> value_wf(v),
{
    lemma_eval_wf(st, e, o);
}

// ---------------------------------------------------------------------------
// What a removal leaves
// ---------------------------------------------------------------------------

/// Once a name is removed from entries that name it once, it is gone.
proof fn lemma_remove_key_gone(m: Seq<(Seq<char>, ValueV)>, k: Seq<char>)
    requires
        keys_distinct(m),
        remove_key(m, k).1 is Some,
    ensures
        get_key(remove_key(m, k).0, k) is None,
{
    lemma_find_from(m, k, 0);
    let j = find_key(m, k)->Some_0;
    let m2 = m.remove(j as int);
    assert forall|i: int| 0 <= i < m2.len() implies m2[i].0 != k by {
        if i < j {
            assert(m2[i] == m[i]);
        } else {
            assert(m2[i] == m[i + 1]);
        }
    }
    lemma_find_none(m2, k, 0);
}

/// After a removal at `path` inside well-formed entries, the path leads
/// nowhere.
proof fn lemma_remove_from_container_gone(m: Seq<(Seq<char>, ValueV)>, path: ExprV)
    requires
        entries_wf(m),
        remove_from_container(m, path) is Ok,
    ensures
        follow_path(ValueV::Container(remove_from_container(m, path)->Ok_0.0), path) matches Err(
            ErrorV::Runtime(_),
        ),
    decreases path,
{
    match path {
        ExprV::Attribute(name) => {
            lemma_remove_key_gone(m, name);
        },
        ExprV::From { base, path: next } => {
            if let ExprV::Container(cn) = *base {
                lemma_get_wf(m, cn);
                let inner = container_in(m, cn)->Some_0;
                lemma_remove_from_container_gone(inner, *next);
                let inner2 = remove_from_container(inner, *next)->Ok_0.0;
                lemma_container_after_put(m, cn, inner2);
                let m2 = put_container(m, cn, inner2);
                assert(follow_path(ValueV::Container(m2), ExprV::Container(cn)) == Ok::<
                    ValueV,
                    ErrorV,
                >(ValueV::Container(inner2)));
            }
        },
        _ => {},
    }
}

proof fn lemma_remove_from_nested_container_gone(
    m: Seq<(Seq<char>, ValueV)>,
    inner: ExprV,
    final_path: ExprV,
)
    requires
        entries_wf(m),
        remove_from_nested_container(m, inner, final_path) is Ok,
    ensures
        follow_path(
            ValueV::Container(remove_from_nested_container(m, inner, final_path)->Ok_0.0),
            ExprV::From { base: Box::new(inner), path: Box::new(final_path) },
        ) matches Err(ErrorV::Runtime(_)),
    decreases inner,
{
    match inner {
        ExprV::Container(cn) => {
            lemma_get_wf(m, cn);
            let im = container_in(m, cn)->Some_0;
            lemma_remove_from_container_gone(im, final_path);
            let im2 = remove_from_container(im, final_path)->Ok_0.0;
            lemma_container_after_put(m, cn, im2);
            assert(follow_path(ValueV::Container(put_container(m, cn, im2)), ExprV::Container(cn))
                == Ok::<ValueV, ErrorV>(ValueV::Container(im2)));
        },
        ExprV::From { base, path: next } => {
            if let ExprV::Container(cn) = *base {
                lemma_get_wf(m, cn);
                let im = container_in(m, cn)->Some_0;
                lemma_remove_from_nested_container_gone(im, *next, final_path);
                let im2 = remove_from_nested_container(im, *next, final_path)->Ok_0.0;
                lemma_container_after_put(m, cn, im2);
                let m2 = put_container(m, cn, im2);
                assert(follow_path(ValueV::Container(m2), ExprV::Container(cn)) == Ok::<
                    ValueV,
                    ErrorV,
                >(ValueV::Container(im2)));
                assert(follow_path(ValueV::Container(m2), inner) == follow_path(
                    ValueV::Container(im2),
                    *next,
                ));
            }
        },
        _ => {},
    }
}

/// After a removal through `[[from: base]: path]` from well-formed
/// characters, reading the same place fails.
pub proof fn lemma_remove_via_path_gone(g: Seq<(Seq<char>, ValueV)>, base: ExprV, path: ExprV)
    requires
        globals_wf(g),
        remove_via_path(g, base, path) is Ok,
    ensures
        read_via_path(remove_via_path(g, base, path)->Ok_0.0, base, path) matches Err(
            ErrorV::Runtime(_),
        ),
{
    match base {
        ExprV::Character(cn) => {
            lemma_get_wf(g, cn);
            let cm = container_in(g, cn)->Some_0;
            match path {
                ExprV::Attribute(a) => {
                    lemma_remove_key_gone(cm, a);
                    lemma_container_after_put(g, cn, remove_key(cm, a).0);
                },
                ExprV::From { base: pb, path: next } => {
                    if let ExprV::Container(ctn) = *pb {
                        lemma_get_wf(cm, ctn);
                        let im = container_in(cm, ctn)->Some_0;
                        lemma_remove_from_container_gone(im, *next);
                        let im2 = remove_from_container(im, *next)->Ok_0.0;
                        lemma_container_after_put(cm, ctn, im2);
                        lemma_container_after_put(g, cn, put_container(cm, ctn, im2));
                        let cm2 = put_container(cm, ctn, im2);
                        assert(follow_path(ValueV::Container(cm2), ExprV::Container(ctn)) == Ok::<
                            ValueV,
                            ErrorV,
                        >(ValueV::Container(im2)));
                    }
                },
                _ => {},
            }
        },
        ExprV::From { base: ib, path: ip } => {
            if let ExprV::Character(cn) = *ib {
                lemma_get_wf(g, cn);
                let cm = container_in(g, cn)->Some_0;
                match *ip {
                    ExprV::Container(ctn) => {
                        lemma_get_wf(cm, ctn);
                        let im = container_in(cm, ctn)->Some_0;
                        lemma_remove_from_container_gone(im, path);
                        let im2 = remove_from_container(im, path)->Ok_0.0;
                        lemma_container_after_put(cm, ctn, im2);
                        lemma_container_after_put(g, cn, put_container(cm, ctn, im2));
                        let cm2 = put_container(cm, ctn, im2);
                        assert(follow_path(ValueV::Container(cm2), ExprV::Container(ctn)) == Ok::<
                            ValueV,
                            ErrorV,
                        >(ValueV::Container(im2)));
                    },
                    ExprV::From { base: nb, path: next } => {
                        if let ExprV::Container(ctn) = *nb {
                            lemma_get_wf(cm, ctn);
                            let im = container_in(cm, ctn)->Some_0;
                            lemma_remove_from_nested_container_gone(im, *next, path);
                            let im2 = remove_from_nested_container(im, *next, path)->Ok_0.0;
                            lemma_container_after_put(cm, ctn, im2);
                            lemma_container_after_put(g, cn, put_container(cm, ctn, im2));
                            let cm2 = put_container(cm, ctn, im2);
                            assert(follow_path(ValueV::Container(cm2), ExprV::Container(ctn))
                                == Ok::<ValueV, ErrorV>(ValueV::Container(im2)));
                            assert(follow_path(ValueV::Container(cm2), *ip) == follow_path(
                                ValueV::Container(im2),
                                *next,
                            ));
                        }
                    },
                    _ => {},
                }
            }
        },
        _ => {},
    }
}

/// `[[add: [[from: base]: path]]: value]`.
pub open spec fn add_expr(base: ExprV, path: ExprV, value: ExprV) -> ExprV {
    ExprV::Add { target: Box::new(from_expr(base, path)), value: Box::new(value) }
}

/// An addition reads back: once `[[add: [[from: base]: path]]: value]` has
/// stored its result (the sum, or the value itself where the place was
/// empty), `[[from: base]: path]` gives that result.
pub proof fn law_add_then_get(st: RuntimeV, base: ExprV, path: ExprV, value: ExprV, o: NumOracle)
    requires
        eval_expr(st, add_expr(base, path, value), o).1 is Ok,
    ensures
        ({
            let (st1, r) = eval_expr(st, add_expr(base, path, value), o);
            eval_expr(st1, from_expr(base, path), o) == (st1, r)
        }),
{
    let (st0, rv) = eval_expr(st, value, o);
    let v = rv->Ok_0;
    let (st2, rb) = eval_expr(st0, base, o);
    let existing = match rb {
        Ok(bv) => follow_path(bv, path),
        Err(err) => Err(err),
    };
    let sum = match existing {
        Ok(ex) => match (ex, v) {
            (ValueV::Number(n), ValueV::Number(m)) => Ok(
                ValueV::Number(o(NumQueryV::Arith(ArithOp::Add, n, m)).value),
            ),
            (ValueV::Item, ValueV::Item) => Ok(ValueV::Item),
            _ => Err(ErrorV::Type("Cannot add values of different types"@)),
        },
        Err(_) => Ok(v),
    };
    let sv = sum->Ok_0;
    let g1 = set_via_path(st2.globals, base, path, sv)->Ok_0;
    let st1 = RuntimeV { globals: g1, ..st2 };
    assert(eval_expr(st, add_expr(base, path, value), o) == (st1, Ok::<ValueV, ErrorV>(sv)));
    lemma_set_via_path_reads_back(st2.globals, base, path, sv);
    match base {
        ExprV::Character(cn) => {
            let c = get_key(g1, cn)->Some_0;
            assert(eval_expr(st1, base, o) == (st1, Ok::<ValueV, ErrorV>(c)));
        },
        ExprV::From { base: ib, path: ip } => {
            if let ExprV::Character(cn) = *ib {
                let c = get_key(g1, cn)->Some_0;
                assert(eval_expr(st1, *ib, o) == (st1, Ok::<ValueV, ErrorV>(c)));
                assert(eval_expr(st1, base, o) == (st1, follow_path(c, *ip)));
            }
        },
        _ => {},
    }
}

/// A write touches only its place: once `[[set: [[from: [character: cn]]:
/// [attribute: a]]]: value]` has set a value, every other character, and
/// every other attribute of `cn`, reads as it did before the write (after
/// `value` was evaluated).
pub proof fn law_set_leaves_other_places(
    st: RuntimeV,
    cn: Seq<char>,
    a: Seq<char>,
    value: ExprV,
    o: NumOracle,
    other_character: Seq<char>,
    other_attribute: Seq<char>,
)
    requires
        eval_expr(st, set_expr(ExprV::Character(cn), ExprV::Attribute(a), value), o).1 is Ok,
        other_character != cn,
        other_attribute != a,
    ensures
        ({
            let before = eval_expr(st, value, o).0.globals;
            let after = eval_expr(st, set_expr(ExprV::Character(cn), ExprV::Attribute(a), value), o).0.globals;
            &&& get_key(after, other_character) == get_key(before, other_character)
            &&& read_via_path(after, ExprV::Character(cn), ExprV::Attribute(other_attribute))
                == read_via_path(before, ExprV::Character(cn), ExprV::Attribute(other_attribute))
        }),
{
    let (st0, rv) = eval_expr(st, value, o);
    let v = rv->Ok_0;
    let g = st0.globals;
    let cm = container_in(g, cn)->Some_0;
    let g2 = put_container(g, cn, insert_key(cm, a, v));
    assert(eval_expr(st, set_expr(ExprV::Character(cn), ExprV::Attribute(a), value), o).0.globals == g2);
    lemma_get_other_after_insert(g, cn, ValueV::Container(insert_key(cm, a, v)), other_character);
    lemma_container_after_put(g, cn, insert_key(cm, a, v));
    lemma_get_other_after_insert(cm, a, v, other_attribute);
}

/// `[[remove: [[from: base]: path]]]`.
pub open spec fn remove_expr(base: ExprV, path: ExprV) -> ExprV {
    ExprV::Remove { target: Box::new(from_expr(base, path)) }
}

/// A removal is final: once `[[remove: [[from: base]: path]]]` has removed
/// an entry from well-formed characters, `[[from: base]: path]` fails with
/// a runtime error, and `[exists: [[from: base]: path]]` does not hold.
pub proof fn law_remove_then_absent(st: RuntimeV, base: ExprV, path: ExprV, o: NumOracle)
    requires
        globals_wf(st.globals),
        eval_expr(st, remove_expr(base, path), o).1 is Ok,
    ensures
        ({
            let st1 = eval_expr(st, remove_expr(base, path), o).0;
            &&& eval_expr(st1, from_expr(base, path), o) matches (s, Err(ErrorV::Runtime(_)))
                && s == st1
            &&& eval_expr(st1, exists_expr(from_expr(base, path)), o) == (st1, Ok::<
                ValueV,
                ErrorV,
            >(ValueV::Flag(false)))
        }),
{
    let g = st.globals;
    let g1 = remove_via_path(g, base, path)->Ok_0.0;
    let st1 = RuntimeV { globals: g1, ..st };
    lemma_remove_via_path_gone(g, base, path);
    assert(eval_expr(st, remove_expr(base, path), o).0 == st1);
    match base {
        ExprV::Character(cn) => {
            assert(eval_expr(st1, base, o) == (st1, match get_key(g1, cn) {
                Some(c) => Ok::<ValueV, ErrorV>(c),
                None => Err(ErrorV::Name("Undefined character: "@ + cn)),
            }));
        },
        ExprV::From { base: ib, path: ip } => {
            if let ExprV::Character(cn) = *ib {
                let c = get_key(g1, cn)->Some_0;
                assert(eval_expr(st1, *ib, o) == (st1, Ok::<ValueV, ErrorV>(c)));
                assert(eval_expr(st1, base, o) == (st1, follow_path(c, *ip)));
            }
        },
        _ => {},
    }
    assert(eval_expr(st1, from_expr(base, path), o) == (st1, read_via_path(g1, base, path)));
    let params = seq![("body"@, from_expr(base, path))];
    assert(params[0].0 == "body"@);
    assert(crate::semantics::eval_exists(st1, params, o) == (st1, Ok::<ValueV, ErrorV>(
        ValueV::Flag(false),
    )));
}

/// Running a program keeps the characters well-formed, whether it runs to
/// its end or stops at an error.
pub proof fn law_program_keeps_globals_wf(st: RuntimeV, es: Seq<ExprV>, idx: nat, o: NumOracle)
    requires
        globals_wf(st.globals),
    ensures
        globals_wf(run_program(st, es, idx, o).0.globals),
    decreases es.len(),
{
    if es.len() > 0 {
        lemma_eval_wf(st, es[0], o);
        let (st1, r) = eval_expr(st, es[0], o);
        if r is Ok {
            law_program_keeps_globals_wf(st1, es.drop_first(), idx + 1, o);
        }
    }
}

/// A fresh story has no characters, which are well-formed.
pub proof fn law_fresh_globals_wf()
    ensures
        globals_wf(Seq::empty()),
{
}

} // verus!
