//! The interactive engine: runs a story up to each display, then moves to
//! the place of the option the player picks.
//!
//! The engine decides; the program around it shows the lines that
//! `display_lines` gives, reads the player's answer (`parse_choice`) and
//! hands the choice back (`select_option`).
use vstd::prelude::*;
use crate::error::{ErrorV, PslError};
use crate::lexer::{spec_tokenize, tokenize};
use crate::parser::{exprs_model, parse, spec_parse, Expr, ExprV};
use crate::runtime::{answers_by, lines_view, options_view, Runtime};
use crate::semantics::{eval_expr, NumAnswer, NumOracle, NumQuery, RuntimeV};
use crate::text::{
    chars_start_with, push_str, str_eq, str_trim, string_of, string_push, to_chars,
};

verus! {

/// The program of a story: its tokens parsed, or the first error.
pub open spec fn spec_load(source: Seq<char>) -> Result<Seq<ExprV>, ErrorV> {
    match spec_tokenize(source) {
        Ok(ts) => spec_parse(ts),
        Err(e) => Err(e),
    }
}

/// The state of an engine: the program, the story state and the position of
/// the next expression to run.
pub struct EngineV {
    pub program: Seq<ExprV>,
    pub state: RuntimeV,
    pub index: nat,
}

/// A fresh story state.
pub open spec fn fresh_state() -> RuntimeV {
    RuntimeV {
        globals: Seq::empty(),
        chapter: None,
        section: None,
        output: Seq::empty(),
        options: Seq::empty(),
    }
}

/// Whether `e` is a `display` statement.
pub open spec fn is_display(e: ExprV) -> bool {
    e matches ExprV::Keyword { name, .. } && name == "display"@
}

/// Runs the program from `index` on until a display has run (`Ok(true)`,
/// with the position after it) or the program ends (`Ok(false)`); an error
/// stops it where it stands.
pub open spec fn run_until_display(st: RuntimeV, program: Seq<ExprV>, index: nat, o: NumOracle) -> (
    RuntimeV,
    nat,
    Result<bool, ErrorV>,
)
    decreases program.len() - index,
{
    if index >= program.len() {
        (st, index, Ok(false))
    } else {
        let (st1, r) = eval_expr(st, program[index as int], o);
        match r {
            Err(e) => (st1, index, Err(e)),
            Ok(_) => if is_display(program[index as int]) {
                (st1, index + 1, Ok(true))
            } else {
                run_until_display(st1, program, index + 1, o)
            },
        }
    }
}

/// The engine stops right after the first display it runs: when it stops
/// on a display, that display is the expression just before its new
/// position and none came between; when the story ends, no display was
/// left to run.
pub proof fn law_stops_right_after_display(st: RuntimeV, program: Seq<ExprV>, index: nat, o: NumOracle)
    ensures
        ({
            let (_, i, r) = run_until_display(st, program, index, o);
            &&& r == Ok::<bool, ErrorV>(true) ==> index < i <= program.len() && is_display(
                program[i - 1],
            ) && forall|j: int| index <= j < i - 1 ==> !is_display(#[trigger] program[j])
            &&& r == Ok::<bool, ErrorV>(false) ==> (index >= program.len() ==> i == index) && (
            index < program.len() ==> i == program.len()) && forall|j: int|
                index <= j < program.len() ==> !is_display(#[trigger] program[j])
        }),
    decreases program.len() - index,
{
    if index < program.len() {
        let (st1, r) = eval_expr(st, program[index as int], o);
        if r is Ok && !is_display(program[index as int]) {
            law_stops_right_after_display(st1, program, index + 1, o);
        }
    }
}

/// The place an option's target names: `chapter::name` (true) or
/// `section::name` (false).
pub open spec fn place_of(target: Seq<char>) -> Option<(bool, Seq<char>)> {
    if "chapter::"@.is_prefix_of(target) {
        Some((true, target.skip("chapter::"@.len() as int)))
    } else if "section::"@.is_prefix_of(target) {
        Some((false, target.skip("section::"@.len() as int)))
    } else {
        None
    }
}

/// Whether one of the parameters is `("id", [chapter: name])`.
pub open spec fn names_chapter(params: Seq<(Seq<char>, ExprV)>, name: Seq<char>) -> bool {
    exists|i: int| 0 <= i < params.len() && #[trigger] params[i] == ("id"@, ExprV::Chapter(name))
}

/// Whether `e` marks the place: `[chapter: name]` or `[[chapter: name]: ..]`
/// for a chapter, `[section: name]` for a section.
pub open spec fn marks_place(e: ExprV, chapter: bool, name: Seq<char>) -> bool {
    match e {
        ExprV::Chapter(n) => chapter && n == name,
        ExprV::Section(n) => !chapter && n == name,
        ExprV::Keyword { name: kw, params } => chapter && kw == "chapter"@ && names_chapter(
            params,
            name,
        ),
        _ => false,
    }
}

/// The first position from `i` on whose expression marks the place.
pub open spec fn find_mark(program: Seq<ExprV>, chapter: bool, name: Seq<char>, i: nat) -> Option<nat>
    decreases program.len() - i,
{
    if i >= program.len() {
        None
    } else if marks_place(program[i as int], chapter, name) {
        Some(i)
    } else {
        find_mark(program, chapter, name, i + 1)
    }
}

/// Where the engine continues after choosing an option with `target`: just
/// after the first mark of the place, or where it was.
pub open spec fn navigate(program: Seq<ExprV>, index: nat, target: Seq<char>) -> nat {
    match place_of(target) {
        Some((chapter, name)) => match find_mark(program, chapter, name, 0) {
            Some(i) => i + 1,
            None => index,
        },
        None => index,
    }
}

proof fn lemma_find_first_mark(program: Seq<ExprV>, chapter: bool, name: Seq<char>, k: nat, i: nat)
    requires
        i <= k < program.len(),
        marks_place(program[k as int], chapter, name),
        forall|j: int| i <= j < k ==> !marks_place(#[trigger] program[j], chapter, name),
    ensures
        find_mark(program, chapter, name, i) == Some(k),
    decreases k - i,
{
    if i < k {
        lemma_find_first_mark(program, chapter, name, k, i + 1);
    }
}

/// Whether `e` is a chapter marker or heading: `[chapter: name]`, or a
/// `[[chapter: ..]: ..]` statement.
pub open spec fn chapter_like(e: ExprV, name: Seq<char>) -> bool {
    match e {
        ExprV::Chapter(n) => n == name,
        ExprV::Keyword { name: kw, .. } => kw == "chapter"@,
        _ => false,
    }
}

/// Choosing an option goes to its place: the target `chapter::n` leads just
/// past the first `[chapter: n]` (or `[[chapter: n]: heading]`) of the
/// program, and `section::n` just past the first `[section: n]`, wherever
/// the engine stood.
pub proof fn law_goto_lands_after_first_mark(program: Seq<ExprV>, index: nat, n: Seq<char>, k: nat, heading: ExprV)
    requires
        k < program.len(),
    ensures
        (program[k as int] == ExprV::Chapter(n) || program[k as int] == ExprV::Keyword {
            name: "chapter"@,
            params: seq![("id"@, ExprV::Chapter(n)), ("body"@, heading)],
        }) && (forall|j: int| 0 <= j < k ==> !chapter_like(#[trigger] program[j], n)) ==> navigate(
            program,
            index,
            "chapter::"@ + n,
        ) == k + 1,
        program[k as int] == ExprV::Section(n) && (forall|j: int|
            0 <= j < k ==> #[trigger] program[j] != ExprV::Section(n)) ==> navigate(
            program,
            index,
            "section::"@ + n,
        ) == k + 1,
{
    reveal_strlit("chapter::");
    reveal_strlit("section::");
    reveal_strlit("chapter");
    reveal_strlit("id");
    let c = "chapter::"@ + n;
    assert("chapter::"@.is_prefix_of(c));
    assert(c.skip("chapter::"@.len() as int) =~= n);
    assert(place_of(c) == Some((true, n)));
    let t = "section::"@ + n;
    assert(!"chapter::"@.is_prefix_of(t)) by {
        assert(t[0] != "chapter::"@[0]);
    }
    assert("section::"@.is_prefix_of(t));
    assert(t.skip("section::"@.len() as int) =~= n);
    assert(place_of(t) == Some((false, n)));
    if (program[k as int] == ExprV::Chapter(n) || program[k as int] == ExprV::Keyword {
        name: "chapter"@,
        params: seq![("id"@, ExprV::Chapter(n)), ("body"@, heading)],
    }) && (forall|j: int| 0 <= j < k ==> !chapter_like(#[trigger] program[j], n)) {
        if program[k as int] != ExprV::Chapter(n) {
            let ps = seq![("id"@, ExprV::Chapter(n)), ("body"@, heading)];
            assert(ps[0] == ("id"@, ExprV::Chapter(n)));
            assert(names_chapter(ps, n));
        }
        assert forall|j: int| 0 <= j < k implies !marks_place(#[trigger] program[j], true, n) by {
            assert(!chapter_like(program[j], n));
        }
        lemma_find_first_mark(program, true, n, k, 0);
    }
    if program[k as int] == ExprV::Section(n) && (forall|j: int|
        0 <= j < k ==> #[trigger] program[j] != ExprV::Section(n)) {
        assert forall|j: int| 0 <= j < k implies !marks_place(#[trigger] program[j], false, n) by {
            assert(program[j] != ExprV::Section(n));
        }
        lemma_find_first_mark(program, false, n, k, 0);
    }
}

/// Runs a PSL story a display at a time.
pub struct GameEngine<F: Fn(NumQuery) -> NumAnswer> {
    program: Vec<Expr>,
    runtime: Runtime<F>,
    current_index: usize,
}

impl<F: Fn(NumQuery) -> NumAnswer> View for GameEngine<F> {
    type V = EngineV;

    closed spec fn view(&self) -> EngineV {
        EngineV {
            program: exprs_model(self.program@),
            state: self.runtime@,
            index: self.current_index as nat,
        }
    }
}

impl<F: Fn(NumQuery) -> NumAnswer> GameEngine<F> {
    /// The number function answers as the model says.
    pub closed spec fn wf(&self) -> bool {
        self.runtime.wf()
    }

    /// How the engine's number function answers.
    pub closed spec fn numbers(&self) -> NumOracle {
        self.runtime.numbers()
    }

    /// An engine for the story `source`, at its beginning, or the first
    /// lexing or parsing error.
    pub fn new(source: &str, numbers: F) -> (r: Result<Self, PslError>)
        requires
            source@.len() < usize::MAX,
            exists|o: NumOracle| answers_by(numbers, o),
        ensures
            match r {
                Ok(g) => {
                    &&& spec_load(source@) == Ok::<Seq<ExprV>, ErrorV>(g@.program)
                    &&& g@.state == fresh_state()
                    &&& g@.index == 0
                    &&& answers_by(numbers, g.numbers())
                    &&& g.wf()
                },
                Err(e) => spec_load(source@) == Err::<Seq<ExprV>, ErrorV>(e@),
            },
    {
        let tokens = match tokenize(source) {
            Ok(ts) => ts,
            Err(e) => {
                return Err(e);
            },
        };
        let program = match parse(tokens) {
            Ok(p) => p,
            Err(e) => {
                return Err(e);
            },
        };
        let runtime = Runtime::new(numbers);
        Ok(GameEngine { program, runtime, current_index: 0 })
    }

    /// The lines of output since the last choice.
    pub fn get_output(&self) -> (r: &[String])
        ensures
            lines_view(r@) == self@.state.output,
    {
        self.runtime.get_output()
    }

    /// The options offered since the last choice, as (text, target) pairs.
    pub fn get_options(&self) -> (r: &[(String, String)])
        ensures
            options_view(r@) == self@.state.options,
    {
        self.runtime.get_options()
    }

    /// Runs the story until a display has run (`Ok(true)`) or the story
    /// ends (`Ok(false)`); the first error stops it.
    pub fn execute_until_display(&mut self) -> (r: Result<bool, PslError>)
        requires
            old(self).wf(),
        ensures
            final(self).wf(),
            final(self).numbers() == old(self).numbers(),
            final(self)@.program == old(self)@.program,
            ({
                let (st, index, res) = run_until_display(
                    old(self)@.state,
                    old(self)@.program,
                    old(self)@.index,
                    old(self).numbers(),
                );
                &&& final(self)@.state == st
                &&& final(self)@.index == index
                &&& match r {
                    Ok(b) => res == Ok::<bool, ErrorV>(b),
                    Err(e) => res == Err::<bool, ErrorV>(e@),
                }
            }),
    {
        let ghost prog = exprs_model(self.program@);
        let ghost o = self.runtime.numbers();
        proof {
            crate::parser::lemma_exprs_model_len(self.program@);
        }
        while self.current_index < self.program.len()
            invariant
                prog == old(self)@.program,
                o == old(self).numbers(),
                self.runtime.wf(),
                self.runtime.numbers() == o,
                exprs_model(self.program@) == prog,
                prog.len() == self.program@.len(),
                forall|j: int| 0 <= j < self.program@.len() ==> #[trigger] prog[j] == self.program@[j]@,
                run_until_display(old(self)@.state, prog, old(self)@.index, o) == run_until_display(
                    self.runtime@,
                    prog,
                    self.current_index as nat,
                    o,
                ),
            decreases self.program.len() - self.current_index,
        {
            let i = self.current_index;
            let is_display = match &self.program[i] {
                Expr::Keyword { name, .. } => str_eq(name.as_str(), "display"),
                _ => false,
            };
            match self.runtime.eval(&self.program[i]) {
                Ok(_) => {},
                Err(e) => {
                    return Err(e);
                },
            }
            self.current_index = i + 1;
            if is_display {
                return Ok(true);
            }
        }
        Ok(false)
    }

    /// Whether `e` marks the place `name` (a chapter when `chapter`).
    #[verifier::loop_isolation(false)]
    fn marks(e: &Expr, chapter: bool, name: &str) -> (r: bool)
        ensures
            r == marks_place(e@, chapter, name@),
    {
        proof {
            reveal_with_fuel(Expr::model, 2);
        }
        if chapter {
            match e {
                Expr::Chapter(n) => str_eq(n.as_str(), name),
                Expr::Keyword { name: kw, params } => {
                    if !str_eq(kw.as_str(), "chapter") {
                        return false;
                    }
                    let ghost ps = crate::parser::params_model(params@);
                    proof {
                        crate::runtime::lemma_params_model(params@);
                    }
                    let mut i: usize = 0;
                    while i < params.len()
                        invariant
                            i <= params.len(),
                            ps == crate::parser::params_model(params@),
                            ps.len() == params@.len(),
                            forall|j: int| 0 <= j < params@.len() ==> #[trigger] ps[j] == (params@[j].0@, params@[j].1@),
                            forall|j: int| 0 <= j < i ==> #[trigger] ps[j] != ("id"@, ExprV::Chapter(name@)),
                        decreases params.len() - i,
                    {
                        let found = str_eq(params[i].0.as_str(), "id") && match &params[i].1 {
                            Expr::Chapter(n) => str_eq(n.as_str(), name),
                            _ => false,
                        };
                        if found {
                            assert(ps[i as int] == ("id"@, ExprV::Chapter(name@)));
                            assert(e@ == ExprV::Keyword { name: kw@, params: ps });
                            assert(names_chapter(ps, name@));
                            return true;
                        }
                        i = i + 1;
                    }
                    false
                },
                _ => false,
            }
        } else {
            match e {
                Expr::Section(n) => str_eq(n.as_str(), name),
                _ => false,
            }
        }
    }

    /// Moves to the place that `target` names (`chapter::name` or
    /// `section::name`): just after the first expression that marks it.
    /// Where there is no such mark, or the target names no place, the
    /// position stays.
    pub fn navigate_to_target(&mut self, target: &str) -> (r: Result<(), PslError>)
        ensures
            r is Ok,
            final(self)@ == (EngineV {
                index: navigate(old(self)@.program, old(self)@.index, target@),
                ..old(self)@
            }),
            final(self).numbers() == old(self).numbers(),
            final(self).wf() == old(self).wf(),
    {
        let cs = to_chars(target);
        let (chapter, name) = if chars_start_with(&cs, "chapter::") {
            let k = to_chars("chapter::").len();
            (true, string_of(&cs, k, cs.len()))
        } else if chars_start_with(&cs, "section::") {
            let k = to_chars("section::").len();
            (false, string_of(&cs, k, cs.len()))
        } else {
            return Ok(());
        };
        proof {
            assert(cs@.subrange(
                if chapter { "chapter::"@.len() as int } else { "section::"@.len() as int },
                cs@.len() as int,
            ) =~= target@.skip(
                if chapter { "chapter::"@.len() as int } else { "section::"@.len() as int },
            ));
        }
        let ghost prog = exprs_model(self.program@);
        proof {
            crate::parser::lemma_exprs_model_len(self.program@);
        }
        let mut idx: usize = 0;
        while idx < self.program.len()
            invariant
                self.program@ == old(self).program@,
                self.runtime == old(self).runtime,
                self.current_index == old(self).current_index,
                place_of(target@) == Some((chapter, name@)),
                idx <= self.program.len(),
                exprs_model(self.program@) == prog,
                prog.len() == self.program@.len(),
                forall|j: int| 0 <= j < self.program@.len() ==> #[trigger] prog[j] == self.program@[j]@,
                find_mark(prog, chapter, name@, 0) == find_mark(prog, chapter, name@, idx as nat),
            decreases self.program.len() - idx,
        {
            if Self::marks(&self.program[idx], chapter, name.as_str()) {
                self.current_index = idx + 1;
                return Ok(());
            }
            idx = idx + 1;
        }
        Ok(())
    }

    /// Takes the option numbered `choice` (from 0): forgets the output and
    /// the options, moves to the option's place, and gives the option's
    /// text.
    pub fn select_option(&mut self, choice: usize) -> (text: String)
        requires
            old(self).wf(),
            choice < old(self)@.state.options.len(),
        ensures
            text@ == old(self)@.state.options[choice as int].0,
            final(self)@ == (EngineV {
                state: RuntimeV { output: Seq::empty(), options: Seq::empty(), ..old(self)@.state },
                index: navigate(
                    old(self)@.program,
                    old(self)@.index,
                    old(self)@.state.options[choice as int].1,
                ),
                ..old(self)@
            }),
            final(self).numbers() == old(self).numbers(),
            final(self).wf(),
    {
        let options = self.runtime.get_options();
        proof {
            assert(options_view(options@)[choice as int] == (options@[choice as int].0@, options@[choice as int].1@));
        }
        let text = options[choice].0.clone();
        let target = options[choice].1.clone();
        self.runtime.clear_output();
        let _ = self.navigate_to_target(target.as_str());
        text
    }
}

// ---------------------------------------------------------------------------
// What the player sees
// ---------------------------------------------------------------------------

/// `s` without the prefix `p`, or nothing when `s` does not start with it.
pub open spec fn after_prefix(s: Seq<char>, p: Seq<char>) -> Seq<char> {
    if p.is_prefix_of(s) {
        s.skip(p.len() as int)
    } else {
        Seq::empty()
    }
}

/// The first position from `i` on where `"] "` starts in `c`.
pub open spec fn mark_from(c: Seq<char>, i: nat) -> Option<nat>
    decreases c.len() - i,
{
    if i + 1 >= c.len() {
        None
    } else if c[i as int] == ']' && c[i + 1 as int] == ' ' {
        Some(i)
    } else {
        mark_from(c, i + 1)
    }
}

/// `c` split at its first `"] "`, when it holds one.
pub open spec fn split_label(c: Seq<char>) -> Option<(Seq<char>, Seq<char>)> {
    match mark_from(c, 0) {
        Some(i) => Some((c.take(i as int), c.skip((i + 2) as int))),
        None => None,
    }
}

/// `x` padded with spaces to 38 characters.
pub open spec fn pad38(x: Seq<char>) -> Seq<char> {
    if x.len() < 38 {
        x + Seq::new((38 - x.len()) as nat, |i: int| ' ')
    } else {
        x
    }
}

/// The lines the player sees for a line of story output:
/// - `[CHAPTER: name] text`: the text in a box (nothing without a `] `);
/// - `[AS: label] text`: `label: text` and an empty line (the content as it
///   is where there is no `] `);
/// - `[TEXT] text`: the text and an empty line;
/// - `[DISPLAY] text`: the text after a prompt mark;
/// - `[LOCATION: ...]`: nothing; any other line as it is.
pub open spec fn display_lines_of(s: Seq<char>) -> Seq<Seq<char>> {
    if "[CHAPTER:"@.is_prefix_of(s) {
        let content = after_prefix(s, "[CHAPTER: "@);
        match split_label(content) {
            Some((_, heading)) => seq![
                "\n╔════════════════════════════════════════╗"@,
                "║ "@ + pad38(heading) + " ║"@,
                "╚════════════════════════════════════════╝\n"@,
            ],
            None => Seq::empty(),
        }
    } else if "[AS:"@.is_prefix_of(s) {
        let content = after_prefix(s, "[AS: "@);
        match split_label(content) {
            Some((label, text)) => seq![label + ": "@ + text + "\n"@],
            None => seq![content + "\n"@],
        }
    } else if "[TEXT]"@.is_prefix_of(s) {
        seq![after_prefix(s, "[TEXT] "@) + "\n"@]
    } else if "[DISPLAY]"@.is_prefix_of(s) {
        seq!["╭─ "@ + after_prefix(s, "[DISPLAY] "@)]
    } else if "[LOCATION:"@.is_prefix_of(s) {
        Seq::empty()
    } else {
        seq![s]
    }
}

proof fn lemma_mark_at(c: Seq<char>, k: nat, i: nat)
    requires
        i <= k,
        k + 1 < c.len(),
        c[k as int] == ']',
        c[k + 1 as int] == ' ',
        forall|j: int| i <= j < k ==> c[j] != ']',
    ensures
        mark_from(c, i) == Some(k),
    decreases k - i,
{
    if i < k {
        lemma_mark_at(c, k, i + 1);
    }
}

/// The story's own lines are shown: a chapter heading `[CHAPTER: name]
/// text` shows `text` in a box, and narration `[AS: label] text` shows
/// `label: text`, whenever the name or label holds no `]`.
pub proof fn law_headings_and_speakers_shown(name: Seq<char>, text: Seq<char>)
    requires
        forall|j: int| 0 <= j < name.len() ==> name[j] != ']',
    ensures
        display_lines_of("[CHAPTER: "@ + name + "] "@ + text) == seq![
            "\n╔════════════════════════════════════════╗"@,
            "║ "@ + pad38(text) + " ║"@,
            "╚════════════════════════════════════════╝\n"@,
        ],
        display_lines_of("[AS: "@ + name + "] "@ + text) == seq![name + ": "@ + text + "\n"@],
{
    reveal_strlit("[CHAPTER: ");
    reveal_strlit("[CHAPTER:");
    reveal_strlit("[AS: ");
    reveal_strlit("[AS:");
    reveal_strlit("] ");
    let c = name + "] "@ + text;
    lemma_mark_at(c, name.len(), 0);
    assert(c.take(name.len() as int) =~= name);
    assert(c.skip(name.len() + 2 as int) =~= text);
    let s1 = "[CHAPTER: "@ + name + "] "@ + text;
    assert("[CHAPTER:"@.is_prefix_of(s1));
    assert("[CHAPTER: "@.is_prefix_of(s1));
    assert(s1.skip("[CHAPTER: "@.len() as int) =~= c);
    let s2 = "[AS: "@ + name + "] "@ + text;
    assert(!"[CHAPTER:"@.is_prefix_of(s2)) by {
        assert(s2[1] != "[CHAPTER:"@[1]);
    }
    assert("[AS:"@.is_prefix_of(s2));
    assert("[AS: "@.is_prefix_of(s2));
    assert(s2.skip("[AS: "@.len() as int) =~= c);
}

/// `s` without the prefix `p`, or nothing.
fn cut_prefix(cs: &Vec<char>, p: &str) -> (r: Vec<char>)
    ensures
        r@ == after_prefix(cs@, p@),
{
    if chars_start_with(cs, p) {
        let k = to_chars(p).len();
        let mut r: Vec<char> = Vec::new();
        let mut i: usize = k;
        while i < cs.len()
            invariant
                k == p@.len(),
                k <= i <= cs.len(),
                r@ == cs@.subrange(k as int, i as int),
            decreases cs.len() - i,
        {
            r.push(cs[i]);
            proof {
                assert(cs@.subrange(k as int, i + 1) =~= cs@.subrange(k as int, i as int).push(cs@[i as int]));
            }
            i = i + 1;
        }
        proof {
            assert(cs@.skip(k as int) =~= cs@.subrange(k as int, cs@.len() as int));
        }
        r
    } else {
        Vec::new()
    }
}

/// The first position of `"] "` in `c`.
fn find_label_mark(c: &Vec<char>) -> (r: Option<usize>)
    ensures
        match r {
            Some(i) => mark_from(c@, 0) == Some(i as nat) && i + 2 <= c@.len(),
            None => mark_from(c@, 0) is None,
        },
{
    let mut i: usize = 0;
    while i < c.len()
        invariant
            i <= c.len(),
            mark_from(c@, 0) == mark_from(c@, i as nat),
        decreases c.len() - i,
    {
        if c[i] == ']' && i + 1 < c.len() && c[i + 1] == ' ' {
            return Some(i);
        }
        i = i + 1;
    }
    None
}

/// The lines the player sees for a line of story output (see
/// `display_lines_of`).
pub fn display_lines(line: &str) -> (r: Vec<String>)
    ensures
        lines_view(r@) == display_lines_of(line@),
{
    let cs = to_chars(line);
    let mut out: Vec<String> = Vec::new();
    if chars_start_with(&cs, "[CHAPTER:") {
        let content = cut_prefix(&cs, "[CHAPTER: ");
        match find_label_mark(&content) {
            Some(i) => {
                let clen = content.len();
                let mut heading = string_of(&content, i + 2, clen);
                let n = clen - (i + 2);
                let mut k: usize = n;
                while k < 38
                    invariant
                        i + 2 <= content@.len(),
                        n == content@.len() - (i + 2),
                        n <= k <= 38 || (n >= 38 && k == n),
                        heading@ == content@.skip(i + 2) + Seq::new((k - n) as nat, |j: int| ' '),
                    decreases 38 - k,
                {
                    string_push(&mut heading, ' ');
                    proof {
                        assert(heading@ =~= content@.skip(i + 2) + Seq::new((k + 1 - n) as nat, |j: int| ' '));
                    }
                    k = k + 1;
                }
                proof {
                    let h = content@.skip(i + 2);
                    assert(h.len() == n);
                    if n >= 38 {
                        assert(heading@ =~= h);
                    }
                    assert(heading@ == pad38(h));
                }
                let mut middle = String::from_str("║ ");
                push_str(&mut middle, heading.as_str());
                push_str(&mut middle, " ║");
                out.push(String::from_str("\n╔════════════════════════════════════════╗"));
                out.push(middle);
                out.push(String::from_str("╚════════════════════════════════════════╝\n"));
            },
            None => {},
        }
    } else if chars_start_with(&cs, "[AS:") {
        let content = cut_prefix(&cs, "[AS: ");
        match find_label_mark(&content) {
            Some(i) => {
                let clen = content.len();
                let mut s = string_of(&content, 0, i);
                push_str(&mut s, ": ");
                let rest = string_of(&content, i + 2, clen);
                push_str(&mut s, rest.as_str());
                push_str(&mut s, "\n");
                proof {
                    assert(content@.subrange(0, i as int) =~= content@.take(i as int));
                    assert(content@.subrange(i + 2, content@.len() as int) =~= content@.skip(i + 2));
                }
                out.push(s);
            },
            None => {
                let mut s = string_of(&content, 0, content.len());
                push_str(&mut s, "\n");
                proof {
                    assert(content@.subrange(0, content@.len() as int) =~= content@);
                }
                out.push(s);
            },
        }
    } else if chars_start_with(&cs, "[TEXT]") {
        let content = cut_prefix(&cs, "[TEXT] ");
        let mut s = string_of(&content, 0, content.len());
        push_str(&mut s, "\n");
        proof {
            assert(content@.subrange(0, content@.len() as int) =~= content@);
        }
        out.push(s);
    } else if chars_start_with(&cs, "[DISPLAY]") {
        let content = cut_prefix(&cs, "[DISPLAY] ");
        let mut s = String::from_str("╭─ ");
        let rest = string_of(&content, 0, content.len());
        push_str(&mut s, rest.as_str());
        proof {
            assert(content@.subrange(0, content@.len() as int) =~= content@);
        }
        out.push(s);
    } else if chars_start_with(&cs, "[LOCATION:") {
    } else {
        out.push(String::from_str(line));
    }
    proof {
        assert(lines_view(out@) =~= display_lines_of(line@));
    }
    out
}

// ---------------------------------------------------------------------------
// The player's answer
// ---------------------------------------------------------------------------

/// ASCII decimal digits.
pub open spec fn is_digit(c: char) -> bool {
    48 <= (c as u32) <= 57
}

/// The value of a run of decimal digits.
pub open spec fn digits_value(s: Seq<char>) -> nat
    decreases s.len(),
{
    if s.len() == 0 {
        0
    } else {
        digits_value(s.drop_last()) * 10 + ((s.last() as u32) - 48) as nat
    }
}

/// `s` without a leading `+`.
pub open spec fn unsigned_digits(s: Seq<char>) -> Seq<char> {
    if s.len() > 0 && s[0] == '+' {
        s.skip(1)
    } else {
        s
    }
}

/// Whether every character of `d` is an ASCII digit.
pub open spec fn all_digits(d: Seq<char>) -> bool {
    forall|i: int| 0 <= i < d.len() ==> is_digit(#[trigger] d[i])
}

/// What `str::parse::<usize>` accepts: an optional `+`, then one or more
/// ASCII digits whose value fits in `usize`; and that value.
pub open spec fn usize_text(s: Seq<char>) -> Option<nat> {
    let d = unsigned_digits(s);
    if d.len() > 0 && all_digits(d) && digits_value(d) <= usize::MAX {
        Some(digits_value(d))
    } else {
        None
    }
}

/// The option (from 0) that the player's answer picks among `count`: the
/// answer, trimmed, is a number from 1 to `count`.
pub open spec fn choice_of(input: Seq<char>, count: nat) -> Option<nat> {
    match usize_text(crate::text::spec_trim(input)) {
        Some(n) => if 1 <= n <= count {
            Some((n - 1) as nat)
        } else {
            None
        },
        None => None,
    }
}

proof fn lemma_digit_char(d: nat)
    requires
        d < 10,
    ensures
        is_digit(crate::text::digit_char(d)),
        crate::text::digit_char(d) as u32 == 48 + d,
{
}

/// The decimal text of `n` is a run of digits whose value is `n`.
proof fn lemma_decimal_digits(n: nat)
    ensures
        crate::text::decimal(n).len() > 0,
        all_digits(crate::text::decimal(n)),
        digits_value(crate::text::decimal(n)) == n,
    decreases n,
{
    let s = crate::text::decimal(n);
    if n < 10 {
        lemma_digit_char(n);
        assert(s.drop_last() =~= Seq::<char>::empty());
        assert(s.last() == crate::text::digit_char(n));
        assert(digits_value(s) == digits_value(s.drop_last()) * 10 + ((s.last() as u32) - 48) as nat);
    } else {
        lemma_decimal_digits(n / 10);
        lemma_digit_char(n % 10);
        let t = crate::text::decimal(n / 10);
        assert(s == t.push(crate::text::digit_char(n % 10)));
        assert(s.drop_last() =~= t);
        assert(n == (n / 10) * 10 + n % 10);
        assert(s.last() == crate::text::digit_char(n % 10));
        assert(digits_value(s) == digits_value(t) * 10 + ((s.last() as u32) - 48) as nat);
    }
}

/// The decimal text of `n` needs no trimming and reads as the number `n`.
proof fn lemma_decimal_reads_as_number(n: nat)
    ensures
        crate::text::decimal(n).len() > 0,
        all_digits(crate::text::decimal(n)),
        digits_value(crate::text::decimal(n)) == n,
        crate::text::spec_trim(crate::text::decimal(n)) == crate::text::decimal(n),
        unsigned_digits(crate::text::decimal(n)) == crate::text::decimal(n),
{
    lemma_decimal_digits(n);
    let d = crate::text::decimal(n);
    // the digits have no white space around them
    assert(!crate::text::spec_is_whitespace(d[0]));
    assert(!crate::text::spec_is_whitespace(d[d.len() - 1]));
    assert(crate::text::first_non_space(d, 0) == 0);
    assert(crate::text::end_non_space(d, d.len()) == d.len());
    assert(d.subrange(0, d.len() as int) =~= d);
    assert(d[0] != '+');
}

/// An answer that names no option picks none, and the engine asks again:
/// the number 0, and every number past the last option.
pub proof fn law_answer_outside_options_picks_none(m: nat, count: usize)
    requires
        m == 0 || m > count,
    ensures
        choice_of(crate::text::decimal(m), count as nat) is None,
{
    lemma_decimal_reads_as_number(m);
}

/// A player who answers with the number of one of the options picks that
/// option: for every number of options `count` and every `n` from 1 to
/// `count`, the answer written `n` (as digits, also with white space
/// around it or a leading `+`) picks option `n - 1`; and no answer picks
/// an option past the last.
pub proof fn law_answer_picks_numbered_option(n: nat, count: usize)
    requires
        1 <= n <= count,
    ensures
        choice_of(crate::text::decimal(n), count as nat) == Some((n - 1) as nat),
        choice_of(seq![' '] + crate::text::decimal(n) + seq!['\n'], count as nat) == Some((n - 1) as nat),
        choice_of(seq!['+'] + crate::text::decimal(n), count as nat) == Some((n - 1) as nat),
        forall|input: Seq<char>| #[trigger] choice_of(input, count as nat) matches Some(i) ==> i < count,
{
    lemma_decimal_reads_as_number(n);
    let d = crate::text::decimal(n);
    // with white space around
    let w = seq![' '] + d + seq!['\n'];
    assert(w[0] == ' ' && w[1] == d[0]);
    assert(crate::text::first_non_space(w, 1) == 1);
    assert(crate::text::first_non_space(w, 0) == 1);
    assert(w[w.len() - 2] == d[d.len() - 1]);
    assert(crate::text::end_non_space(w, (w.len() - 1) as nat) == w.len() - 1);
    assert(crate::text::end_non_space(w, w.len()) == w.len() - 1);
    assert(w.subrange(1, w.len() - 1) =~= d);
    // with a plus sign
    let p = seq!['+'] + d;
    assert(p[p.len() - 1] == d[d.len() - 1]);
    assert(crate::text::first_non_space(p, 0) == 0);
    assert(crate::text::end_non_space(p, p.len()) == p.len());
    assert(p.subrange(0, p.len() as int) =~= p);
    assert(p.skip(1) =~= d);
}

/// The option (from 0) that the player's answer picks among `count`, or
/// `None` when the answer picks none.
pub fn parse_choice(input: &str, count: usize) -> (r: Option<usize>)
    ensures
        match r {
            Some(i) => choice_of(input@, count as nat) == Some(i as nat),
            None => choice_of(input@, count as nat) is None,
        },
{
    let t = str_trim(input);
    let cs = to_chars(t.as_str());
    let start: usize = if cs.len() > 0 && cs[0] == '+' { 1 } else { 0 };
    let ghost d = unsigned_digits(cs@);
    proof {
        assert(d =~= cs@.skip(start as int));
    }
    if start >= cs.len() {
        return None;
    }
    let mut value: usize = 0;
    let mut i: usize = start;
    while i < cs.len()
        invariant
            start <= i <= cs.len(),
            start < cs.len(),
            cs@ == crate::text::spec_trim(input@),
            d == unsigned_digits(cs@),
            d == cs@.skip(start as int),
            forall|j: int| start <= j < i ==> is_digit(#[trigger] cs@[j]),
            value == digits_value(cs@.subrange(start as int, i as int)),
        decreases cs.len() - i,
    {
        let c = cs[i];
        let code = c as u32;
        if code < 48 || code > 57 {
            proof {
                assert(!is_digit(d[i - start]));
            }
            return None;
        }
        let digit = (code - 48) as usize;
        proof {
            let sub = cs@.subrange(start as int, i + 1);
            assert(sub.drop_last() =~= cs@.subrange(start as int, i as int));
            assert(digits_value(sub) == value * 10 + digit);
        }
        let next = match value.checked_mul(10) {
            Some(v) => v.checked_add(digit),
            None => None,
        };
        match next {
            Some(v) => {
                value = v;
            },
            None => {
                proof {
                    if all_digits(d) {
                        lemma_digits_value_grows(d, (i + 1 - start) as nat);
                        assert(cs@.subrange(start as int, i + 1) =~= d.take(i + 1 - start));
                    }
                }
                return None;
            },
        }
        i = i + 1;
    }
    proof {
        assert(cs@.subrange(start as int, cs@.len() as int) =~= d);
    }
    if value >= 1 && value <= count {
        Some(value - 1)
    } else {
        None
    }
}

/// The value of a run of digits is at least that of each of its prefixes.
pub proof fn lemma_digits_value_grows(d: Seq<char>, k: nat)
    requires
        k <= d.len(),
        all_digits(d),
    ensures
        digits_value(d.take(k as int)) <= digits_value(d),
    decreases d.len() - k,
{
    if k < d.len() {
        lemma_digits_value_grows(d, k + 1);
        assert(d.take((k + 1) as int).drop_last() =~= d.take(k as int));
        assert(digits_value(d.take((k + 1) as int)) == digits_value(d.take(k as int)) * 10 + ((d[k as int] as u32) - 48) as nat);
    } else {
        assert(d.take(k as int) =~= d);
    }
}

// ---------------------------------------------------------------------------
// The report of a whole run
// ---------------------------------------------------------------------------

/// How an option is listed: `  > text -> target`.
pub open spec fn option_line(o: (Seq<char>, Seq<char>)) -> Seq<char> {
    "  > "@ + o.0 + " -> "@ + o.1
}

/// The report of a run: a heading, the lines of output, and (when there are
/// any) the options with their targets.
pub open spec fn report_of(output: Seq<Seq<char>>, options: Seq<(Seq<char>, Seq<char>)>) -> Seq<
    Seq<char>,
> {
    seq!["=== STORY OUTPUT ==="@, Seq::empty()] + output + if options.len() > 0 {
        seq![Seq::empty(), "--- OPTIONS ---"@] + options.map_values(|o: (Seq<char>, Seq<char>)| option_line(o))
    } else {
        Seq::empty()
    }
}

/// The lines that report a run (see `report_of`).
pub fn report_lines(output: &[String], options: &[(String, String)]) -> (r: Vec<String>)
    ensures
        lines_view(r@) == report_of(lines_view(output@), options_view(options@)),
{
    let mut r: Vec<String> = Vec::new();
    r.push(String::from_str("=== STORY OUTPUT ==="));
    r.push(String::new());
    let mut i: usize = 0;
    while i < output.len()
        invariant
            i <= output.len(),
            lines_view(r@) == seq!["=== STORY OUTPUT ==="@, Seq::<char>::empty()] + lines_view(
                output@,
            ).take(i as int),
        decreases output.len() - i,
    {
        let ghost before = r@;
        r.push(output[i].clone());
        proof {
            assert(r@ == before.push(output@[i as int]));
            assert(lines_view(r@) =~= lines_view(before).push(output@[i as int]@));
            assert(lines_view(output@).take(i + 1) =~= lines_view(output@).take(i as int).push(
                output@[i as int]@,
            ));
        }
        i = i + 1;
    }
    proof {
        assert(lines_view(output@).take(output@.len() as int) =~= lines_view(output@));
    }
    if options.len() > 0 {
        let ghost head = lines_view(r@);
        r.push(String::new());
        r.push(String::from_str("--- OPTIONS ---"));
        proof {
            assert(lines_view(r@) =~= head + seq![Seq::<char>::empty(), "--- OPTIONS ---"@]);
        }
        let ghost mid = lines_view(r@);
        let mut j: usize = 0;
        while j < options.len()
            invariant
                j <= options.len(),
                lines_view(r@) == mid + options_view(options@).take(j as int).map_values(
                    |o: (Seq<char>, Seq<char>)| option_line(o),
                ),
            decreases options.len() - j,
        {
            let ghost before = r@;
            let mut line = String::from_str("  > ");
            push_str(&mut line, options[j].0.as_str());
            push_str(&mut line, " -> ");
            push_str(&mut line, options[j].1.as_str());
            r.push(line);
            proof {
                let ov = options_view(options@);
                assert(ov[j as int] == (options@[j as int].0@, options@[j as int].1@));
                assert(ov.take(j + 1) =~= ov.take(j as int).push(ov[j as int]));
                assert(ov.take(j + 1).map_values(|o: (Seq<char>, Seq<char>)| option_line(o)) =~= ov.take(
                    j as int,
                ).map_values(|o: (Seq<char>, Seq<char>)| option_line(o)).push(option_line(ov[j as int])));
                assert(lines_view(r@) =~= lines_view(before).push(line@));
            }
            j = j + 1;
        }
        proof {
            assert(options_view(options@).take(options@.len() as int) =~= options_view(options@));
            assert(lines_view(r@) =~= report_of(lines_view(output@), options_view(options@)));
        }
    } else {
        proof {
            assert(options_view(options@).len() == 0);
            assert(lines_view(r@) =~= report_of(lines_view(output@), options_view(options@)));
        }
    }
    r
}

} // verus!
