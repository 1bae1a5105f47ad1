use packard::error::PslError;
use packard::lexer::tokenize;
use packard::parser::parse;
use packard::runtime::Runtime;
use packard::semantics::{ArithOp, CompareOp, NumAnswer, NumQuery};
use packard::value::Value;

/// The number function of the runtime, on `f64`.
fn f64_numbers(q: NumQuery) -> NumAnswer {
    match q {
        NumQuery::Literal(s) => match s.parse::<f64>() {
            Ok(x) => NumAnswer { value: x.to_bits(), holds: true, text: String::new() },
            Err(_) => NumAnswer { value: 0, holds: false, text: String::new() },
        },
        NumQuery::Arith(op, a, b) => {
            let (a, b) = (f64::from_bits(a), f64::from_bits(b));
            let r = match op {
                ArithOp::Add => a + b,
                ArithOp::Sub => a - b,
                ArithOp::Mul => a * b,
                ArithOp::Div => a / b,
            };
            NumAnswer { value: r.to_bits(), holds: true, text: String::new() }
        }
        NumQuery::Compare(op, a, b) => {
            let (a, b) = (f64::from_bits(a), f64::from_bits(b));
            let holds = match op {
                CompareOp::Greater => a > b,
                CompareOp::Less => a < b,
                CompareOp::GreaterEq => a >= b,
                CompareOp::LessEq => a <= b,
                CompareOp::Equal => (a - b).abs() < f64::EPSILON,
                CompareOp::NotEqual => (a - b).abs() >= f64::EPSILON,
            };
            NumAnswer { value: 0, holds, text: String::new() }
        }
        NumQuery::Show(n) => {
            let x = f64::from_bits(n);
            let text = if x.fract() == 0.0 { format!("{}", x as i64) } else { format!("{}", x) };
            NumAnswer { value: n, holds: true, text }
        }
        NumQuery::Debug(n) => NumAnswer { value: n, holds: true, text: format!("{:?}", f64::from_bits(n)) },
    }
}

fn run_source(source: &str) -> (Runtime<fn(NumQuery) -> NumAnswer>, Result<(), PslError>) {
    let tokens = tokenize(source).expect("Tokenization failed");
    let program = parse(tokens).expect("Parsing failed");
    let mut runtime: Runtime<fn(NumQuery) -> NumAnswer> = Runtime::new(f64_numbers);
    let r = runtime.execute(program);
    (runtime, r)
}

fn run_story(source: &str) -> (Vec<String>, Vec<(String, String)>) {
    let (runtime, r) = run_source(source);
    r.expect("Runtime failed");
    let output = runtime.get_output().to_vec();
    let options = runtime.get_options().to_vec();
    (output, options)
}

fn global<'a>(globals: &'a [(String, Value)], name: &str) -> Option<&'a Value> {
    globals.iter().find(|(k, _)| k == name).map(|(_, v)| v)
}

fn attribute(runtime: &Runtime<fn(NumQuery) -> NumAnswer>, ch: &str, attr: &str) -> Option<Value> {
    let globals = runtime.get_globals();
    let c = global(&globals, ch)?;
    match c {
        Value::Container(entries) => global(entries, attr).map(|v| v.duplicate()),
        _ => None,
    }
}

fn number(v: &Value) -> f64 {
    match v {
        Value::Number(bits) => f64::from_bits(*bits),
        other => panic!("not a number: {:?}", other),
    }
}

#[test]
fn test_character_definition() {
    let source = r#"
[[define: [character: alice]]:
	[[set: [attribute: name]]: [text: Alice]]
],
[[as:]: [text: Character defined]]
        "#;
    let (output, _) = run_story(source);
    assert!(output.iter().any(|s| s.contains("Character defined")), "Should produce output");
}

#[test]
fn test_chapter_display() {
    let source = r#"
[[chapter: start]: [text: Chapter One]]
        "#;
    let (output, _) = run_story(source);
    assert!(output.iter().any(|s| s.contains("Chapter One")), "Should display chapter");
}

#[test]
fn test_narrative_text() {
    let source = r#"
[[as:]: [text: This is a story]]
        "#;
    let (output, _) = run_story(source);
    assert!(output.iter().any(|s| s.contains("This is a story")), "Should display text");
}

#[test]
fn test_narrative_with_label() {
    let source = r#"
[[define: [character: hero]]:
	[[set: [attribute: name]]: [text: Arion]]
],
[[as: [[from: [character: hero]]: [attribute: name]]]: [text: A story]]
        "#;
    let (output, _) = run_story(source);
    assert!(output.iter().any(|s| s.contains("AS: Arion")), "Should display with label");
}

#[test]
fn test_display_and_options() {
    let source = r#"
[[display: [text: What next]]:
	[[option: [text: Option A]]: [goto: [section: a]]],
	[[option: [text: Option B]]: [goto: [section: b]]]
]
        "#;
    let (output, options) = run_story(source);
    assert!(output.iter().any(|s| s.contains("What next")), "Should display message");
    assert_eq!(options.len(), 2, "Should have 2 options");
    assert_eq!(options[0].0, "Option A", "Option text correct");
    assert_eq!(options[1].0, "Option B", "Option text correct");
}

#[test]
fn test_goto_chapter() {
    let source = r#"
[[display: [text: Go?]]:
	[[option: [text: Go]]: [goto: [chapter: next]]]
]
        "#;
    let (_, options) = run_story(source);
    assert!(options[0].1.contains("chapter::next"), "Goto should target chapter");
}

#[test]
fn test_goto_section() {
    let source = r#"
[[display: [text: Go?]]:
	[[option: [text: Go]]: [goto: [section: next]]]
]
        "#;
    let (_, options) = run_story(source);
    assert!(options[0].1.contains("section::next"), "Goto should target section");
}

#[test]
fn test_section_location() {
    let source = r#"
[section: mysection]
        "#;
    let (output, _) = run_story(source);
    assert!(output.iter().any(|s| s.contains("section:mysection")), "Should mark section location");
}

#[test]
fn test_set_and_get_attribute() {
    let source = r#"
[[define: [character: alice]]:
	[[set: [attribute: coins]]: [number: 100]]
],
[[set: [[from: [character: alice]]: [attribute: coins]]]: [number: 50]]
        "#;
    let (_, _) = run_story(source);
}

#[test]
fn test_add_attribute() {
    let source = r#"
[[define: [character: alice]]:
	[[set: [attribute: coins]]: [number: 100]]
],
[[add: [[from: [character: alice]]: [attribute: coins]]]: [number: 50]]
        "#;
    let (_, _) = run_story(source);
}

#[test]
fn test_container_definition() {
    let source = r#"
[[define: [character: alice]]:
	[[define: [container: inventory]]:
		[[set: [attribute: sword]]: [item:]]
	]
]
        "#;
    let (_, _) = run_story(source);
}

#[test]
fn test_arithmetic_addition() {
    let source = r#"
[[define: [character: alice]]:
	[[set: [attribute: coins]]: [number: 100]]
],
[[if: [[[from: [character: alice]]: [attribute: coins]] > [number: 50]]]:
	[[as:]: [text: Rich]]
]
        "#;
    let (output, _) = run_story(source);
    assert!(output.iter().any(|s| s.contains("Rich")), "Should execute if with arithmetic");
}

#[test]
fn test_comparison_greater_than() {
    let source = r#"
[[define: [character: alice]]:
	[[set: [attribute: level]]: [number: 10]]
],
[[if: [[[from: [character: alice]]: [attribute: level]] > [number: 5]]]:
	[[as:]: [text: High level]]
]
        "#;
    let (output, _) = run_story(source);
    assert!(output.iter().any(|s| s.contains("High level")), "Should handle comparison");
}

#[test]
fn test_false_condition() {
    let source = r#"
[[if: [flag: off]]:
	[[as:]: [text: This should not appear]]
]
        "#;
    let (output, _) = run_story(source);
    assert!(!output.iter().any(|s| s.contains("should not appear")), "Should skip false condition");
}

#[test]
fn test_remove_attribute() {
    let source = r#"
[[define: [character: alice]]:
	[[set: [attribute: sword]]: [item:]]
],
[[remove: [[from: [character: alice]]: [attribute: sword]]]]
        "#;
    let (_, _) = run_story(source);
}

#[test]
fn test_nested_paths() {
    let source = r#"
[[define: [character: alice]]:
	[[define: [container: bag]]:
		[[set: [attribute: coins]]: [number: 100]]
	]
]
        "#;
    let (_, _) = run_story(source);
}

#[test]
fn test_empty_container() {
    let source = r#"
[[define: [character: alice]]:
	[[define: [container: empty]]]
]
        "#;
    let (_, _) = run_story(source);
}

#[test]
fn test_text_attribute() {
    let source = r#"
[[define: [character: alice]]:
	[[set: [attribute: name]]: [text: Alice Wonderland]]
]
        "#;
    let (_, _) = run_story(source);
}

#[test]
fn test_flag_attribute() {
    let source = r#"
[[define: [character: alice]]:
	[[set: [attribute: alive]]: [flag: on]],
	[[set: [attribute: asleep]]: [flag: off]]
]
        "#;
    let (_, _) = run_story(source);
}

// ---------------------------------------------------------------------------
// Exact outcomes
// ---------------------------------------------------------------------------

#[test]
fn set_then_read_gives_the_value_written() {
    let (runtime, r) = run_source(
        "[[define: [character: alice]]: [[set: [attribute: coins]]: [number: 100]]],\
         [[set: [[from: [character: alice]]: [attribute: coins]]]: [number: 50]]",
    );
    assert!(r.is_ok());
    assert_eq!(number(&attribute(&runtime, "alice", "coins").unwrap()), 50.0);
}

#[test]
fn add_sums_numbers() {
    let (runtime, r) = run_source(
        "[[define: [character: alice]]: [[set: [attribute: coins]]: [number: 100]]],\
         [[add: [[from: [character: alice]]: [attribute: coins]]]: [number: 50]]",
    );
    assert!(r.is_ok());
    assert_eq!(number(&attribute(&runtime, "alice", "coins").unwrap()), 150.0);
}

#[test]
fn add_to_a_missing_attribute_sets_it() {
    let (runtime, r) = run_source(
        "[[define: [character: alice]]: [[set: [attribute: name]]: [text: A]]],\
         [[add: [[from: [character: alice]]: [attribute: coins]]]: [number: 7]]",
    );
    assert!(r.is_ok());
    assert_eq!(number(&attribute(&runtime, "alice", "coins").unwrap()), 7.0);
}

#[test]
fn add_of_different_kinds_is_a_type_error() {
    let (_, r) = run_source(
        "[[define: [character: alice]]: [[set: [attribute: name]]: [text: A]]],\
         [[add: [[from: [character: alice]]: [attribute: name]]]: [number: 7]]",
    );
    match r {
        Err(PslError::RuntimeError(m)) => {
            assert!(m.starts_with("Error executing expression 1: Type error: Cannot add values of different types"), "{}", m)
        }
        other => panic!("unexpected: {:?}", other),
    }
}

#[test]
fn remove_takes_the_attribute_away() {
    let (runtime, r) = run_source(
        "[[define: [character: alice]]: [[set: [attribute: sword]]: [item:]]],\
         [[remove: [[from: [character: alice]]: [attribute: sword]]]]",
    );
    assert!(r.is_ok());
    assert!(attribute(&runtime, "alice", "sword").is_none());
    assert!(attribute(&runtime, "alice", "missing").is_none());
}

#[test]
fn remove_of_a_missing_attribute_fails() {
    let (_, r) = run_source(
        "[[define: [character: alice]]: [[set: [attribute: sword]]: [item:]]],\
         [[remove: [[from: [character: alice]]: [attribute: shield]]]]",
    );
    match r {
        Err(PslError::RuntimeError(m)) => assert!(
            m.starts_with("Error executing expression 1: Runtime error: Attribute shield not found"),
            "{}",
            m
        ),
        other => panic!("unexpected: {:?}", other),
    }
}

#[test]
fn container_attributes_are_nested() {
    let (runtime, r) = run_source(
        "[[define: [character: alice]]: [[define: [container: bag]]: [[set: [attribute: coins]]: [number: 3]]]],\
         [[add: [[from: [[from: [character: alice]]: [container: bag]]]: [attribute: coins]]]: [number: 2]]",
    );
    assert!(r.is_ok(), "{:?}", r);
    match attribute(&runtime, "alice", "bag").unwrap() {
        Value::Container(entries) => assert_eq!(number(global(&entries, "coins").unwrap()), 5.0),
        other => panic!("not a container: {:?}", other),
    }
}

#[test]
fn undefined_character_is_a_name_error() {
    let (_, r) = run_source("[character: nobody]");
    match r {
        Err(PslError::RuntimeError(m)) => assert_eq!(
            m,
            "Error executing expression 0: Name error: Undefined character: nobody (expr: Character(\"nobody\"))"
        ),
        other => panic!("unexpected: {:?}", other),
    }
}

#[test]
fn division_by_zero_is_refused() {
    let (_, r) = run_source(
        "[[define: [character: a]]: [[set: [attribute: x]]: [number: 1]]],\
         [[[from: [character: a]]: [attribute: x]] / [number: 0]]",
    );
    match r {
        Err(PslError::RuntimeError(m)) => {
            assert!(m.starts_with("Error executing expression 1: Runtime error: Division by zero"), "{}", m)
        }
        other => panic!("unexpected: {:?}", other),
    }
}

#[test]
fn arithmetic_and_comparison_values() {
    let (runtime, r) = run_source("[[define: [character: a]]: [[set: [attribute: x]]: [number: 6]]]");
    assert!(r.is_ok());
    let mut runtime = runtime;
    let eval = |rt: &mut Runtime<fn(NumQuery) -> NumAnswer>, src: &str| {
        let program = parse(tokenize(src).unwrap()).unwrap();
        rt.eval(&program[0]).unwrap()
    };
    assert_eq!(number(&eval(&mut runtime, "[[[from: [character: a]]: [attribute: x]] * [number: 7]]")), 42.0);
    assert_eq!(number(&eval(&mut runtime, "[[[from: [character: a]]: [attribute: x]] - [number: 8]]")), -2.0);
    assert_eq!(number(&eval(&mut runtime, "[[[from: [character: a]]: [attribute: x]] / [number: 4]]")), 1.5);
    assert!(matches!(eval(&mut runtime, "[[[from: [character: a]]: [attribute: x]] == [number: 6.0]]"), Value::Flag(true)));
    assert!(matches!(eval(&mut runtime, "[[[from: [character: a]]: [attribute: x]] != [number: 6.0]]"), Value::Flag(false)));
    assert!(matches!(eval(&mut runtime, "[[[from: [character: a]]: [attribute: x]] <= [number: 5]]"), Value::Flag(false)));
    assert!(matches!(eval(&mut runtime, "[[[from: [character: a]]: [attribute: x]] >= [number: 6]]"), Value::Flag(true)));
}

#[test]
fn comparison_of_texts_is_a_type_error() {
    let (_, r) = run_source(
        "[[define: [character: a]]: [[set: [attribute: x]]: [text: t]]],\
         [[[from: [character: a]]: [attribute: x]] > [number: 1]]",
    );
    match r {
        Err(PslError::RuntimeError(m)) => assert!(
            m.starts_with("Error executing expression 1: Type error: Comparison requires numeric values"),
            "{}",
            m
        ),
        other => panic!("unexpected: {:?}", other),
    }
}

#[test]
fn exact_lines_of_narration_and_places() {
    let (output, options) = run_story(
        "[[chapter: start]: [text: One]], [section: s1], [[as:]: [text: Hi]], \
         [[display: [text: Pick]]: [[option: [text: A]]: [goto: [chapter: two]]]], [goto: [section: s2]]",
    );
    assert_eq!(
        output,
        vec![
            "[CHAPTER: start] One".to_string(),
            "[LOCATION: section:s1]".to_string(),
            "[TEXT] Hi".to_string(),
            "[DISPLAY] Pick".to_string(),
            "[GOTO] section::s2".to_string(),
        ]
    );
    assert_eq!(options, vec![("A".to_string(), "chapter::two".to_string())]);
}

#[test]
fn goto_moves_the_place() {
    let (runtime, r) = run_source("[section: a], [goto: [chapter: c2]]");
    assert!(r.is_ok());
    assert_eq!(runtime.get_current_chapter(), Some("c2".to_string()));
    assert_eq!(runtime.get_current_section(), None);
    let (runtime, r) = run_source("[chapter: c1], [goto: [section: s9]]");
    assert!(r.is_ok());
    assert_eq!(runtime.get_current_chapter(), Some("c1".to_string()));
    assert_eq!(runtime.get_current_section(), Some("s9".to_string()));
}

#[test]
fn exists_tells_presence() {
    let (runtime, r) = run_source("[[define: [character: alice]]: [[set: [attribute: a]]: [flag: on]]]");
    assert!(r.is_ok());
    let mut runtime = runtime;
    let p = parse(tokenize("[exists: [[from: [character: alice]]: [attribute: a]]]").unwrap()).unwrap();
    assert!(matches!(runtime.eval(&p[0]).unwrap(), Value::Flag(true)));
    let p = parse(tokenize("[exists: [[from: [character: alice]]: [attribute: b]]]").unwrap()).unwrap();
    assert!(matches!(runtime.eval(&p[0]).unwrap(), Value::Flag(false)));
    let p = parse(tokenize("[exists: [character: bob]]").unwrap()).unwrap();
    assert!(matches!(runtime.eval(&p[0]).unwrap(), Value::Flag(false)));
}

#[test]
fn clear_output_keeps_the_characters() {
    let (runtime, r) = run_source("[[define: [character: a]]: [[set: [attribute: x]]: [flag: on]]], [[as:]: [text: t]]");
    assert!(r.is_ok());
    let mut runtime = runtime;
    assert_eq!(runtime.get_output().len(), 1);
    runtime.clear_output();
    assert!(runtime.get_output().is_empty());
    assert!(runtime.get_options().is_empty());
    assert!(matches!(attribute(&runtime, "a", "x"), Some(Value::Flag(true))));
}

#[test]
fn restore_state_puts_back_the_saved_state() {
    let (runtime, r) = run_source("[[define: [character: a]]: [[set: [attribute: x]]: [flag: on]]], [chapter: c], [section: s]");
    assert!(r.is_ok());
    let globals = runtime.get_globals();
    let chapter = runtime.get_current_chapter();
    let section = runtime.get_current_section();
    let mut fresh: Runtime<fn(NumQuery) -> NumAnswer> = Runtime::new(f64_numbers);
    assert!(fresh.restore_state(globals, chapter, section).is_ok());
    assert_eq!(fresh.get_current_chapter(), Some("c".to_string()));
    assert_eq!(fresh.get_current_section(), Some("s".to_string()));
    assert!(matches!(attribute(&fresh, "a", "x"), Some(Value::Flag(true))));
}

#[test]
fn unknown_keyword_is_reported() {
    let (_, r) = run_source("[[shout: [text: loud]]]");
    match r {
        Err(PslError::RuntimeError(m)) => assert!(
            m.starts_with("Error executing expression 0: Runtime error: Unknown keyword: shout"),
            "{}",
            m
        ),
        other => panic!("unexpected: {:?}", other),
    }
}

#[test]
fn invalid_number_literal_is_refused_by_the_parser() {
    match parse(tokenize("[number: abc]").unwrap()) {
        Err(PslError::ParseError { message, .. }) => assert_eq!(message, "Invalid number: abc"),
        other => panic!("unexpected: {:?}", other),
    }
}

#[test]
fn defining_twice_keeps_one_character_and_one_entry_per_name() {
    let (runtime, r) = run_source(
        "[[define: [character: a]]: [[set: [attribute: x]]: [number: 1]], [[set: [attribute: x]]: [number: 2]]],\
         [[define: [character: a]]: [[set: [attribute: y]]: [flag: on]]],\
         [[set: [[from: [character: a]]: [attribute: y]]]: [flag: off]]",
    );
    assert!(r.is_ok());
    let globals = runtime.get_globals();
    assert_eq!(globals.iter().filter(|(k, _)| k == "a").count(), 1);
    match &globals[0].1 {
        Value::Container(entries) => {
            assert_eq!(entries.len(), 1);
            assert_eq!(entries[0].0, "y");
            assert!(matches!(entries[0].1, Value::Flag(false)));
        }
        other => panic!("not a container: {:?}", other),
    }
}

#[test]
fn setting_one_attribute_leaves_the_others() {
    let (runtime, r) = run_source(
        "[[define: [character: a]]: [[set: [attribute: x]]: [number: 1]], [[set: [attribute: y]]: [number: 2]]],\
         [[set: [[from: [character: a]]: [attribute: x]]]: [number: 5]]",
    );
    assert!(r.is_ok());
    assert_eq!(number(&attribute(&runtime, "a", "x").unwrap()), 5.0);
    assert_eq!(number(&attribute(&runtime, "a", "y").unwrap()), 2.0);
}

#[test]
fn removed_nested_attribute_reads_as_missing() {
    let (runtime, r) = run_source(
        "[[define: [character: a]]: [[define: [container: bag]]: [[set: [attribute: gem]]: [item:]]]],\
         [[remove: [[from: [[from: [character: a]]: [container: bag]]]: [attribute: gem]]]]",
    );
    assert!(r.is_ok(), "{:?}", r);
    let mut runtime = runtime;
    let p = parse(tokenize("[[from: [[from: [character: a]]: [container: bag]]]: [attribute: gem]]").unwrap()).unwrap();
    match runtime.eval(&p[0]) {
        Err(PslError::RuntimeError(m)) => assert_eq!(m, "Attribute gem not found"),
        other => panic!("unexpected: {:?}", other),
    }
}

#[test]
fn readme_example_story() {
    let source = "[[define: [character: hero]]:
	[[set: [attribute: name]]: [text: Arion]],
	[[set: [attribute: health]]: [number: 100]]
],

[[chapter: start]: [text: The Beginning]],

[[as: [[from: [character: hero]]: [attribute: name]]]:
[text: I wake up in a strange forest. My health is good.
]],

[[display: [text: What do I do?]]:
	[[option: [text: Explore]]: [goto: [section: explore]]],
	[[option: [text: Rest]]: [goto: [section: rest]]]
],

[section: explore],
[[as:]: [text: I venture deeper into the forest.]],

[section: rest],
[[as:]: [text: I find shelter and rest for the night.]]";
    let (output, options) = run_story(source);
    assert_eq!(
        output,
        vec![
            "[CHAPTER: start] The Beginning".to_string(),
            "[AS: Arion] I wake up in a strange forest. My health is good.".to_string(),
            "[DISPLAY] What do I do?".to_string(),
            "[LOCATION: section:explore]".to_string(),
            "[TEXT] I venture deeper into the forest.".to_string(),
            "[LOCATION: section:rest]".to_string(),
            "[TEXT] I find shelter and rest for the night.".to_string(),
        ]
    );
    assert_eq!(
        options,
        vec![
            ("Explore".to_string(), "section::explore".to_string()),
            ("Rest".to_string(), "section::rest".to_string()),
        ]
    );
}

#[test]
fn syntax_guide_conditions_on_nested_containers() {
    let source = "[[define: [character: hero]]:
  [[set: [attribute: name]]: [text: The Hero]],
  [[define: [container: inventory]]:
    [[set: [attribute: gold]]: [number: 100]],
    [[set: [attribute: sword]]: [item:]]
  ]
],
[[display: [text: Options]]:
  [[if: [exists: [[from: [[from: [character: hero]]: [container: inventory]]]: [attribute: sword]]]]:
    [[option: [text: Fight]]: [goto: [section: battle]]]
  ],
  [[if: [[[from: [[from: [character: hero]]: [container: inventory]]]: [attribute: gold]] > [number: 50]]]:
    [[option: [text: Shop]]: [goto: [section: shop]]]
  ],
  [[if: [[[from: [[from: [character: hero]]: [container: inventory]]]: [attribute: gold]] > [number: 500]]]:
    [[option: [text: Castle]]: [goto: [section: castle]]]
  ]
]";
    let (output, options) = run_story(source);
    assert_eq!(output, vec!["[DISPLAY] Options".to_string()]);
    assert_eq!(
        options,
        vec![
            ("Fight".to_string(), "section::battle".to_string()),
            ("Shop".to_string(), "section::shop".to_string()),
        ]
    );
}

#[test]
fn single_bracket_from_reads_nested_places() {
    let (runtime, r) = run_source(
        "[[define: [character: main]]: [[set: [attribute: name]]: [text: Hero]],\
           [[define: [container: bag]]: [[set: [attribute: sword]]: [item:]]]]",
    );
    assert!(r.is_ok());
    let mut runtime = runtime;
    let p = parse(tokenize("[from: [character: main]: [attribute: name]]").unwrap()).unwrap();
    assert!(matches!(runtime.eval(&p[0]).unwrap(), Value::Text(ref s) if s == "Hero"));
    let p = parse(tokenize("[from: [from: [character: main]: [container: bag]]: [attribute: sword]]").unwrap()).unwrap();
    assert!(matches!(runtime.eval(&p[0]).unwrap(), Value::Item));
}

#[test]
fn failing_expression_is_written_as_debug_writes_it() {
    let (_, r) = run_source("[[set: [[from: [character: nobody]]: [attribute: x]]]: [number: 42]]");
    match r {
        Err(PslError::RuntimeError(m)) => assert_eq!(
            m,
            "Error executing expression 0: Runtime error: Character nobody not found \
             (expr: Set { target: From { base: Character(\"nobody\"), path: Attribute(\"x\") }, value: Number(42.0) })"
        ),
        other => panic!("unexpected: {:?}", other),
    }
}

#[test]
fn values_read_for_a_player() {
    let numbers: fn(NumQuery) -> NumAnswer = f64_numbers;
    assert_eq!(Value::Text("hi".to_string()).display_text(&numbers), "hi");
    assert_eq!(Value::Number(42.0f64.to_bits()).display_text(&numbers), "42");
    assert_eq!(Value::Number(2.5f64.to_bits()).display_text(&numbers), "2.5");
    assert_eq!(Value::Flag(true).display_text(&numbers), "on");
    assert_eq!(Value::Flag(false).display_text(&numbers), "off");
    assert_eq!(Value::Item.display_text(&numbers), "[item]");
    assert_eq!(Value::Container(vec![]).display_text(&numbers), "[container]");
    assert_eq!(Value::Null.display_text(&numbers), "null");
}
