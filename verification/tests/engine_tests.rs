use packard::error::PslError;
use packard::game_engine::{display_lines, parse_choice, report_lines, GameEngine};
use packard::semantics::{ArithOp, CompareOp, NumAnswer, NumQuery};

type Numbers = fn(NumQuery) -> NumAnswer;

fn numbers(q: NumQuery) -> NumAnswer {
    match q {
        NumQuery::Literal(s) => match s.parse::<f64>() {
            Ok(x) => NumAnswer { value: x.to_bits(), holds: true, text: String::new() },
            Err(_) => NumAnswer { value: 0, holds: false, text: String::new() },
        },
        NumQuery::Arith(op, a, b) => {
            let (a, b) = (f64::from_bits(a), f64::from_bits(b));
            let r = match op {
                ArithOp::Add => a + b,
                ArithOp::Sub => a - b,
                ArithOp::Mul => a * b,
                ArithOp::Div => a / b,
            };
            NumAnswer { value: r.to_bits(), holds: true, text: String::new() }
        }
        NumQuery::Compare(op, a, b) => {
            let (a, b) = (f64::from_bits(a), f64::from_bits(b));
            let holds = match op {
                CompareOp::Greater => a > b,
                CompareOp::Less => a < b,
                CompareOp::GreaterEq => a >= b,
                CompareOp::LessEq => a <= b,
                CompareOp::Equal => (a - b).abs() < f64::EPSILON,
                CompareOp::NotEqual => (a - b).abs() >= f64::EPSILON,
            };
            NumAnswer { value: 0, holds, text: String::new() }
        }
        NumQuery::Show(n) => {
            let x = f64::from_bits(n);
            let text = if x.fract() == 0.0 { format!("{}", x as i64) } else { format!("{}", x) };
            NumAnswer { value: n, holds: true, text }
        }
        NumQuery::Debug(n) => NumAnswer { value: n, holds: true, text: format!("{:?}", f64::from_bits(n)) },
    }
}

const STORY: &str = "[[chapter: start]: [text: The Beginning]],\
[[as:]: [text: Intro]],\
[[display: [text: Where?]]:\
    [[option: [text: Explore]]: [goto: [section: explore]]],\
    [[option: [text: Rest]]: [goto: [section: rest]]]\
],\
[section: explore],\
[[as:]: [text: Deeper.]],\
[section: rest],\
[[as:]: [text: Sleep.]]";

#[test]
fn engine_stops_after_each_display() {
    let mut engine: GameEngine<Numbers> = GameEngine::<Numbers>::new(STORY, numbers).unwrap();
    assert_eq!(engine.execute_until_display().unwrap(), true);
    assert_eq!(
        engine.get_output().to_vec(),
        vec!["[CHAPTER: start] The Beginning".to_string(), "[TEXT] Intro".to_string(), "[DISPLAY] Where?".to_string()]
    );
    assert_eq!(engine.get_options().len(), 2);
    let text = engine.select_option(1);
    assert_eq!(text, "Rest");
    assert!(engine.get_output().is_empty());
    assert!(engine.get_options().is_empty());
    assert_eq!(engine.execute_until_display().unwrap(), false);
    assert_eq!(engine.get_output().to_vec(), vec!["[TEXT] Sleep.".to_string()]);
}

#[test]
fn engine_goes_to_the_chosen_section() {
    let mut engine: GameEngine<Numbers> = GameEngine::<Numbers>::new(STORY, numbers).unwrap();
    assert!(engine.execute_until_display().unwrap());
    assert_eq!(engine.select_option(0), "Explore");
    assert_eq!(engine.execute_until_display().unwrap(), false);
    assert_eq!(
        engine.get_output().to_vec(),
        vec!["[TEXT] Deeper.".to_string(), "[LOCATION: section:rest]".to_string(), "[TEXT] Sleep.".to_string()]
    );
}

#[test]
fn navigate_to_an_unknown_place_stays() {
    let mut engine: GameEngine<Numbers> = GameEngine::<Numbers>::new("[section: a], [[as:]: [text: x]]", numbers).unwrap();
    assert!(engine.navigate_to_target("somewhere").is_ok());
    assert!(engine.navigate_to_target("section::nowhere").is_ok());
    assert_eq!(engine.execute_until_display().unwrap(), false);
    assert_eq!(engine.get_output().len(), 2);
}

#[test]
fn navigate_to_a_chapter_heading() {
    let mut engine: GameEngine<Numbers> =
        GameEngine::<Numbers>::new("[[as:]: [text: a]], [[chapter: two]: [text: Two]], [[as:]: [text: b]]", numbers).unwrap();
    assert!(engine.navigate_to_target("chapter::two").is_ok());
    assert_eq!(engine.execute_until_display().unwrap(), false);
    assert_eq!(engine.get_output().to_vec(), vec!["[TEXT] b".to_string()]);
}

#[test]
fn engine_reports_load_errors() {
    match GameEngine::<Numbers>::new("[text: a", numbers) {
        Err(PslError::ParseError { .. }) => {}
        other => panic!("unexpected: {:?}", other.err()),
    }
    match GameEngine::<Numbers>::new("[ = ]", numbers) {
        Err(PslError::LexError { message, .. }) => assert_eq!(message, "Unexpected '='. Did you mean '=='?"),
        other => panic!("unexpected: {:?}", other.err()),
    }
}

#[test]
fn engine_stops_at_a_runtime_error() {
    let mut engine: GameEngine<Numbers> = GameEngine::<Numbers>::new("[[as:]: [text: a]], [character: nobody], [[as:]: [text: b]]", numbers).unwrap();
    match engine.execute_until_display() {
        Err(PslError::NameError(m)) => assert_eq!(m, "Undefined character: nobody"),
        other => panic!("unexpected: {:?}", other),
    }
    assert_eq!(engine.get_output().to_vec(), vec!["[TEXT] a".to_string()]);
}

#[test]
fn display_lines_format_the_story_output() {
    assert_eq!(display_lines("[TEXT] Hello"), vec!["Hello\n".to_string()]);
    assert_eq!(display_lines("[DISPLAY] Pick"), vec!["╭─ Pick".to_string()]);
    assert!(display_lines("[LOCATION: section:a]").is_empty());
    assert_eq!(display_lines("plain"), vec!["plain".to_string()]);
    assert_eq!(display_lines("[AS: Arion] A story"), vec!["Arion: A story\n".to_string()]);
    assert_eq!(display_lines("[AS: Arion]"), vec!["Arion]\n".to_string()]);
    assert_eq!(
        display_lines("[CHAPTER: start] Chapter One"),
        vec![
            "\n╔════════════════════════════════════════╗".to_string(),
            format!("║ {:<38} ║", "Chapter One"),
            "╚════════════════════════════════════════╝\n".to_string(),
        ]
    );
    assert!(display_lines("[CHAPTER: start]").is_empty());
}

#[test]
fn parse_choice_reads_the_answer() {
    assert_eq!(parse_choice("2\n", 3), Some(1));
    assert_eq!(parse_choice("  +1  ", 3), Some(0));
    assert_eq!(parse_choice("0", 3), None);
    assert_eq!(parse_choice("4", 3), None);
    assert_eq!(parse_choice("x", 3), None);
    assert_eq!(parse_choice("", 3), None);
    assert_eq!(parse_choice("-1", 3), None);
    assert_eq!(parse_choice("99999999999999999999999", 3), None);
}

#[test]
fn report_lists_output_and_options() {
    let output = vec!["[TEXT] a".to_string()];
    let options = vec![("Go".to_string(), "section::b".to_string())];
    assert_eq!(
        report_lines(&output, &options),
        vec![
            "=== STORY OUTPUT ===".to_string(),
            String::new(),
            "[TEXT] a".to_string(),
            String::new(),
            "--- OPTIONS ---".to_string(),
            "  > Go -> section::b".to_string(),
        ]
    );
    assert_eq!(report_lines(&output, &[]), vec!["=== STORY OUTPUT ===".to_string(), String::new(), "[TEXT] a".to_string()]);
}
