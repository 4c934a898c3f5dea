use kannaka_crystal::dream::DreamMode;
use kannaka_crystal::engine::Mechanism;
use kannaka_crystal::lang::{
    arg, opt_num, parse_float, parse_num, parse_statement, program_lines, tokenize, LangError, Statement,
};

fn args(v: &[&str]) -> Vec<String> {
    v.iter().map(|s| s.to_string()).collect()
}

#[test]
fn unknown_op_is_a_parse_error() {
    let lines = program_lines("FROBNICATE 1");
    assert_eq!(lines.len(), 1);
    let (line, text) = &lines[0];
    let err = parse_statement(*line, text).err().unwrap();
    assert!(matches!(err, LangError::Parse { line: 1, .. }));
    assert_eq!(err.to_display_string(), "line 1: unknown op: FROBNICATE");
}

#[test]
fn program_lines_strip_comments_and_blank_lines() {
    let program = "\n            # a small experiment\n            MATERIAL optical_cavity\n            SEED 21   # trailing comment\n\n            WRITE \"glyph twenty one\" 0.9\n";
    let lines = program_lines(program);
    assert_eq!(
        lines,
        vec![
            (3, "MATERIAL optical_cavity".to_string()),
            (4, "SEED 21".to_string()),
            (6, "WRITE \"glyph twenty one\" 0.9".to_string()),
        ]
    );
    assert!(program_lines("").is_empty());
    assert!(program_lines("   \n# only a comment\n").is_empty());
}

#[test]
fn tokenizer_honors_quotes() {
    assert_eq!(
        tokenize("WRITE \"hello world\" 0.8", 1).unwrap(),
        vec!["WRITE", "hello world", "0.8"]
    );
    assert_eq!(tokenize("a\"b c\"d", 1).unwrap(), vec!["a\"b", "c\"d"]);
    assert_eq!(tokenize("\"x\"y z", 1).unwrap(), vec!["x", "y", "z"]);
    let err = tokenize("WRITE \"open", 7).unwrap_err();
    assert_eq!(err.to_display_string(), "line 7: unterminated string");
    let err = tokenize("   ", 2).unwrap_err();
    assert_eq!(err.to_display_string(), "line 2: empty statement");
}

#[test]
fn argument_helpers() {
    let a = args(&["42", "0.5", "x", "+7", "1e3", "inf", "-.5"]);
    assert_eq!(arg(&a, 2, 1, "text").unwrap(), "x");
    assert_eq!(arg(&a, 9, 3, "text").unwrap_err().to_display_string(), "line 3: missing argument: text");
    assert_eq!(parse_num(&a, 0, 1).unwrap(), 42);
    assert_eq!(parse_num(&a, 3, 1).unwrap(), 7);
    assert_eq!(parse_num(&a, 1, 4).unwrap_err().to_display_string(), "line 4: not a number: 0.5");
    assert_eq!(parse_float(&a, 1, 1).unwrap(), "0.5");
    assert_eq!(parse_float(&a, 4, 1).unwrap(), "1e3");
    assert_eq!(parse_float(&a, 5, 1).unwrap(), "inf");
    assert_eq!(parse_float(&a, 6, 1).unwrap(), "-.5");
    assert!(parse_float(&a, 2, 1).is_err());
    assert_eq!(opt_num(&a, 1), Some("0.5".to_string()));
    assert_eq!(opt_num(&a, 2), None);
    assert_eq!(opt_num(&a, 99), None);
    // Every literal the grammar accepts parses as f64, and conversely.
    for s in ["0.5", "1e3", "inf", "-.5", "+3.", "NaN", "1E-7", "x", "1e", ".", "--1", "1.2.3"] {
        let ok = opt_num(&args(&[s]), 0).is_some();
        assert_eq!(ok, s.parse::<f64>().is_ok(), "{s}");
    }
}

#[test]
fn statements_parse_to_their_operations() {
    let (op, st) = parse_statement(1, "seed 42").unwrap();
    assert_eq!(op, "SEED");
    assert!(matches!(st, Statement::Seed { seed: 42 }));

    let (_, st) = parse_statement(1, "WAIT 100").unwrap();
    assert!(matches!(st, Statement::Resonate { steps: 100 }));

    let (_, st) = parse_statement(1, "PULSE 0.5 0.5 0.05 1.0 2.0 0.0").unwrap();
    match st {
        Statement::Pulse { x, y, radius, amplitude, frequency, phase } => {
            assert_eq!((x.as_str(), y.as_str()), ("0.5", "0.5"));
            assert_eq!(radius.as_deref(), Some("0.05"));
            assert_eq!(amplitude.as_deref(), Some("1.0"));
            assert_eq!(frequency.as_deref(), Some("2.0"));
            assert_eq!(phase.as_deref(), Some("0.0"));
        }
        _ => panic!("expected a pulse"),
    }

    let (_, st) = parse_statement(1, "DREAM").unwrap();
    assert!(matches!(st, Statement::Dream { mode: DreamMode::Deep }));
    let (_, st) = parse_statement(1, "DREAM Light").unwrap();
    assert!(matches!(st, Statement::Dream { mode: DreamMode::Light }));
    let err = parse_statement(5, "DREAM nightmare").err().unwrap();
    assert_eq!(err.to_display_string(), "line 5: unknown dream mode: nightmare");

    let (_, st) = parse_statement(1, "ABLATE Pruning OFF").unwrap();
    match st {
        Statement::Ablate { mechanism, name, enabled } => {
            assert_eq!(mechanism, Mechanism::DreamPruning);
            assert_eq!(name, "pruning");
            assert!(!enabled);
        }
        _ => panic!("expected an ablation"),
    }
    let err = parse_statement(2, "ABLATE damping maybe").err().unwrap();
    assert_eq!(err.to_display_string(), "line 2: expected on|off, got maybe");
    let err = parse_statement(2, "ABLATE gravity on").err().unwrap();
    assert_eq!(err.to_display_string(), "line 2: unknown mechanism: gravity");
    let err = parse_statement(2, "ABLATE").err().unwrap();
    assert_eq!(err.to_display_string(), "line 2: missing argument: mechanism");

    let (_, st) = parse_statement(1, "RECALL \"glyph\" 2").unwrap();
    match st {
        Statement::Recall { query, top_k } => {
            assert_eq!(query, "glyph");
            assert_eq!(top_k.as_deref(), Some("2"));
        }
        _ => panic!("expected a recall"),
    }
    let err = parse_statement(3, "MERGE CRY-000001").err().unwrap();
    assert_eq!(err.to_display_string(), "line 3: missing argument: primitive id");
    let err = parse_statement(3, "TEMPERATURE warm").err().unwrap();
    assert_eq!(err.to_display_string(), "line 3: not a number: warm");
    assert!(matches!(parse_statement(1, "stabilize").unwrap().1, Statement::Stabilize));
}

#[test]
fn quote_free_statements_split_on_whitespace() {
    let text = "  PULSE\t0.5  0.5\n 0.05 ";
    let expected: Vec<String> = text.split_whitespace().map(String::from).collect();
    assert_eq!(tokenize(text, 1).unwrap(), expected);
}
