use agterm::automation::{AutomationCommand, AutomationEngine, AutomationError, AutomationScript, CommandResult, Condition, ExecutionContext, Key, Pattern, ScriptStep};
use std::time::Duration;

#[test]
fn test_key_to_bytes() {
    assert_eq!(Key::Enter.to_bytes(), vec![b'\r']);
    assert_eq!(Key::Tab.to_bytes(), vec![b'\t']);
    assert_eq!(Key::Escape.to_bytes(), vec![0x1B]);
    assert_eq!(Key::Up.to_bytes(), b"\x1B[A");
    assert_eq!(Key::Ctrl('c').to_bytes(), vec![3]); // Ctrl+C = 0x03
    assert_eq!(Key::Char('a').to_bytes(), vec![b'a']);
}

#[test]
fn test_key_from_str() {
    assert_eq!(Key::from_str("ENTER"), Some(Key::Enter));
    assert_eq!(Key::from_str("Tab"), Some(Key::Tab));
    assert_eq!(Key::from_str("F1"), Some(Key::F(1)));
    assert_eq!(Key::from_str("F12"), Some(Key::F(12)));
    assert_eq!(Key::from_str("CTRL+C"), Some(Key::Ctrl('C')));
    assert_eq!(Key::from_str("ALT+A"), Some(Key::Alt('A')));
    assert_eq!(Key::from_str("a"), Some(Key::Char('a')));
    assert_eq!(Key::from_str("INVALID"), None);
}

#[test]
fn test_pattern_exact_match() {
    let pattern = Pattern::Exact("hello".to_string());
    assert!(pattern.matches("hello world"));
    assert!(pattern.matches("say hello"));
    assert!(!pattern.matches("goodbye"));
}

#[test]
fn test_pattern_regex_match() {
    let pattern = Pattern::Regex(r"\d{3}-\d{4}".to_string());
    assert!(pattern.matches("Call 555-1234 now"));
    assert!(!pattern.matches("No phone number here"));
}

#[test]
fn test_pattern_any_of() {
    let pattern = Pattern::AnyOf(vec![
        Pattern::Exact("hello".to_string()),
        Pattern::Exact("goodbye".to_string()),
    ]);
    assert!(pattern.matches("hello world"));
    assert!(pattern.matches("goodbye world"));
    assert!(!pattern.matches("neither"));
}

#[test]
fn test_context_variable_expansion() {
    let mut context = ExecutionContext::default();
    context.set_variable("NAME", "Alice");
    context.set_variable("AGE", "30");

    assert_eq!(
        context.expand_variables("Hello ${NAME}, you are $AGE years old", &Vec::new()),
        "Hello Alice, you are 30 years old"
    );
}

#[test]
fn test_context_env_expansion() {
    let env = vec![("TEST_VAR".to_string(), "test_value".to_string())];
    let context = ExecutionContext::default();

    assert_eq!(
        context.expand_variables("Value: ${ENV:TEST_VAR}", &env),
        "Value: test_value"
    );
}

#[test]
fn test_condition_var_equals() {
    let mut context = ExecutionContext::default();
    context.set_variable("STATUS", "ok");

    let condition = Condition::VarEquals("STATUS".to_string(), "ok".to_string());
    assert!(condition.evaluate(&context, &Vec::new()));

    let condition = Condition::VarEquals("STATUS".to_string(), "error".to_string());
    assert!(!condition.evaluate(&context, &Vec::new()));
}

#[test]
fn test_condition_var_contains() {
    let mut context = ExecutionContext::default();
    context.set_variable("OUTPUT", "Error: file not found");

    let condition = Condition::VarContains("OUTPUT".to_string(), "Error".to_string());
    assert!(condition.evaluate(&context, &Vec::new()));

    let condition = Condition::VarContains("OUTPUT".to_string(), "Success".to_string());
    assert!(!condition.evaluate(&context, &Vec::new()));
}

#[test]
fn test_condition_logical_ops() {
    let mut context = ExecutionContext::default();
    context.set_variable("A", "1");
    context.set_variable("B", "2");

    let cond_a = || Condition::VarEquals("A".to_string(), "1".to_string());
    let cond_b = || Condition::VarEquals("B".to_string(), "2".to_string());
    let cond_c = || Condition::VarEquals("C".to_string(), "3".to_string());

    // AND
    let and_true = Condition::And(Box::new(cond_a()), Box::new(cond_b()));
    assert!(and_true.evaluate(&context, &Vec::new()));

    let and_false = Condition::And(Box::new(cond_a()), Box::new(cond_c()));
    assert!(!and_false.evaluate(&context, &Vec::new()));

    // OR
    let or_true = Condition::Or(Box::new(cond_a()), Box::new(cond_c()));
    assert!(or_true.evaluate(&context, &Vec::new()));

    // NOT
    let not = Condition::Not(Box::new(cond_c()));
    assert!(not.evaluate(&context, &Vec::new()));
}

#[test]
fn test_parse_duration() {
    assert_eq!(
        AutomationEngine::parse_duration("100ms", 1).unwrap(),
        Duration::from_millis(100)
    );
    assert_eq!(
        AutomationEngine::parse_duration("5s", 1).unwrap(),
        Duration::from_secs(5)
    );
    assert_eq!(
        AutomationEngine::parse_duration("2m", 1).unwrap(),
        Duration::from_secs(120)
    );
}

#[test]
fn test_unquote() {
    assert_eq!(AutomationEngine::unquote("\"hello\""), "hello");
    assert_eq!(AutomationEngine::unquote("'world'"), "world");
    assert_eq!(AutomationEngine::unquote("no quotes"), "no quotes");
}

    #[test]
    fn test_parse_script_basic() {
        let script_text = r#"
# This is a comment
SEND "echo hello"
SEND_KEY Enter
WAIT_FOR "hello" 5s
CAPTURE
EXPECT "hello"
        "#;

        let script = AutomationEngine::parse_script(script_text).unwrap();
        assert_eq!(script.commands.len(), 5);
    }

    #[test]
    fn test_parse_script_variables() {
        let script_text = r#"
SET NAME="Alice"
SEND "Hello ${NAME}"
        "#;

        let script = AutomationEngine::parse_script(script_text).unwrap();
        assert_eq!(script.commands.len(), 2);
    }

#[test]
fn test_automation_script_builder() {
    let mut script = AutomationScript::new("test_script")
        .with_description("A test script");

    script.set_variable("USER", "alice");
    script.add_command(AutomationCommand::SendText {
        text: "Hello ${USER}".to_string(),
        append_newline: true,
    });
    script.add_command(AutomationCommand::Sleep(Duration::from_millis(100)));

    assert_eq!(script.name, "test_script");
    assert_eq!(script.commands.len(), 2);
    assert_eq!(script.variables.iter().find(|(k, _)| k == "USER").map(|(_, v)| v), Some(&"alice".to_string()));
}

#[test]
fn test_pattern_extract() {
    let exact = Pattern::Exact("hello".to_string());
    assert_eq!(exact.extract("say hello"), Some("hello".to_string()));
    assert_eq!(exact.extract("goodbye"), None);

    let re = Pattern::Regex(r"\d+".to_string());
    assert_eq!(re.extract("ab 42 cd 7"), Some("42".to_string()));
    assert_eq!(re.extract("no digits"), None);

    let bad = Pattern::Regex("(".to_string());
    assert_eq!(bad.extract("("), None);

    let any = Pattern::AnyOf(vec![
        Pattern::Exact("zzz".to_string()),
        Pattern::Regex(r"[a-z]+\d".to_string()),
        Pattern::Exact("ab".to_string()),
    ]);
    assert_eq!(any.extract("ab1 x"), Some("ab1".to_string()));

    let all = Pattern::AllOf(vec![
        Pattern::Exact("ab".to_string()),
        Pattern::Regex(r"\d".to_string()),
    ]);
    assert_eq!(all.extract("ab1 x"), Some("ab1 x".to_string()));
    assert_eq!(all.extract("ab x"), None);
}

#[test]
fn test_take_output_buffers_and_trims() {
    let mut engine = AutomationEngine::new();
    engine.context_mut().max_buffer_size = 4;
    assert_eq!(engine.take_output(b"ab"), Some("ab".to_string()));
    assert_eq!(engine.take_output(b"cdef"), Some("cdef".to_string()));
    assert_eq!(engine.context().output_buffer, "cdef");
    // a cut that would end inside a character is refused, the buffer kept
    engine.context_mut().max_buffer_size = 3;
    engine.context_mut().output_buffer = "\u{e9}".to_string();
    assert_eq!(engine.take_output(b"xy"), None);
    assert_eq!(engine.context().output_buffer, "\u{e9}");
    // invalid UTF-8 is replaced
    let mut other = AutomationEngine::new();
    assert_eq!(other.take_output(&[0x61, 0xff]), Some("a\u{fffd}".to_string()));
}

#[test]
fn test_start_script_sets_variables_in_order() {
    let mut engine = AutomationEngine::with_variables(vec![("A".to_string(), "0".to_string())]);
    let mut script = AutomationScript::new("s");
    script.set_variable("A", "1");
    script.set_variable("B", "2");
    engine.start_script(&script);
    assert_eq!(
        engine.context().variables,
        vec![("A".to_string(), "1".to_string()), ("B".to_string(), "2".to_string())]
    );
}

#[test]
fn test_start_script_str_stops_on_parse_error() {
    let mut engine = AutomationEngine::new();
    engine.context_mut().set_variable("X", "1");
    let r = engine.start_script_str("SEND \"a\"\nBOGUS");
    match r {
        Err(agterm::automation::AutomationError::ParseError { line, .. }) => assert_eq!(line, 2),
        _ => panic!("expected a parse error"),
    }
    assert_eq!(engine.context().variables, vec![("X".to_string(), "1".to_string())]);
    let ok = engine.start_script_str("# comment\n\nSEND \"a\"\nSEND_KEY ENTER").unwrap();
    assert_eq!(ok.commands.len(), 2);
}

#[test]
fn test_append_output_keeps_newest_bytes() {
    let mut ctx = ExecutionContext::default();
    ctx.max_buffer_size = 4;
    ctx.append_output("abc");
    assert_eq!(ctx.output_buffer, "abc");
    ctx.append_output("def");
    assert_eq!(ctx.output_buffer, "cdef");
    assert!(ctx.output_buffer.len() <= ctx.max_buffer_size);
}

#[test]
fn script_parse_error_names_first_bad_line_and_runs_nothing() {
    let mut engine = AutomationEngine::new();
    let r = engine.start_script_str("SEND \"a\"\nBOGUS");
    match r {
        Err(AutomationError::ParseError { line, message }) => {
            assert_eq!(line, 2);
            assert_eq!(message, "Unknown command: BOGUS");
        }
        other => panic!("expected a parse error, got {:?}", other),
    }
    assert!(engine.context().variables.is_empty());
}

#[test]
fn script_parse_stops_before_later_lines() {
    // The third line would take the inside of a lone quote; parsing stops at
    // the second, which fails first.
    let r = AutomationEngine::parse_script("CLEAR\nNOPE\nSEND \"");
    match r {
        Err(AutomationError::ParseError { line, .. }) => assert_eq!(line, 2),
        other => panic!("expected a parse error, got {:?}", other),
    }
}

fn result_of(ms: u64) -> CommandResult {
    CommandResult { success: true, output: None, error: None, duration: Duration::from_millis(ms) }
}

#[test]
fn script_steps_run_commands_in_order() {
    let script = AutomationEngine::parse_script("CLEAR\nCAPTURE\nCLEAR").unwrap();
    let mut results = Vec::new();
    assert!(matches!(AutomationEngine::first_step(&script), ScriptStep::Run(0)));
    assert!(matches!(AutomationEngine::script_step(&script, &mut results, Ok(result_of(1))), ScriptStep::Run(1)));
    assert!(matches!(AutomationEngine::script_step(&script, &mut results, Ok(result_of(2))), ScriptStep::Run(2)));
    assert!(matches!(AutomationEngine::script_step(&script, &mut results, Ok(result_of(3))), ScriptStep::Finished));
    assert_eq!(results.len(), 3);
    assert_eq!(results[2].duration, Duration::from_millis(3));
}

#[test]
fn script_steps_stop_at_first_failure() {
    let script = AutomationEngine::parse_script("CLEAR\nCLEAR\nCLEAR").unwrap();
    let mut results = Vec::new();
    assert!(matches!(AutomationEngine::script_step(&script, &mut results, Ok(result_of(1))), ScriptStep::Run(1)));
    let step = AutomationEngine::script_step(&script, &mut results, Err(AutomationError::Timeout("p".to_string())));
    assert!(matches!(step, ScriptStep::Failed(AutomationError::Timeout(ref p)) if p == "p"));
    assert_eq!(results.len(), 1);
}

#[test]
fn empty_script_finishes_at_once() {
    let script = AutomationEngine::parse_script("# nothing\n\n").unwrap();
    assert!(matches!(AutomationEngine::first_step(&script), ScriptStep::Finished));
}

#[test]
fn env_placeholders_need_a_name_and_a_closing_brace() {
    let context = ExecutionContext::new(Vec::new());
    let env = vec![("A".to_string(), "1".to_string()), ("B".to_string(), "2".to_string())];
    assert_eq!(context.expand_variables("${ENV:A}-${ENV:B}", &env), "1-2");
    assert_eq!(context.expand_variables("${ENV:}${ENV:A}", &env), "${ENV:}1");
    assert_eq!(context.expand_variables("${ENV:A", &env), "${ENV:A");
    assert_eq!(context.expand_variables("${ENV:C}", &env), "${ENV:C}");
}
