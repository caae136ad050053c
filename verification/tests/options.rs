use sway_tab::options::{parse_args, usage, Arg, Outcome};

fn args(texts: &[&str]) -> Vec<Arg> {
    texts
        .iter()
        .map(|text| Arg { text: text.to_string(), is_number: text.parse::<f64>().is_ok() })
        .collect()
}

fn run(texts: &[&str]) -> (bool, String) {
    match parse_args(&args(texts)) {
        Outcome::Run { trace, timeout } => (trace, timeout),
        _ => panic!("expected to run"),
    }
}

fn stop(texts: &[&str]) -> (i32, String) {
    let exit = parse_args(&args(texts)).exit().unwrap();
    (exit.code, exit.text)
}

#[test]
fn defaults() {
    assert_eq!(run(&[]), (false, "4.0".to_string()));
    assert!(parse_args(&args(&[])).exit().is_none());
}

#[test]
fn trace_and_timeout() {
    assert_eq!(run(&["--trace"]), (true, "4.0".to_string()));
    assert_eq!(run(&["-t", "2"]), (false, "2".to_string()));
    assert_eq!(run(&["--timeout", "0.5", "--trace"]), (true, "0.5".to_string()));
}

#[test]
fn later_timeout_wins() {
    assert_eq!(run(&["-t", "2", "--timeout", "3"]), (false, "3".to_string()));
}

#[test]
fn help_exits_with_usage() {
    assert_eq!(stop(&["--help"]), (0, usage()));
    assert_eq!(stop(&["--trace", "-h", "--bogus"]), (0, usage()));
}

#[test]
fn errors_in_order() {
    assert_eq!(stop(&["--timeout"]), (1, "Error: --timeout requires a value".to_string()));
    assert_eq!(stop(&["-t", "soon"]), (1, "Error: invalid timeout value: soon".to_string()));
    assert_eq!(stop(&["-t", "--help"]), (1, "Error: invalid timeout value: --help".to_string()));
    assert_eq!(stop(&["-t", "x", "--help"]), (1, "Error: invalid timeout value: x".to_string()));
    assert_eq!(stop(&["--bogus", "--help"]), (1, "Error: unknown option: --bogus".to_string()));
    assert_eq!(stop(&["7"]), (1, "Error: unknown option: 7".to_string()));
    assert_eq!(stop(&["--trac"]), (1, "Error: unknown option: --trac".to_string()));
}

#[test]
fn usage_lines() {
    let text = usage();
    let lines: Vec<&str> = text.lines().collect();
    assert_eq!(
        lines,
        vec![
            "Usage: sway-tab [OPTIONS]",
            "",
            "Options:",
            "  --trace          Enable verbose trace logging to stderr",
            "  --timeout N, -t N  Commit timeout in seconds (default: 4.0)",
            "  --help, -h       Print this help and exit",
        ]
    );
}
