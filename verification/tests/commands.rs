use sway_tab::commands::{
    any_rejected, focus_command, focus_window, focus_window_reply, remove_bindings,
    remove_bindings_reply, setup_bindings, setup_bindings_reply, Binding, Reply, SetupStep,
};
use sway_tab::text::{push_decimal, push_signed_decimal};

fn failed(reason: &str) -> Reply {
    Reply::Failed(reason.to_string())
}

#[test]
fn decimal_text() {
    for n in [0u64, 7, 10, 99, 100, 1234567890, u64::MAX] {
        let mut text = String::from("n=");
        push_decimal(&mut text, n);
        assert_eq!(text, format!("n={}", n));
    }
    for i in [0i64, -1, 42, -1000, i64::MAX, i64::MIN] {
        let mut text = String::new();
        push_signed_decimal(&mut text, i);
        assert_eq!(text, format!("{}", i));
    }
}

#[test]
fn focus_command_text() {
    assert_eq!(focus_command(42), "[con_id=42] focus");
    assert_eq!(focus_command(-3), "[con_id=-3] focus");
    assert_ne!(focus_command(4), focus_command(44));
}

#[test]
fn focus_window_starts_with_the_connection() {
    assert_eq!(focus_window(5, Ok(())), Ok("[con_id=5] focus".to_string()));
    assert_eq!(
        focus_window(5, Err("no socket".to_string())),
        Err("Connection error: no socket".to_string())
    );
}

#[test]
fn focus_window_reports_failures() {
    assert_eq!(focus_window_reply(5, Reply::Answered(vec![false, false])), None);
    assert_eq!(focus_window_reply(5, Reply::Answered(Vec::new())), None);
    assert_eq!(
        focus_window_reply(5, Reply::Answered(vec![false, true])),
        Some("Preview focus error for con_id=5".to_string())
    );
    assert_eq!(
        focus_window_reply(5, failed("broken pipe")),
        Some("Preview focus error: broken pipe".to_string())
    );
}

#[test]
fn rejections() {
    assert!(!any_rejected(&vec![]));
    assert!(any_rejected(&vec![false, true, false]));
    assert!(!any_rejected(&vec![false, false]));
}

#[test]
fn setup_binds_press_and_release() {
    match setup_bindings(1234, Ok(())) {
        SetupStep::Run(Binding::Press, command) => {
            assert_eq!(command, "bindsym Alt+Tab exec kill -USR1 1234")
        }
        _ => panic!("the press comes first"),
    }
    match setup_bindings_reply(1234, Binding::Press, Reply::Answered(vec![false])) {
        SetupStep::Run(Binding::Release, command) => {
            assert_eq!(command, "bindsym --release Alt+Tab exec kill -RTMIN 1234")
        }
        _ => panic!("the release follows"),
    }
    assert!(matches!(
        setup_bindings_reply(1234, Binding::Release, Reply::Answered(vec![false])),
        SetupStep::Done(None)
    ));
}

#[test]
fn setup_fails_without_the_press() {
    assert!(matches!(
        setup_bindings(1, Err("no socket".to_string())),
        SetupStep::Failed(reason) if reason == "no socket"
    ));
    assert!(matches!(
        setup_bindings_reply(1, Binding::Press, Reply::Answered(vec![true])),
        SetupStep::Failed(reason) if reason == "Failed to bind Alt+Tab"
    ));
    assert!(matches!(
        setup_bindings_reply(1, Binding::Press, failed("gone")),
        SetupStep::Failed(reason) if reason == "gone"
    ));
    assert!(matches!(
        setup_bindings_reply(1, Binding::Release, failed("gone")),
        SetupStep::Failed(reason) if reason == "gone"
    ));
}

#[test]
fn setup_only_warns_about_the_release() {
    assert!(matches!(
        setup_bindings_reply(1, Binding::Release, Reply::Answered(vec![true])),
        SetupStep::Done(Some(warning)) if warning == "Warning: failed to bind --release Alt+Tab"
    ));
}

#[test]
fn removal_unbinds_what_setup_bound() {
    let commands = remove_bindings(Ok(())).unwrap();
    assert_eq!(commands, vec!["unbindsym Alt+Tab", "unbindsym --release Alt+Tab"]);
    assert_eq!(
        remove_bindings(Err("no socket".to_string())),
        Err("Warning: failed to connect for unbinding: no socket".to_string())
    );
    assert_eq!(Binding::Release.unbind_command(), "unbindsym --release Alt+Tab");
}

#[test]
fn removal_reports_failures() {
    assert_eq!(remove_bindings_reply("unbindsym Alt+Tab", Reply::Answered(vec![false])), None);
    assert_eq!(
        remove_bindings_reply("unbindsym Alt+Tab", Reply::Answered(vec![true])),
        Some("Warning: failed to unbind: unbindsym Alt+Tab".to_string())
    );
    assert_eq!(
        remove_bindings_reply("unbindsym Alt+Tab", failed("gone")),
        Some("Warning: unbind command failed: gone".to_string())
    );
}
