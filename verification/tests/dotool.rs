use smellytype::dotool::{exit_failure, spawn_failure, wait_failure, write_failure, DotoolOutput};
use smellytype::error::OutputError;
use std::path::PathBuf;

#[test]
fn rejects_protocol_injection_before_output() {
    let output = DotoolOutput::new(0, 0, false, None, None, None);
    for text in [
        "hello\nkey enter",
        "hello\rkey ctrl+a",
        "hello\0world",
        "hello\x1bworld",
        "hello\tworld",
    ] {
        assert!(output.build_commands(text).is_err());
    }
    let append = DotoolOutput::new(0, 0, false, Some("\nkey enter".into()), None, None);
    assert!(append.build_commands("你好").is_err());
    assert_eq!(
        output.build_commands("你好 key enter").unwrap(),
        "type 你好 key enter\n"
    );
}

#[test]
fn shared_daemon_discovery_is_disabled_for_all_output_paths() {
    assert!(DotoolOutput::daemon_pipe_path().is_none());
    assert!(DotoolOutput::live_daemon_pipe_path().is_none());
}

#[test]
fn test_new() {
    let output = DotoolOutput::new(10, 0, false, None, Some("de".to_string()), None);
    assert_eq!(output.type_delay_ms, 10);
    assert_eq!(output.pre_type_delay_ms, 0);
    assert!(!output.auto_submit);
    assert_eq!(output.xkb_layout, Some("de".to_string()));
}

#[test]
fn build_commands_basic() {
    let output = DotoolOutput::new(0, 0, false, None, None, None);
    let cmds = output.build_commands("Hello world").unwrap();
    assert_eq!(cmds, "type Hello world\n");
}

#[test]
fn build_commands_with_delay() {
    let output = DotoolOutput::new(17, 0, false, None, None, None);
    let cmds = output.build_commands("Test").unwrap();
    assert!(cmds.contains("typedelay 17"));
    assert!(cmds.contains("typehold 17"));
    assert!(cmds.contains("type Test"));
}

#[test]
fn build_commands_auto_submit_appends_enter() {
    let output = DotoolOutput::new(0, 0, true, None, None, None);
    let cmds = output.build_commands("hi").unwrap();
    assert!(cmds.contains("key enter"));
}

#[test]
fn build_commands_appends_text_before_enter() {
    let output = DotoolOutput::new(0, 0, true, Some(".".to_string()), None, None);
    let cmds = output.build_commands("hi").unwrap();
    let dot_pos = cmds.find("type .\n").unwrap();
    let enter_pos = cmds.find("key enter\n").unwrap();
    assert!(dot_pos < enter_pos);
}

#[test]
fn choose_invocation_uses_dotoolc_when_daemon_available_without_xkb_override() {
    let output = DotoolOutput::new(0, 0, false, None, None, None);
    let invocation = output.choose_invocation(Some(PathBuf::from("/tmp/dotool-pipe")));

    assert_eq!(invocation.binary, "dotoolc");
    assert_eq!(invocation.pipe, Some(PathBuf::from("/tmp/dotool-pipe")));
    assert!(!invocation.set_layout_env);
    assert!(!invocation.skipped_daemon_for_layout);
}

#[test]
fn choose_invocation_bypasses_daemon_when_layout_override_is_set() {
    let output = DotoolOutput::new(0, 0, false, None, Some("ru".to_string()), None);
    let invocation = output.choose_invocation(Some(PathBuf::from("/tmp/dotool-pipe")));

    assert_eq!(invocation.binary, "dotool");
    assert_eq!(invocation.pipe, None);
    assert!(invocation.set_layout_env);
    assert!(invocation.skipped_daemon_for_layout);
}

#[test]
fn choose_invocation_bypasses_daemon_when_variant_override_is_set() {
    let output = DotoolOutput::new(0, 0, false, None, None, Some("phonetic".to_string()));
    let invocation = output.choose_invocation(Some(PathBuf::from("/tmp/dotool-pipe")));

    assert_eq!(invocation.binary, "dotool");
    assert_eq!(invocation.pipe, None);
    assert!(invocation.set_layout_env);
    assert!(invocation.skipped_daemon_for_layout);
}

#[test]
fn full_script_order_is_delays_text_append_enter() {
    let output = DotoolOutput::new(5, 0, true, Some(" ".to_string()), None, None);
    assert_eq!(
        output.build_commands("abc").unwrap(),
        "typedelay 5\ntypehold 5\ntype abc\ntype  \nkey enter\n"
    );
    let output = DotoolOutput::new(1234567, 0, false, None, None, None);
    assert_eq!(
        output.build_commands("x").unwrap(),
        "typedelay 1234567\ntypehold 1234567\ntype x\n"
    );
}

#[test]
fn script_lines_read_back_exactly() {
    let output = DotoolOutput::new(20, 0, true, Some("!".to_string()), None, None);
    let text = "type evil key enter 你好";
    let script = output.build_commands(text).unwrap();
    let lines: Vec<&str> = script.split_terminator('\n').collect();
    assert_eq!(
        lines,
        vec![
            "typedelay 20",
            "typehold 20",
            "type type evil key enter 你好",
            "type !",
            "key enter"
        ]
    );
}

#[test]
fn refusal_message_and_control_characters() {
    let output = DotoolOutput::new(0, 0, false, None, None, None);
    match output.build_commands("a\u{85}b") {
        Err(OutputError::InjectionFailed(m)) => assert_eq!(
            m,
            "dotool cannot safely type control characters; use another output backend"
        ),
        other => panic!("unexpected {:?}", other),
    }
    assert!(output.build_commands("a\u{7f}").is_err());
    assert!(output.build_commands("a\u{a0}b").is_ok());
    for c in ['\u{0}', '\u{1f}', '\u{7f}', '\u{9f}', '\u{a0}', 'a', '你'] {
        let text = format!("x{}y", c);
        assert_eq!(output.build_commands(&text).is_err(), c.is_control());
    }
}

#[test]
fn plan_output_skips_empty_text_and_sets_layout_env() {
    let output = DotoolOutput::new(
        0,
        250,
        false,
        None,
        Some("de".to_string()),
        Some("nodeadkeys".to_string()),
    );
    assert!(output.plan_output("").unwrap().is_none());
    let plan = output.plan_output("Grüße").unwrap().unwrap();
    assert_eq!(plan.pre_type_delay_ms, 250);
    assert_eq!(plan.commands, "type Grüße\n");
    assert_eq!(plan.invocation.binary, "dotool");
    assert_eq!(plan.invocation.pipe, None);
    assert!(!plan.invocation.skipped_daemon_for_layout);
    assert_eq!(
        plan.env,
        vec![
            ("DOTOOL_XKB_LAYOUT", "de".to_string()),
            ("XKB_DEFAULT_LAYOUT", "de".to_string()),
            ("DOTOOL_XKB_VARIANT", "nodeadkeys".to_string()),
            ("XKB_DEFAULT_VARIANT", "nodeadkeys".to_string()),
        ]
    );
    assert!(output.plan_output("bad\n").is_err());
}

#[test]
fn layout_env_is_empty_for_the_daemon_client() {
    let output = DotoolOutput::new(0, 0, false, None, None, None);
    let invocation = output.choose_invocation(Some(PathBuf::from("/run/pipe")));
    assert!(output.layout_env(&invocation).is_empty());
    let invocation = output.choose_invocation(None);
    assert_eq!(invocation.binary, "dotool");
    assert!(invocation.set_layout_env);
    assert!(!invocation.skipped_daemon_for_layout);
    assert!(output.layout_env(&invocation).is_empty());
}

#[test]
fn failure_messages() {
    assert!(matches!(
        spawn_failure("dotool", true, "gone"),
        OutputError::DotoolNotFound
    ));
    match spawn_failure("dotoolc", false, "denied") {
        OutputError::InjectionFailed(m) => assert_eq!(m, "Failed to spawn dotoolc: denied"),
        other => panic!("unexpected {:?}", other),
    }
    match write_failure("dotool", "broken pipe") {
        OutputError::InjectionFailed(m) => {
            assert_eq!(m, "Failed to write to dotool stdin: broken pipe")
        }
        other => panic!("unexpected {:?}", other),
    }
    match wait_failure("dotool", "interrupted") {
        OutputError::InjectionFailed(m) => assert_eq!(m, "Failed to wait for dotool: interrupted"),
        other => panic!("unexpected {:?}", other),
    }
    match exit_failure("dotool", "cannot open /dev/uinput") {
        OutputError::InjectionFailed(m) => assert_eq!(
            m,
            "dotool: uinput permission denied. Is user in 'input' group?"
        ),
        other => panic!("unexpected {:?}", other),
    }
    match exit_failure("dotool", "no permission here") {
        OutputError::InjectionFailed(m) => assert!(m.contains("uinput permission denied")),
        other => panic!("unexpected {:?}", other),
    }
    match exit_failure("dotool", "bad layout") {
        OutputError::InjectionFailed(m) => assert_eq!(m, "dotool exited with error: bad layout"),
        other => panic!("unexpected {:?}", other),
    }
    assert_eq!(
        OutputError::InjectionFailed("x".to_string()).detail(),
        Some("x".to_string())
    );
    assert_eq!(OutputError::DotoolNotFound.detail(), None);
}
