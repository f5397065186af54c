use guardrail::{OsText, SandboxCommand, StdioMode};

#[test]
fn new_defaults_to_inherited_stdio_and_no_args() {
    let command: SandboxCommand<u8> = SandboxCommand::new("probe".into());
    assert_eq!(command.program, OsText::from("probe"));
    assert!(command.args.is_empty());
    assert!(command.current_dir.is_none());
    assert!(matches!(command.stdin, StdioMode::Inherit));
    assert!(matches!(command.stdout, StdioMode::Inherit));
    assert!(matches!(command.stderr, StdioMode::Inherit));
}

#[test]
fn streams_are_inherited_by_default() {
    let mode: StdioMode<u8> = StdioMode::default();
    assert_eq!(mode, StdioMode::Inherit);
    let command: SandboxCommand<u8> = SandboxCommand::default();
    assert_eq!(command, SandboxCommand::new("".into()));
}

#[test]
fn os_text_keeps_its_bytes() {
    assert_eq!(OsText::from("é/x").bytes, "é/x".as_bytes().to_vec());
    let text = OsText { bytes: vec![0xff, 0x2f] };
    assert_eq!(text.clone(), text);
}
