use guardrail::macos::backend::{ChildStep, MacosBackend};
use guardrail::macos::descriptors::{
    first_step, populated_entries, step_after_flags, table_size, DescriptorError, DescriptorStep,
    TableSize, FD_CLOEXEC,
};
use guardrail::macos::profile::SeatbeltProfile;
use guardrail::macos::sbpl::sbpl_string;
use guardrail::macos::seatbelt::{
    prepare, resolve, validate, ImportedProfile, InteriorNul, PreparedLaunch, SANDBOX_EXEC_PATH,
};
use guardrail::rlimit::{LimitSetting, LimitedResource};
use guardrail::{
    EnvMap, Error, ErrorSource, FsAccess, OsText, ResourceLimits, SandboxCommand, SandboxConfig,
    SandboxPath,
};

fn prepared(source: &str) -> guardrail::macos::seatbelt::PreparedProfile {
    prepare(SeatbeltProfile { source: source.to_string() }).unwrap()
}

fn texts(words: &[OsText]) -> Vec<String> {
    words.iter().map(|word| String::from_utf8(word.bytes.clone()).unwrap()).collect()
}

fn command(program: &str, args: &[&str]) -> SandboxCommand<u8> {
    let mut command = SandboxCommand::new(program.into());
    command.args = args.iter().map(|arg| OsText::from(*arg)).collect();
    command
}

fn message(error: Error) -> (&'static str, String) {
    match error {
        Error::Confinement { stage, source: ErrorSource::Message(text) } => (stage, text),
        other => panic!("unexpected {other:?}"),
    }
}

#[test]
fn launcher_argv_and_env_are_fully_prepared() {
    let profile = prepared("(version 1)\n(deny default)\n");
    let command = command("/tmp/program", &["first", "two words"]);
    let mut env = EnvMap::new();
    env.insert("EMPTY".to_owned(), String::new());
    env.insert("PATH".to_owned(), "/usr/bin:/bin".to_owned());

    let launcher = PreparedLaunch::new(&profile, &command, &env).unwrap();

    assert_eq!(
        texts(&launcher.argv),
        [
            SANDBOX_EXEC_PATH,
            "-p",
            "(version 1)\n(deny default)\n",
            "--",
            "/tmp/program",
            "first",
            "two words",
        ]
    );
    assert_eq!(texts(&launcher.env), ["EMPTY=", "PATH=/usr/bin:/bin"]);
}

#[test]
fn custom_profile_paths_are_imported_before_generated_policy() {
    let first = SandboxPath::from("/tmp/guardrail-seatbelt-1.sb");
    let second = SandboxPath::from("/tmp/guardrail-seatbelt-2.sb");
    let config = SandboxConfig {
        fs: vec![FsAccess::ReadAllow("/generated-read".into())],
        darwin_sandbox_profiles: vec![first.clone(), second.clone()],
        ..SandboxConfig::default()
    };
    let first_import = sbpl_string(&first).unwrap();
    let second_import = sbpl_string(&second).unwrap();
    let imports: Vec<ImportedProfile> = vec![
        Ok((first, "(version 1)\n(allow file-read*)\n".to_string())),
        Ok((second, "(version 1)\n(allow process*)\n".to_string())),
    ];
    let profile = resolve(&config, &vec![None], &imports).unwrap();

    assert_eq!(
        profile.source,
        format!(
            "(version 1)\n\
             (import \"{first_import}\")\n\
             (import \"{second_import}\")\n\
             (deny default)\n\
             (debug deny)\n\
             (allow file-read* (subpath \"/generated-read\"))\n",
        )
    );
}

#[test]
fn rejects_generated_profile_with_interior_nul_byte() {
    let config = SandboxConfig {
        fs: vec![FsAccess::ReadAllow("/tmp/has\0nul".into())],
        ..SandboxConfig::default()
    };

    let err = resolve(&config, &vec![None], &vec![]).unwrap_err();

    assert!(matches!(err, Error::Confinement { stage: "seatbelt-profile", .. }));
}

#[test]
fn rejects_custom_profile_with_interior_nul_byte() {
    let path = SandboxPath::from("/tmp/guardrail-seatbelt-nul.sb");
    let config = SandboxConfig {
        darwin_sandbox_profiles: vec![path.clone()],
        ..SandboxConfig::default()
    };
    let imports: Vec<ImportedProfile> = vec![Ok((path, "(version 1)\n\0\n".to_string()))];
    let err = resolve(&config, &vec![], &imports).unwrap_err();

    assert_eq!(
        message(err),
        ("seatbelt-profile", "Seatbelt profile contains an interior NUL byte".to_string())
    );
}

#[test]
fn unreadable_imports_are_reported_in_order() {
    let config = SandboxConfig {
        darwin_sandbox_profiles: vec!["/a".into(), "/b".into()],
        ..SandboxConfig::default()
    };
    let imports: Vec<ImportedProfile> = vec![
        Err("No such file or directory (os error 2)".to_string()),
        Ok(("/b".into(), "\0".to_string())),
    ];
    let err = resolve(&config, &vec![], &imports).unwrap_err();
    assert_eq!(
        message(err),
        ("seatbelt-profile", "No such file or directory (os error 2)".to_string())
    );
}

#[test]
fn imports_must_be_named_by_plain_absolute_paths() {
    for (name, problem) in [
        ("rel.sb", "sandbox policy path is not absolute"),
        ("", "sandbox policy path is not absolute"),
        ("/a\nb.sb", "sandbox policy path contains a control character"),
    ] {
        let config = SandboxConfig {
            darwin_sandbox_profiles: vec!["/good.sb".into(), name.into()],
            ..SandboxConfig::default()
        };
        let good: ImportedProfile = Ok(("/good.sb".into(), "(version 1)\n".to_string()));
        let read: ImportedProfile = Ok(("/real.sb".into(), "(version 1)\n".to_string()));
        match MacosBackend::new(config, &vec![], &vec![good, read]) {
            Err(Error::Confinement {
                stage: "seatbelt-profile",
                source: ErrorSource::InvalidPath { message, path },
            }) => {
                assert_eq!(message, problem);
                assert_eq!(path, SandboxPath::from(name));
            }
            _ => panic!("{name:?} must be refused"),
        }
    }
    let config = SandboxConfig {
        darwin_sandbox_profiles: vec![SandboxPath::new(b"/\xff".to_vec())],
        ..SandboxConfig::default()
    };
    let imports: Vec<ImportedProfile> = vec![Err("unreadable".to_string())];
    assert!(matches!(
        resolve(&config, &vec![], &imports),
        Err(Error::Confinement {
            source: ErrorSource::InvalidPath {
                message: "sandbox policy path is not valid UTF-8",
                ..
            },
            ..
        })
    ));
}

#[test]
fn variables_are_handed_over_in_the_order_of_their_names() {
    let mut env = EnvMap::new();
    for (name, value) in [("PATH", "/bin"), ("EMPTY", ""), ("A", "1"), ("PATH", "/usr/bin")] {
        env.insert(name.to_string(), value.to_string());
    }
    let launch = PreparedLaunch::new(&prepared(""), &command("a", &[]), &env).unwrap();
    assert_eq!(texts(&launch.env), ["A=1", "EMPTY=", "PATH=/usr/bin"]);
}

#[test]
fn profiles_with_nul_are_not_prepared() {
    assert!(validate("(version 1)").is_ok());
    assert!(validate("\0").is_err());
    let err = prepare(SeatbeltProfile { source: "é\0".to_string() }).unwrap_err();
    assert_eq!(
        message(err),
        ("seatbelt-profile", "nul byte found in provided data at position: 2".to_string())
    );
}

#[test]
fn words_with_nul_are_refused() {
    let profile = prepared("");
    let env = EnvMap::new();
    assert_eq!(
        PreparedLaunch::new(&profile, &command("a\0", &["\0"]), &env),
        Err(InteriorNul { position: 1 })
    );
    assert_eq!(
        PreparedLaunch::new(&profile, &command("a", &["b", "cc\0"]), &env),
        Err(InteriorNul { position: 2 })
    );
    let mut env = EnvMap::new();
    env.insert("A".to_string(), "b\0c".to_string());
    let nul = PreparedLaunch::new(&profile, &command("a", &[]), &env).unwrap_err();
    assert_eq!(nul.to_text(), "nul byte found in provided data at position: 3");
}

#[test]
fn the_backend_scrubs_limits_and_launches() {
    let config = SandboxConfig {
        limits: ResourceLimits {
            memory_bytes: None,
            cpu_time_secs: Some(5),
            max_processes: None,
        },
        ..SandboxConfig::default()
    };
    let backend = MacosBackend::new(config, &vec![], &vec![]).unwrap();
    assert_eq!(
        backend.child_steps(),
        vec![
            ChildStep::ScrubDescriptors,
            ChildStep::SetLimit(LimitSetting { resource: LimitedResource::CpuTime, value: 5 }),
            ChildStep::ExecLauncher,
        ]
    );
    let launch = backend.launch(&command("/bin/ls", &["-l"])).unwrap();
    assert_eq!(
        texts(&launch.argv),
        [
            "/usr/bin/sandbox-exec",
            "-p",
            "(version 1)\n(deny default)\n(debug deny)\n",
            "--",
            "/bin/ls",
            "-l",
        ]
    );
    assert!(launch.env.is_empty());
}

#[test]
fn unusual_paths_leave_the_profile_whole() {
    let config = SandboxConfig {
        fs: vec![
            FsAccess::ReadAllow("/odd \"name\" \\ here".into()),
            FsAccess::WriteDeny("/\u{e9}\u{2603}".into()),
        ],
        network: guardrail::NetworkPolicy::Full,
        ..SandboxConfig::default()
    };
    let profile = resolve(&config, &vec![None, None], &Vec::new()).unwrap();

    assert!(!profile.source.contains('\0'));
    assert!(profile.source.contains("/odd \\\"name\\\" \\\\ here"));
    assert!(prepare(profile).is_ok());
}

#[test]
fn the_backend_refuses_unusable_paths() {
    let config = SandboxConfig {
        fs: vec![FsAccess::ReadAllow("relative".into())],
        ..SandboxConfig::default()
    };
    assert!(matches!(
        MacosBackend::new(config, &vec![None], &vec![]),
        Err(Error::Confinement { stage: "seatbelt-profile", .. })
    ));
}

#[test]
fn descriptor_tables_hold_every_descriptor() {
    assert_eq!(table_size(256, 80, 8), Ok(TableSize { entries: 256, bytes: 2048 }));
    assert_eq!(table_size(2, 81, 8), Ok(TableSize { entries: 11, bytes: 88 }));
    assert_eq!(table_size(-1, 80, 8), Err(DescriptorError::SystemCall));
    assert_eq!(table_size(256, 0, 8), Err(DescriptorError::SystemCall));
    assert_eq!(table_size(i32::MAX, 80, 8), Err(DescriptorError::Overflow));
    assert_eq!(table_size(0, i32::MAX, 8), Err(DescriptorError::Overflow));
}

#[test]
fn listings_must_hold_whole_entries() {
    let size = TableSize { entries: 4, bytes: 32 };
    assert_eq!(populated_entries(24, &size, 8), Ok(3));
    assert_eq!(populated_entries(32, &size, 8), Ok(4));
    assert_eq!(populated_entries(0, &size, 8), Err(DescriptorError::SystemCall));
    assert_eq!(populated_entries(-1, &size, 8), Err(DescriptorError::SystemCall));
    assert_eq!(populated_entries(20, &size, 8), Err(DescriptorError::Malformed));
    assert_eq!(populated_entries(40, &size, 8), Err(DescriptorError::Malformed));
}

#[test]
fn descriptors_above_stderr_are_flagged() {
    for fd in [0, 1, 2] {
        assert_eq!(first_step(fd), DescriptorStep::Keep);
    }
    assert_eq!(first_step(3), DescriptorStep::GetFlags);
    assert_eq!(step_after_flags(0, false), DescriptorStep::SetFlags(FD_CLOEXEC));
    assert_eq!(step_after_flags(6, false), DescriptorStep::SetFlags(7));
    assert_eq!(step_after_flags(5, false), DescriptorStep::Keep);
    assert_eq!(step_after_flags(-1, true), DescriptorStep::Keep);
    assert_eq!(step_after_flags(-1, false), DescriptorStep::Fail);
}
