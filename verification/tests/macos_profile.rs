use guardrail::macos::aliases::{canonical_path, lookups, path_variants};
use guardrail::macos::profile::{build, build_with_imports, SeatbeltProfile};
use guardrail::macos::sbpl::sbpl_string;
use guardrail::{Error, FsAccess, NetworkPolicy, SandboxConfig, SandboxPath};

fn empty_config() -> SandboxConfig {
    SandboxConfig::default()
}

/// Builds the profile of a policy whose paths have no other names.
fn build_plain(config: &SandboxConfig) -> Result<SeatbeltProfile, Error> {
    let canonical = config.fs.iter().map(|_| None).collect();
    build(config, &canonical)
}

fn assert_substrings_in_order(haystack: &str, needles: &[&str]) {
    let mut offset = 0;
    for needle in needles {
        let Some(index) = haystack[offset..].find(needle) else {
            panic!("missing {needle:?} after byte {offset} in:\n{haystack}");
        };
        offset += index + needle.len();
    }
}

fn is_profile_error<T>(result: Result<T, Error>) -> bool {
    matches!(result, Err(Error::Confinement { stage: "seatbelt-profile", .. }))
}

#[test]
fn default_config_denies_by_default() {
    let profile = build_plain(&empty_config()).unwrap();

    assert_eq!(profile.source, "(version 1)\n(deny default)\n(debug deny)\n");
}

#[test]
fn imported_profiles_are_emitted_before_generated_rules() {
    let config = SandboxConfig {
        fs: vec![FsAccess::ReadAllow("/tmp/in".into())],
        ..empty_config()
    };
    let profile = build_with_imports(
        &config,
        &vec![None],
        &vec![SandboxPath::from("/tmp/base-one.sb"), SandboxPath::from("/tmp/base-two.sb")],
    )
    .unwrap();

    assert_substrings_in_order(
        &profile.source,
        &[
            "(version 1)\n",
            "(import \"/tmp/base-one.sb\")\n",
            "(import \"/tmp/base-two.sb\")\n",
            "(deny default)\n",
            "(debug deny)\n",
            "(allow file-read* (subpath \"/tmp/in\"))\n",
        ],
    );
}

#[test]
fn import_paths_are_escaped() {
    let profile = build_with_imports(
        &empty_config(),
        &vec![],
        &vec![SandboxPath::from(r#"/tmp/base"name\with-slash.sb"#)],
    )
    .unwrap();

    assert!(profile.source.contains(r#"(import "/tmp/base\"name\\with-slash.sb")"#));
}

#[test]
fn read_access_emits_file_read_subpath_rule() {
    let config = SandboxConfig {
        fs: vec![FsAccess::ReadAllow("/tmp/in".into())],
        ..empty_config()
    };
    let profile = build_plain(&config).unwrap();

    assert!(profile.source.contains("(version 1)\n"));
    assert!(profile.source.contains("(allow file-read* (subpath \"/tmp/in\"))\n"));
}

#[test]
fn filesystem_rules_emit_canonical_path_alias() {
    let config = SandboxConfig {
        fs: vec![FsAccess::ReadAllow("/root/alias/future.txt".into())],
        ..empty_config()
    };
    let profile = build(&config, &vec![Some("/root/real/future.txt".into())]).unwrap();

    let alias = sbpl_string(&"/root/alias/future.txt".into()).unwrap();
    let real = sbpl_string(&"/root/real/future.txt".into()).unwrap();
    assert!(profile.source.contains(&format!("(allow file-read* (subpath \"{alias}\"))\n")));
    assert!(profile.source.contains(&format!("(allow file-read* (subpath \"{real}\"))\n")));
}

#[test]
fn filesystem_rule_exclusions_emit_canonical_path_alias() {
    let config = SandboxConfig {
        fs: vec![
            FsAccess::ReadAllow("/root/alias".into()),
            FsAccess::ReadDeny("/root/alias/secret".into()),
        ],
        ..empty_config()
    };
    let profile = build(
        &config,
        &vec![Some("/root/real".into()), Some("/root/real/secret".into())],
    )
    .unwrap();

    let alias = sbpl_string(&"/root/alias/secret".into()).unwrap();
    let real = sbpl_string(&"/root/real/secret".into()).unwrap();
    assert!(profile.source.contains(&format!("(require-not (subpath \"{alias}\"))")));
    assert!(profile.source.contains(&format!("(require-not (subpath \"{real}\"))")));
}

#[test]
fn read_deny_emits_file_read_deny_rule() {
    let config = SandboxConfig {
        fs: vec![FsAccess::ReadDeny("/tmp/secret".into())],
        ..empty_config()
    };
    let profile = build_plain(&config).unwrap();

    assert!(profile.source.contains("(deny file-read* (subpath \"/tmp/secret\"))\n"));
}

#[test]
fn write_access_emits_only_file_write_subpath_rule() {
    let config = SandboxConfig {
        fs: vec![FsAccess::WriteAllow("/tmp/work".into())],
        ..empty_config()
    };
    let profile = build_plain(&config).unwrap();

    assert!(!profile.source.contains("(allow file-read*"));
    assert!(profile.source.contains("(allow file-write* (subpath \"/tmp/work\"))\n"));
}

#[test]
fn write_deny_emits_only_file_write_deny_rule() {
    let config = SandboxConfig {
        fs: vec![FsAccess::WriteDeny("/tmp/work".into())],
        ..empty_config()
    };
    let profile = build_plain(&config).unwrap();

    assert!(!profile.source.contains("(deny file-read*"));
    assert!(profile.source.contains("(deny file-write* (subpath \"/tmp/work\"))\n"));
}

#[test]
fn execute_access_emits_only_executable_rules() {
    let config = SandboxConfig {
        fs: vec![FsAccess::ExecuteAllow("/tmp/bin".into())],
        ..empty_config()
    };
    let profile = build_plain(&config).unwrap();

    assert!(!profile.source.contains("(allow file-read*"));
    assert!(profile.source.contains("(allow file-map-executable (subpath \"/tmp/bin\"))\n"));
    assert!(profile.source.contains("(allow process-exec* (subpath \"/tmp/bin\"))\n"));
}

#[test]
fn execute_deny_emits_only_executable_deny_rules() {
    let config = SandboxConfig {
        fs: vec![FsAccess::ExecuteDeny("/tmp/bin".into())],
        ..empty_config()
    };
    let profile = build_plain(&config).unwrap();

    assert!(!profile.source.contains("(deny file-read*"));
    assert!(profile.source.contains("(deny file-map-executable (subpath \"/tmp/bin\"))\n"));
    assert!(profile.source.contains("(deny process-exec* (subpath \"/tmp/bin\"))\n"));
}

#[test]
fn mixed_filesystem_rules_preserve_declaration_order() {
    let config = SandboxConfig {
        fs: vec![
            FsAccess::ReadAllow("/tmp".into()),
            FsAccess::ReadDeny("/tmp/secret".into()),
            FsAccess::ReadAllow("/tmp/secret/public.txt".into()),
            FsAccess::WriteAllow("/tmp/out".into()),
        ],
        ..empty_config()
    };
    let profile = build_plain(&config).unwrap();

    assert_substrings_in_order(
        &profile.source,
        &[
            "(version 1)\n",
            "(deny default)\n",
            "(debug deny)\n",
            "(allow file-read* (require-all (subpath \"/tmp\")",
            "(require-not (subpath \"/tmp/secret\"))",
            "(deny file-read* (require-all (subpath \"/tmp/secret\")",
            "(require-not (subpath \"/tmp/secret/public.txt\"))",
            "(allow file-read* (subpath \"/tmp/secret/public.txt\"))\n",
            "(allow file-write* (subpath \"/tmp/out\"))\n",
        ],
    );
}

#[test]
fn deny_network_emits_no_network_rule() {
    let config = empty_config();
    let profile = build_plain(&config).unwrap();

    assert!(!profile.source.contains("network"));
}

#[test]
fn outbound_network_emits_network_outbound_rule() {
    let config = SandboxConfig { network: NetworkPolicy::OutboundOnly, ..empty_config() };
    let profile = build_plain(&config).unwrap();

    assert!(profile.source.contains("(allow network-outbound)\n"));
    assert!(profile.source.contains("(allow system-socket)\n"));
}

#[test]
fn full_network_emits_network_star_rule() {
    let config = SandboxConfig { network: NetworkPolicy::Full, ..empty_config() };
    let profile = build_plain(&config).unwrap();

    assert!(profile.source.contains("(allow network*)\n"));
    assert!(profile.source.contains("(allow system-socket)\n"));
}

#[test]
fn double_quotes_in_paths_are_escaped() {
    let config = SandboxConfig {
        fs: vec![FsAccess::ReadAllow(r#"/tmp/name"with-quote"#.into())],
        ..empty_config()
    };
    let profile = build_plain(&config).unwrap();

    assert!(profile.source.contains(r#"(subpath "/tmp/name\"with-quote")"#));
}

#[test]
fn backslashes_in_paths_are_escaped() {
    let config = SandboxConfig {
        fs: vec![FsAccess::ReadAllow(r"/tmp/name\with-slash".into())],
        ..empty_config()
    };
    let profile = build_plain(&config).unwrap();

    assert!(profile.source.contains(r#"(subpath "/tmp/name\\with-slash")"#));
}

#[test]
fn control_characters_in_paths_are_rejected() {
    for path in [
        "/tmp/line\nfeed",
        "/tmp/carriage\rreturn",
        "/tmp/tab\there",
        "/tmp/nul\0byte",
    ] {
        let config = SandboxConfig {
            fs: vec![FsAccess::ReadAllow(path.into())],
            ..empty_config()
        };

        let result = build_plain(&config);

        assert!(
            matches!(result, Err(Error::Confinement { stage: "seatbelt-profile", .. })),
            "expected rejection for {path:?}, got {result:?}"
        );
    }
}

#[test]
fn control_characters_in_exclusion_paths_are_rejected() {
    let config = SandboxConfig {
        fs: vec![
            FsAccess::ReadAllow("/tmp".into()),
            FsAccess::ReadDeny("/tmp/eva\nsive".into()),
        ],
        ..empty_config()
    };

    assert!(is_profile_error(build_plain(&config)));
}

#[test]
fn control_characters_in_import_paths_are_rejected() {
    let result = build_with_imports(
        &empty_config(),
        &vec![],
        &vec![SandboxPath::from("/tmp/base\nprofile.sb")],
    );

    assert!(is_profile_error(result));
}

#[test]
fn relative_paths_are_rejected() {
    let config = SandboxConfig {
        fs: vec![FsAccess::ReadAllow("relative/never-exists".into())],
        ..empty_config()
    };

    assert!(is_profile_error(build_plain(&config)));
}

#[test]
fn non_utf8_paths_are_rejected() {
    let config = SandboxConfig {
        fs: vec![FsAccess::ReadAllow(SandboxPath::new(b"/tmp/\xff\xfe".to_vec()))],
        ..empty_config()
    };

    assert!(is_profile_error(build_plain(&config)));
}

#[test]
fn leading_dash_paths_are_embedded_literally() {
    let config = SandboxConfig {
        fs: vec![FsAccess::ReadAllow("/tmp/-rf".into())],
        ..empty_config()
    };
    let profile = build_plain(&config).unwrap();

    assert!(profile.source.contains("(subpath \"/tmp/-rf\")"));
}

#[test]
fn a_whole_profile_is_exact() {
    let config = SandboxConfig {
        fs: vec![
            FsAccess::ReadAllow("/a".into()),
            FsAccess::ReadDeny("/a/b".into()),
            FsAccess::ExecuteAllow("/bin".into()),
        ],
        network: NetworkPolicy::Full,
        ..empty_config()
    };
    let profile = build_with_imports(
        &config,
        &vec![None, None, None],
        &vec![SandboxPath::from("/p.sb")],
    )
    .unwrap();
    assert_substrings_in_order(
        &profile.source,
        &[
            "(version 1)\n(import \"/p.sb\")\n(deny default)\n(debug deny)\n",
            "(allow file-read* (require-all (subpath \"/a\") (require-not (subpath \"/a/b\"))))\n",
            "(deny file-read* (subpath \"/a/b\"))\n",
            "(allow file-map-executable (subpath \"/bin\"))\n",
            "(allow process-exec* (subpath \"/bin\"))\n",
            "(allow network*)\n",
        ],
    );
}

#[test]
fn the_rejected_path_is_reported() {
    let error = sbpl_string(&"tmp".into()).unwrap_err();
    match error {
        Error::Confinement { stage, source } => {
            assert_eq!(stage, "seatbelt-profile");
            assert_eq!(
                source,
                guardrail::ErrorSource::InvalidPath {
                    message: "sandbox policy path is not absolute",
                    path: "tmp".into(),
                }
            );
        }
        other => panic!("unexpected {other:?}"),
    }
}

#[test]
fn c1_control_characters_are_rejected_and_others_are_not() {
    assert!(sbpl_string(&"/tmp/\u{85}".into()).is_err());
    assert!(sbpl_string(&"/tmp/\u{7f}".into()).is_err());
    assert_eq!(sbpl_string(&"/tmp/\u{a0}é".into()).unwrap(), "/tmp/\u{a0}é");
}

#[test]
fn a_missing_path_is_resolved_through_its_nearest_ancestor() {
    let path = SandboxPath::from("/var/new/file");
    let candidates = lookups(&path);
    assert_eq!(candidates[0], path);
    let resolved = candidates
        .iter()
        .map(|candidate| {
            if *candidate == SandboxPath::from("/var") {
                Some("/private/var".into())
            } else {
                None
            }
        })
        .collect();
    let canonical = canonical_path(&path, &resolved);
    assert_eq!(canonical, Some("/private/var/new/file".into()));
    assert_eq!(
        path_variants(&path, &canonical),
        vec![SandboxPath::from("/var/new/file"), SandboxPath::from("/private/var/new/file")]
    );
    assert_eq!(path_variants(&path, &None), vec![SandboxPath::from("/var/new/file")]);
}
