use guardrail::linux::fs::{compile, normalize_rules, CompiledRules};
use guardrail::linux::masks::Pin;
use guardrail::linux::plan::{MaskOp, Target, MOUNT_ATTR_NOEXEC, MOUNT_ATTR_RDONLY};
use guardrail::linux::rules::rule_paths;
use guardrail::{CanonicalPath, Error, FsAccess, SandboxPath};

const DIR: bool = true;
const FILE: bool = false;

fn canon(path: &str) -> CanonicalPath {
    CanonicalPath::from_bytes(path.as_bytes()).unwrap()
}

/// Compiles a policy on a file system with these entries.
fn compile_on(entries: &[(&str, bool)], rules: Vec<FsAccess>) -> Result<CompiledRules, Error> {
    let resolved: Vec<Result<CanonicalPath, String>> = rules
        .iter()
        .map(|rule| {
            let path: &SandboxPath = rule.path();
            if entries.iter().any(|entry| entry.0.as_bytes() == path.bytes.as_slice()) {
                Ok(CanonicalPath::from_bytes(&path.bytes).unwrap())
            } else {
                Err("No such file or directory (os error 2)".to_string())
            }
        })
        .collect();
    let normalized = normalize_rules(&rules, &resolved)?;
    let pins = rule_paths(&normalized)
        .into_iter()
        .map(|path| {
            let bytes = path.to_bytes();
            let at = entries.iter().position(|entry| entry.0.as_bytes() == bytes.as_slice()).unwrap();
            Pin { path, dev: 40, ino: 100 + at as u64, is_dir: entries[at].1 }
        })
        .collect();
    compile(&normalized, pins)
}

fn target(compiled: &CompiledRules, path: &str) -> Target {
    let path = canon(path);
    let pin = compiled.pins.iter().find(|pin| pin.path == path).unwrap();
    Target { path, dev: pin.dev, ino: pin.ino }
}

#[test]
fn allow_parent_deny_child_grants_parent_and_hides_child() {
    let compiled = compile_on(
        &[("/temp", DIR), ("/temp/public.txt", FILE), ("/temp/secret.txt", FILE)],
        vec![FsAccess::ReadAllow("/temp".into()), FsAccess::ReadDeny("/temp/secret.txt".into())],
    )
    .unwrap();

    assert_eq!(compiled.grants.read, vec![canon("/temp")]);
    assert_eq!(
        compiled.mount_plan.ops,
        vec![MaskOp::HideFile { target: target(&compiled, "/temp/secret.txt") }]
    );
    assert!(compiled.mount_plan.clone_sources.is_empty());
    assert!(compiled.mount_plan.seal_readonly.is_empty());
}

#[test]
fn allow_parent_deny_child_allow_grandchild_attaches_grandchild() {
    let compiled = compile_on(
        &[
            ("/temp", DIR),
            ("/temp/child", DIR),
            ("/temp/child/grandchild.txt", FILE),
            ("/temp/child/other.txt", FILE),
        ],
        vec![
            FsAccess::ReadAllow("/temp".into()),
            FsAccess::ReadDeny("/temp/child".into()),
            FsAccess::ReadAllow("/temp/child/grandchild.txt".into()),
        ],
    )
    .unwrap();

    assert_eq!(compiled.grants.read, vec![canon("/temp"), canon("/temp/child/grandchild.txt")]);
    assert_eq!(
        compiled.mount_plan.clone_sources,
        vec![target(&compiled, "/temp/child/grandchild.txt")]
    );
    assert_eq!(
        compiled.mount_plan.ops,
        vec![
            MaskOp::HideDir {
                target: target(&compiled, "/temp/child"),
                mode: "0111",
                seal_later: true,
            },
            MaskOp::SkeletonFile { path: canon("/temp/child/grandchild.txt") },
            MaskOp::Attach { slot: 0, path: canon("/temp/child/grandchild.txt") },
        ]
    );
    assert_eq!(compiled.mount_plan.seal_readonly, vec![canon("/temp/child")]);
}

#[test]
fn write_deny_under_write_allow_restricts_readonly() {
    let compiled = compile_on(
        &[("/temp", DIR), ("/temp/locked", DIR)],
        vec![
            FsAccess::ReadAllow("/temp".into()),
            FsAccess::WriteAllow("/temp".into()),
            FsAccess::WriteDeny("/temp/locked".into()),
        ],
    )
    .unwrap();

    assert_eq!(
        compiled.mount_plan.ops,
        vec![MaskOp::Restrict {
            target: target(&compiled, "/temp/locked"),
            attr_set: MOUNT_ATTR_RDONLY,
            recursive: true,
        }]
    );
}

#[test]
fn write_and_execute_deny_combine_into_one_restrict() {
    let compiled = compile_on(
        &[("/temp", DIR), ("/temp/locked", DIR)],
        vec![
            FsAccess::WriteAllow("/temp".into()),
            FsAccess::ExecuteAllow("/temp".into()),
            FsAccess::WriteDeny("/temp/locked".into()),
            FsAccess::ExecuteDeny("/temp/locked".into()),
        ],
    )
    .unwrap();

    assert_eq!(
        compiled.mount_plan.ops,
        vec![MaskOp::Restrict {
            target: target(&compiled, "/temp/locked"),
            attr_set: MOUNT_ATTR_RDONLY | MOUNT_ATTR_NOEXEC,
            recursive: true,
        }]
    );
}

#[test]
fn deny_beneath_a_sandbox_movable_directory_is_unsupported() {
    let result = compile_on(
        &[("/temp", DIR), ("/temp/vault", DIR), ("/temp/vault/locked", DIR)],
        vec![
            FsAccess::ReadAllow("/temp".into()),
            FsAccess::WriteAllow("/temp".into()),
            FsAccess::WriteDeny("/temp/vault/locked".into()),
        ],
    );

    assert!(matches!(result, Err(Error::Unsupported(_))), "{result:?}");
}

#[test]
fn deny_beneath_a_denied_directory_is_supported() {
    let compiled = compile_on(
        &[("/temp", DIR), ("/temp/vault", DIR), ("/temp/vault/locked", DIR)],
        vec![
            FsAccess::ReadAllow("/temp".into()),
            FsAccess::WriteAllow("/temp".into()),
            FsAccess::WriteDeny("/temp/vault".into()),
            FsAccess::WriteDeny("/temp/vault/locked".into()),
        ],
    )
    .unwrap();

    assert_eq!(
        compiled.mount_plan.ops,
        vec![MaskOp::Restrict {
            target: target(&compiled, "/temp/vault"),
            attr_set: MOUNT_ATTR_RDONLY,
            recursive: true,
        }]
    );
}

#[test]
fn deny_directly_beneath_its_write_grant_is_supported() {
    let compiled = compile_on(
        &[("/temp", DIR), ("/temp/locked", DIR)],
        vec![
            FsAccess::ReadAllow("/temp".into()),
            FsAccess::WriteAllow("/temp".into()),
            FsAccess::WriteDeny("/temp/locked".into()),
        ],
    )
    .unwrap();

    assert_eq!(
        compiled.mount_plan.ops,
        vec![MaskOp::Restrict {
            target: target(&compiled, "/temp/locked"),
            attr_set: MOUNT_ATTR_RDONLY,
            recursive: true,
        }]
    );
}

#[test]
fn allow_root_inside_a_write_grant_is_unsupported() {
    let result = compile_on(
        &[("/temp/work", DIR), ("/temp/work/sub", DIR)],
        vec![
            FsAccess::ReadAllow("/temp/work/sub".into()),
            FsAccess::WriteAllow("/temp/work".into()),
        ],
    );

    assert!(matches!(result, Err(Error::Unsupported(_))), "{result:?}");
}

#[test]
fn read_only_policies_are_never_relocatable() {
    let compiled = compile_on(
        &[("/temp/work", DIR), ("/temp/work/sub", DIR)],
        vec![
            FsAccess::ReadAllow("/temp/work".into()),
            FsAccess::ReadAllow("/temp/work/sub".into()),
        ],
    )
    .unwrap();

    assert!(compiled.grants.read.contains(&canon("/temp/work/sub")));
}

#[test]
fn every_rule_path_is_pinned_once() {
    let compiled = compile_on(
        &[("/temp", DIR), ("/temp/locked", DIR)],
        vec![
            FsAccess::ReadAllow("/temp".into()),
            FsAccess::WriteAllow("/temp".into()),
            FsAccess::WriteDeny("/temp/locked".into()),
        ],
    )
    .unwrap();

    let paths: Vec<&CanonicalPath> = compiled.pins.iter().map(|pin| &pin.path).collect();
    assert_eq!(paths, vec![&canon("/temp"), &canon("/temp/locked")]);
    assert_eq!(compiled.pins.len(), 2);

    let identity = target(&compiled, "/temp/locked");
    assert_eq!((identity.dev, identity.ino), (40, 101));
    assert!(matches!(
        &compiled.mount_plan.ops[0],
        MaskOp::Restrict { target, .. } if *target == identity
    ));
}

#[test]
fn fs_read_deny_with_covered_write_allow_is_unsupported() {
    let result = compile_on(
        &[("/temp", DIR), ("/temp/secret", DIR)],
        vec![
            FsAccess::ReadAllow("/temp".into()),
            FsAccess::WriteAllow("/temp".into()),
            FsAccess::ReadDeny("/temp/secret".into()),
        ],
    );

    assert!(matches!(result, Err(Error::Unsupported(_))));
}

#[test]
fn write_reallow_beneath_read_denied_parent_is_unsupported() {
    let result = compile_on(
        &[("/temp", DIR), ("/temp/secret", DIR), ("/temp/secret/inner", DIR)],
        vec![
            FsAccess::ReadAllow("/temp".into()),
            FsAccess::ReadDeny("/temp/secret".into()),
            FsAccess::WriteAllow("/temp/secret/inner".into()),
        ],
    );

    assert!(matches!(result, Err(Error::Unsupported(_))));
}

#[test]
fn deny_parent_allow_child_grants_child_without_masks() {
    let compiled = compile_on(
        &[("/temp", DIR), ("/temp/child", DIR), ("/temp/sibling", DIR)],
        vec![FsAccess::ReadDeny("/temp".into()), FsAccess::ReadAllow("/temp/child".into())],
    )
    .unwrap();

    assert_eq!(compiled.grants.read, vec![canon("/temp/child")]);
    assert!(compiled.mount_plan.is_empty());
}

#[test]
fn uncovered_deny_needs_no_mask() {
    let compiled = compile_on(
        &[("/temp", DIR), ("/unrelated", DIR)],
        vec![FsAccess::ReadAllow("/temp".into()), FsAccess::ReadDeny("/unrelated".into())],
    )
    .unwrap();

    assert!(compiled.mount_plan.is_empty());
}

#[test]
fn allow_deny_allow_same_path_final_effect_is_allow() {
    let compiled = compile_on(
        &[("/temp", DIR)],
        vec![
            FsAccess::ReadAllow("/temp".into()),
            FsAccess::ReadDeny("/temp".into()),
            FsAccess::ReadAllow("/temp".into()),
        ],
    )
    .unwrap();

    assert_eq!(compiled.grants.read, vec![canon("/temp")]);
    assert!(compiled.mount_plan.is_empty());
}

#[test]
fn allow_deny_same_path_final_effect_is_deny() {
    let compiled = compile_on(
        &[("/temp", DIR)],
        vec![FsAccess::ReadAllow("/temp".into()), FsAccess::ReadDeny("/temp".into())],
    )
    .unwrap();

    assert!(compiled.grants.read.is_empty());
    assert!(compiled.mount_plan.is_empty());
}

#[test]
fn missing_rule_path_fails_closed_during_normalization() {
    let result = compile_on(
        &[("/temp", DIR)],
        vec![
            FsAccess::ReadAllow("/temp".into()),
            FsAccess::ReadDeny("/temp/future-secret".into()),
        ],
    );

    assert!(matches!(result, Err(Error::Confinement { stage: "landlock", .. })));
}

#[test]
fn refusals_name_the_paths() {
    let result = compile_on(
        &[("/temp", DIR), ("/temp/secret", DIR)],
        vec![
            FsAccess::ReadAllow("/temp".into()),
            FsAccess::WriteAllow("/temp".into()),
            FsAccess::ReadDeny("/temp/secret".into()),
        ],
    );
    match result {
        Err(Error::Unsupported(text)) => assert!(text.contains("/temp/secret"), "{text}"),
        other => panic!("unexpected {other:?}"),
    }
    let result = compile_on(
        &[("/temp", DIR), ("/temp/vault/locked", DIR)],
        vec![
            FsAccess::WriteAllow("/temp".into()),
            FsAccess::WriteDeny("/temp/vault/locked".into()),
        ],
    );
    match result {
        Err(Error::Unsupported(text)) => {
            assert!(text.contains("/temp/vault"), "{text}");
            assert!(text.contains("/temp/vault/locked"), "{text}");
        }
        other => panic!("unexpected {other:?}"),
    }
}

#[test]
fn a_hidden_directory_without_reallowed_children_is_closed_at_once() {
    let compiled = compile_on(
        &[("/temp", DIR), ("/temp/secret", DIR)],
        vec![FsAccess::ReadAllow("/temp".into()), FsAccess::ReadDeny("/temp/secret".into())],
    )
    .unwrap();
    assert_eq!(
        compiled.mount_plan.ops,
        vec![MaskOp::HideDir {
            target: target(&compiled, "/temp/secret"),
            mode: "0",
            seal_later: false,
        }]
    );
    assert!(compiled.mount_plan.seal_readonly.is_empty());
}

#[test]
fn allow_only_policies_need_no_mounts() {
    let compiled = compile_on(
        &[("/a", DIR), ("/b", DIR), ("/b/c", FILE)],
        vec![
            FsAccess::ReadAllow("/a".into()),
            FsAccess::ExecuteAllow("/b".into()),
            FsAccess::ReadAllow("/b/c".into()),
        ],
    )
    .unwrap();
    assert!(compiled.mount_plan.is_empty());
    assert_eq!(compiled.grants.read, vec![canon("/a"), canon("/b/c")]);
    assert!(compiled.grants.write.is_empty());
    assert_eq!(compiled.grants.execute, vec![canon("/b")]);
}
