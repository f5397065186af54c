//! The Seatbelt launcher.
//!
//! The fork child performs only a few system calls and then execs
//! `/usr/bin/sandbox-exec`, which parses and applies the profile in a fresh,
//! single-threaded process before it execs the requested command.
use crate::command::{OsText, SandboxCommand};
use crate::config::{EnvMap, SandboxConfig};
use crate::error::{is_confinement, Error, ErrorSource};
use crate::macos::nul::law_generated_profile_is_whole;
use crate::macos::profile::{
    all_fit, all_mentioned, build, build_with_imports, bytes_of, is_first_path_error,
    profile_text, SeatbeltProfile,
};
use crate::macos::sbpl::{is_path_error, path_problem, sbpl_string};
use crate::path::SandboxPath;
use crate::text::{decimal, lemma_nul_bytes, push_decimal, to_chars};
use vstd::prelude::*;
use vstd::utf8::encode_utf8;

verus! {

/// The launcher.
pub const SANDBOX_EXEC_PATH: &'static str = "/usr/bin/sandbox-exec";

/// Whether a text has no NUL character, which would end it early.
pub open spec fn is_nul_free(text: Seq<char>) -> bool {
    !text.contains('\0')
}

/// A custom profile that the configuration imports: where it lies, fully
/// resolved, and what it says. An `Err` tells why it could not be read.
pub type ImportedProfile = Result<(SandboxPath, String), String>;

/// The message for a profile that holds a NUL character.
pub open spec fn nul_text() -> Seq<char> {
    "Seatbelt profile contains an interior NUL byte"@
}

/// What is wrong with an imported profile, if anything.
pub open spec fn import_problem(import: ImportedProfile) -> Option<Seq<char>> {
    match import {
        Ok((_, source)) => if is_nul_free(source@) {
            None
        } else {
            Some(nul_text())
        },
        Err(message) => Some(message@),
    }
}

/// Where the imported profiles lie.
pub open spec fn import_paths(imports: Seq<ImportedProfile>) -> Seq<Seq<u8>> {
    imports.map_values(|import: ImportedProfile| import->Ok_0.0@)
}

/// Whether the profile that the configuration names `named` can be imported: the
/// name can be in a profile, and the profile can be read and holds no NUL.
pub open spec fn is_importable(named: SandboxPath, import: ImportedProfile) -> bool {
    path_problem(named@) is None && import_problem(import) is None
}

/// Whether `error` says why the profile named `named` cannot be imported.
pub open spec fn is_refused_import(
    error: Error,
    named: SandboxPath,
    import: ImportedProfile,
) -> bool {
    if path_problem(named@) is Some {
        is_path_error(error, named@)
    } else {
        import_problem(import) matches Some(text) && is_confinement(
            error,
            "seatbelt-profile"@,
            text,
        )
    }
}

/// Whether each of the named profiles can be imported.
pub open spec fn all_importable(
    named: Seq<SandboxPath>,
    imports: Seq<ImportedProfile>,
) -> bool {
    forall|i: int|
        #![trigger named[i]]
        #![trigger imports[i]]
        0 <= i < imports.len() ==> is_importable(named[i], imports[i])
}

/// Whether `error` reports the first import that has a problem.
pub open spec fn is_import_error(
    error: Error,
    named: Seq<SandboxPath>,
    imports: Seq<ImportedProfile>,
) -> bool {
    exists|i: int|
        0 <= i < imports.len() && is_refused_import(error, named[i], #[trigger] imports[i])
            && forall|j: int| 0 <= j < i ==> is_importable(named[j], #[trigger] imports[j])
}

/// Whether a text has a NUL character.
fn has_nul(text: &str) -> (yes: bool)
    ensures
        yes == !is_nul_free(text@),
{
    let chars = to_chars(text);
    let mut i: usize = 0;
    while i < chars.len()
        invariant
            i <= chars@.len(),
            chars@ == text@,
            forall|k: int| 0 <= k < i ==> text@[k] != '\0',
        decreases chars.len() - i,
    {
        if chars[i] == '\0' {
            assert(text@[i as int] == '\0');
            return true;
        }
        i += 1;
    }
    false
}

/// Refuses a profile that holds a NUL character.
pub fn validate(source: &str) -> (result: Result<(), Error>)
    ensures
        match result {
            Ok(_) => is_nul_free(source@),
            Err(error) => !is_nul_free(source@) && is_confinement(
                error,
                "seatbelt-profile"@,
                nul_text(),
            ),
        },
{
    if has_nul(source) {
        Err(
            Error::confinement(
                "seatbelt-profile",
                ErrorSource::Message(
                    String::from_str("Seatbelt profile contains an interior NUL byte"),
                ),
            ),
        )
    } else {
        Ok(())
    }
}

/// The profile of a configuration: the imported profiles first, then the
/// generated policy. Like the paths of rules, the names of imported profiles must be
/// absolute, UTF-8 and free of control characters. `canonical` holds the resolved name of each filesystem
/// rule's path, and `imports` the custom profiles, in their order.
pub fn resolve(
    config: &SandboxConfig,
    canonical: &Vec<Option<SandboxPath>>,
    imports: &Vec<ImportedProfile>,
) -> (profile: Result<SeatbeltProfile, Error>)
    requires
        canonical@.len() == config.fs@.len(),
        imports@.len() == config.darwin_sandbox_profiles@.len(),
    ensures
        match profile {
            Ok(profile) => {
                &&& all_importable(config.darwin_sandbox_profiles@, imports@)
                &&& all_fit(all_mentioned(*config, canonical@, import_paths(imports@)))
                &&& profile.source@ == profile_text(*config, canonical@, import_paths(imports@))
                &&& is_nul_free(profile.source@)
            },
            Err(error) => {
                &&& error is Confinement
                &&& is_import_error(error, config.darwin_sandbox_profiles@, imports@) || (
                all_importable(config.darwin_sandbox_profiles@, imports@) && is_first_path_error(
                    error,
                    all_mentioned(*config, canonical@, import_paths(imports@)),
                ))
            },
        },
        (exists|i: int|
            0 <= i < config.darwin_sandbox_profiles@.len() && path_problem(
                (#[trigger] config.darwin_sandbox_profiles@[i])@,
            ) is Some) ==> (profile matches Err(error) && error is Confinement),
{
    let named = &config.darwin_sandbox_profiles;
    let mut paths: Vec<SandboxPath> = Vec::new();
    let mut i: usize = 0;
    while i < imports.len()
        invariant
            i <= imports@.len(),
            named@ == config.darwin_sandbox_profiles@,
            imports@.len() == named@.len(),
            bytes_of(paths@) == import_paths(imports@).take(i as int),
            forall|j: int| 0 <= j < i ==> is_importable(named@[j], #[trigger] imports@[j]),
        decreases imports.len() - i,
    {
        match sbpl_string(&named[i]) {
            Ok(_) => {},
            Err(error) => {
                assert(is_refused_import(error, named@[i as int], imports@[i as int]));
                return Err(error);
            },
        }
        match &imports[i] {
            Ok((path, source)) => {
                match validate(source.as_str()) {
                    Ok(_) => {},
                    Err(error) => {
                        assert(is_refused_import(error, named@[i as int], imports@[i as int]));
                        return Err(error);
                    },
                }
                let ghost before = bytes_of(paths@);
                paths.push(path.clone());
                proof {
                    let all = import_paths(imports@);
                    assert(all[i as int] == path@);
                    assert(bytes_of(paths@) =~= before.push(path@));
                    assert(all.take(i + 1) =~= all.take(i as int).push(all[i as int]));
                }
            },
            Err(message) => {
                let error = Error::confinement(
                    "seatbelt-profile",
                    ErrorSource::Message(message.clone()),
                );
                assert(is_refused_import(error, named@[i as int], imports@[i as int]));
                return Err(error);
            },
        }
        i += 1;
    }
    assert(import_paths(imports@).take(i as int) =~= import_paths(imports@));
    assert(all_importable(named@, imports@));
    let built = if imports.len() == 0 {
        assert(import_paths(imports@) =~= seq![]);
        build(config, canonical)
    } else {
        build_with_imports(config, canonical, &paths)
    };
    match built {
        Ok(profile) => {
            proof {
                law_generated_profile_is_whole(*config, canonical@, import_paths(imports@));
            }
            match validate(profile.source.as_str()) {
                Ok(_) => Ok(profile),
                Err(error) => Err(error),
            }
        },
        Err(error) => Err(error),
    }
}

/// A profile that can be handed to the launcher: it holds no NUL.
#[derive(Debug, PartialEq, Eq)]
pub struct PreparedProfile {
    source: String,
}

impl PreparedProfile {
    #[verifier::type_invariant]
    spec fn is_whole(self) -> bool {
        !encode_utf8(self.source@).contains(0)
    }
}

impl View for PreparedProfile {
    type V = Seq<char>;

    closed spec fn view(&self) -> Seq<char> {
        self.source@
    }
}

impl Clone for PreparedProfile {
    fn clone(&self) -> (profile: PreparedProfile)
        ensures
            profile@ == self@,
    {
        proof {
            use_type_invariant(self);
        }
        PreparedProfile { source: self.source.clone() }
    }
}

/// Prepares a profile for the launcher.
pub fn prepare(profile: SeatbeltProfile) -> (prepared: Result<PreparedProfile, Error>)
    ensures
        match prepared {
            Ok(prepared) => is_nul_free(profile.source@) && prepared@ == profile.source@,
            Err(error) => !is_nul_free(profile.source@) && exists|at: int|
                is_first_nul(encode_utf8(profile.source@), at) && is_confinement(
                    error,
                    "seatbelt-profile"@,
                    #[trigger] nul_found_text(at),
                ),
        },
{
    proof {
        lemma_nul_bytes(profile.source@);
    }
    match find_nul(profile.source.as_str().as_bytes()) {
        Some(nul) => {
            assert(encode_utf8(profile.source@)[nul.position as int] == 0);
            Err(Error::confinement("seatbelt-profile", ErrorSource::Message(nul.to_text())))
        },
        None => Ok(PreparedProfile { source: profile.source }),
    }
}

/// What the launcher is started with.
#[derive(Debug, PartialEq, Eq)]
pub struct PreparedLaunch {
    /// The arguments: `sandbox-exec -p PROFILE -- PROGRAM ARGS...`.
    pub argv: Vec<OsText>,
    /// The environment, as `NAME=VALUE`.
    pub env: Vec<OsText>,
}

/// The message for a NUL byte at `position`.
pub open spec fn nul_found_text(position: int) -> Seq<char> {
    "nul byte found in provided data at position: "@ + decimal(position as nat)
}

/// An argument or variable with a NUL byte, which no process can be given.
#[derive(Debug, Clone, Copy, PartialEq, Eq, Structural)]
pub struct InteriorNul {
    /// Where the first NUL byte stands.
    pub position: usize,
}

impl InteriorNul {
    /// The message of the failure.
    pub fn to_text(&self) -> (text: String)
        ensures
            text@ == nul_found_text(self.position as int),
    {
        let mut text = String::from_str("nul byte found in provided data at position: ");
        push_decimal(&mut text, self.position as u64);
        text
    }
}

/// The bytes of the texts in a vector of texts.
pub open spec fn os_texts(texts: Seq<OsText>) -> Seq<Seq<u8>> {
    texts.map_values(|text: OsText| text@)
}

/// A variable as a process is given it.
pub open spec fn env_entry(name: Seq<char>, value: Seq<char>) -> Seq<u8> {
    encode_utf8(name) + seq![0x3du8] + encode_utf8(value)
}

/// The variables as a process is given them.
pub open spec fn env_entries(env: EnvMap) -> Seq<Seq<u8>> {
    env.spec_entries().map_values(|entry: (Seq<char>, Seq<char>)| env_entry(entry.0, entry.1))
}

/// What the launcher is given of a command: the program and its arguments.
pub open spec fn command_words<F>(command: SandboxCommand<F>) -> Seq<Seq<u8>> {
    seq![command.program@] + os_texts(command.args@)
}

/// The launcher's arguments.
pub open spec fn launcher_argv<F>(profile: Seq<char>, command: SandboxCommand<F>) -> Seq<Seq<u8>> {
    seq![
        encode_utf8("/usr/bin/sandbox-exec"@),
        encode_utf8("-p"@),
        encode_utf8(profile),
        encode_utf8("--"@),
    ] + command_words(command)
}

/// Whether `position` is that of the first NUL byte of `bytes`.
pub open spec fn is_first_nul(bytes: Seq<u8>, position: int) -> bool {
    0 <= position < bytes.len() && bytes[position] == 0 && forall|k: int|
        0 <= k < position ==> bytes[k] != 0
}

/// Whether `nul` is the first NUL byte in the first of `words` that has one.
pub open spec fn is_first_nul_in(words: Seq<Seq<u8>>, nul: InteriorNul) -> bool {
    exists|i: int|
        0 <= i < words.len() && is_first_nul(#[trigger] words[i], nul.position as int)
            && forall|j: int| 0 <= j < i ==> !(#[trigger] words[j]).contains(0)
}

/// Whether none of `words` has a NUL byte.
pub open spec fn all_nul_free(words: Seq<Seq<u8>>) -> bool {
    forall|i: int| 0 <= i < words.len() ==> !(#[trigger] words[i]).contains(0)
}

/// The first NUL byte of a text, if it has one.
fn find_nul(bytes: &[u8]) -> (nul: Option<InteriorNul>)
    ensures
        match nul {
            Some(nul) => is_first_nul(bytes@, nul.position as int),
            None => !bytes@.contains(0),
        },
{
    let mut i: usize = 0;
    while i < bytes.len()
        invariant
            i <= bytes@.len(),
            forall|k: int| 0 <= k < i ==> bytes@[k] != 0,
        decreases bytes.len() - i,
    {
        if bytes[i] == 0 {
            return Some(InteriorNul { position: i });
        }
        i += 1;
    }
    None
}

/// Appends one word, unless it has a NUL byte.
fn push_word(words: &mut Vec<OsText>, word: OsText) -> (result: Result<(), InteriorNul>)
    ensures
        match result {
            Ok(_) => !word@.contains(0) && os_texts(final(words)@) == os_texts(old(words)@).push(
                word@,
            ),
            Err(nul) => is_first_nul(word@, nul.position as int),
        },
{
    match find_nul(word.bytes.as_slice()) {
        Some(nul) => Err(nul),
        None => {
            words.push(word);
            assert(os_texts(words@) =~= os_texts(old(words)@).push(word@));
            Ok(())
        },
    }
}

impl PreparedLaunch {
    /// Builds a `sandbox-exec -p PROFILE -- PROGRAM ARGS...` invocation and the
    /// exact environment declared by the sandbox configuration.
    pub fn new<F>(profile: &PreparedProfile, command: &SandboxCommand<F>, env: &EnvMap) -> (launch:
        Result<PreparedLaunch, InteriorNul>)
        ensures
            match launch {
                Ok(launch) => {
                    &&& all_nul_free(command_words(*command) + env_entries(*env))
                    &&& os_texts(launch.argv@) == launcher_argv(profile@, *command)
                    &&& os_texts(launch.env@) == env_entries(*env)
                    &&& is_nul_free(profile@)
                },
                Err(nul) => is_first_nul_in(command_words(*command) + env_entries(*env), nul),
            },
    {
        proof {
            use_type_invariant(profile);
            lemma_nul_bytes(profile@);
        }
        let ghost words = command_words(*command);
        let ghost variables = env_entries(*env);
        let ghost all = words + variables;
        let mut argv: Vec<OsText> = Vec::new();
        argv.push(OsText::from("/usr/bin/sandbox-exec"));
        argv.push(OsText::from("-p"));
        argv.push(OsText::from(profile.source.as_str()));
        argv.push(OsText::from("--"));
        let ghost head = seq![
            encode_utf8("/usr/bin/sandbox-exec"@),
            encode_utf8("-p"@),
            encode_utf8(profile@),
            encode_utf8("--"@),
        ];
        assert(os_texts(argv@) =~= head);
        assert(all[0] == command.program@);
        match push_word(&mut argv, command.program.clone()) {
            Ok(_) => {},
            Err(nul) => {
                return Err(nul);
            },
        }
        let mut i: usize = 0;
        assert(words.take(1) =~= seq![command.program@]);
        assert(os_texts(argv@) =~= head + words.take(1));
        while i < command.args.len()
            invariant
                i <= command.args@.len(),
                words == command_words(*command),
                variables == env_entries(*env),
                all == words + variables,
                os_texts(argv@) == head + words.take(i + 1),
                forall|k: int| 0 <= k < i + 1 ==> !(#[trigger] all[k]).contains(0),
            decreases command.args.len() - i,
        {
            let ghost before = os_texts(argv@);
            assert(all[i + 1] == command.args@[i as int]@);
            assert(words[i + 1] == command.args@[i as int]@);
            match push_word(&mut argv, command.args[i].clone()) {
                Ok(_) => {},
                Err(nul) => {
                    return Err(nul);
                },
            }
            proof {
                assert(words.take(i + 2) =~= words.take(i + 1).push(words[i + 1]));
                assert(os_texts(argv@) =~= head + words.take(i + 2));
            }
            i += 1;
        }
        assert(words.take(i + 1) =~= words);
        let ghost listed = env.spec_entries();
        let mut entries: Vec<OsText> = Vec::new();
        let mut n: usize = 0;
        assert(os_texts(entries@) =~= variables.take(0));
        while n < env.len()
            invariant
                n <= listed.len(),
                listed == env.spec_entries(),
                words == command_words(*command),
                variables == env_entries(*env),
                all == words + variables,
                os_texts(entries@) == variables.take(n as int),
                forall|k: int| 0 <= k < words.len() + n ==> !(#[trigger] all[k]).contains(0),
            decreases listed.len() - n,
        {
            let (name, value) = env.entry(n);
            let mut bytes: Vec<u8> = Vec::new();
            bytes.extend_from_slice(name.as_str().as_bytes());
            bytes.push(0x3d);
            bytes.extend_from_slice(value.as_str().as_bytes());
            proof {
                assert(listed[n as int] == (name@, value@));
                assert(bytes@ =~= env_entry(name@, value@));
                assert(variables[n as int] == bytes@);
                assert(all[words.len() + n] == bytes@);
            }
            let ghost before = os_texts(entries@);
            match push_word(&mut entries, OsText { bytes }) {
                Ok(_) => {},
                Err(nul) => {
                    return Err(nul);
                },
            }
            assert(variables.take(n + 1) =~= variables.take(n as int).push(variables[n as int]));
            n += 1;
        }
        assert(variables.take(n as int) =~= variables);
        Ok(PreparedLaunch { argv, env: entries })
    }
}

/// What the launcher is started with: its own path, the profile behind `-p`, and behind
/// `--` the program and its arguments, in their order and byte for byte.
pub proof fn law_launcher_gets_profile_and_command<F>(
    profile: Seq<char>,
    command: SandboxCommand<F>,
)
    ensures
        ({
            let argv = launcher_argv(profile, command);
            &&& argv.len() == 5 + command.args@.len()
            &&& argv[0] == encode_utf8("/usr/bin/sandbox-exec"@)
            &&& argv[1] == encode_utf8("-p"@)
            &&& argv[2] == encode_utf8(profile)
            &&& argv[3] == encode_utf8("--"@)
            &&& argv[4] == command.program@
            &&& forall|i: int|
                0 <= i < command.args@.len() ==> argv[5 + i] == (#[trigger] command.args@[i])@
        }),
{
    let argv = launcher_argv(profile, command);
    let words = command_words(command);
    assert(argv[4] == words[0]);
    assert forall|i: int| 0 <= i < command.args@.len() implies argv[5 + i] == (
    #[trigger] command.args@[i])@ by {
        assert(argv[5 + i] == words[1 + i]);
    }
}

/// The environment of the launcher holds one entry for each variable of the policy, in
/// their order: the name, an equals sign and the value.
pub proof fn law_each_variable_is_one_entry(env: EnvMap, i: int)
    requires
        0 <= i < env.spec_entries().len(),
    ensures
        env_entries(env).len() == env.spec_entries().len(),
        env_entries(env)[i] == encode_utf8(
            env.spec_entries()[i].0 + "="@ + env.spec_entries()[i].1,
        ),
{
    let (name, value) = env.spec_entries()[i];
    reveal_strlit("=");
    assert("="@ =~= seq!['=']);
    lemma_encoded_joined(name, "="@ + value);
    lemma_encoded_joined("="@, value);
    assert(encode_utf8("="@) =~= seq![0x3du8]) by {
        vstd::utf8::is_ascii_chars_encode_utf8("="@);
    }
    assert(name + "="@ + value =~= name + ("="@ + value));
    assert(env_entry(name, value) =~= encode_utf8(name) + (seq![0x3du8] + encode_utf8(value)));
}

/// The bytes of joined texts are the joined bytes.
proof fn lemma_encoded_joined(a: Seq<char>, b: Seq<char>)
    ensures
        encode_utf8(a + b) == encode_utf8(a) + encode_utf8(b),
    decreases a.len(),
{
    if a.len() == 0 {
        assert(a + b =~= b);
        assert(encode_utf8(a) + encode_utf8(b) =~= encode_utf8(b));
    } else {
        lemma_encoded_joined(a.drop_first(), b);
        assert((a + b).drop_first() =~= a.drop_first() + b);
        assert((a + b)[0] == a[0]);
        assert(encode_utf8(a + b) =~= encode_utf8(a) + encode_utf8(b));
    }
}

/// A custom profile is imported exactly where it was named by a path that can be in a
/// profile and could be read without finding a NUL in it.
pub proof fn law_only_readable_profiles_are_imported(named: SandboxPath, import: ImportedProfile)
    ensures
        is_importable(named, import) <==> path_problem(named@) is None && import is Ok && forall|
            i: int,
        |
            0 <= i < import->Ok_0.1@.len() ==> #[trigger] import->Ok_0.1@[i] != '\0',
        import matches Err(message) ==> import_problem(import) == Some(message@),
        import matches Ok((_, source)) && source@.contains('\0') ==> import_problem(import) == Some(
            "Seatbelt profile contains an interior NUL byte"@,
        ),
{
    if import is Ok {
        let source = import->Ok_0.1@;
        if is_nul_free(source) {
            assert forall|i: int| 0 <= i < source.len() implies #[trigger] source[i] != '\0' by {
                assert(source.contains(source[i]));
            }
        }
    }
}

} // verus!
