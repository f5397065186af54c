//! The portable description of a child process to spawn.
use crate::path::SandboxPath;
use vstd::prelude::*;
use vstd::utf8::encode_utf8;

verus! {

/// How one of the child's standard streams is connected. `F` is an open file.
///
/// The default is [`Inherit`](StdioMode::Inherit).
#[derive(Debug, PartialEq, Eq)]
pub enum StdioMode<F> {
    /// Share the parent's stream.
    Inherit,
    /// Connect the stream to the platform null device.
    Null,
    /// Connect the stream to the parent through a pipe.
    Piped,
    /// Connect the stream to this open file (read for stdin, write for
    /// stdout/stderr; the file must have been opened accordingly).
    File(F),
}

impl<F> Default for StdioMode<F> {
    fn default() -> (mode: StdioMode<F>)
        ensures
            mode is Inherit,
    {
        StdioMode::Inherit
    }
}

/// Text that is handed to the operating system: raw bytes, which need not be
/// UTF-8.
#[derive(Debug, PartialEq, Eq)]
pub struct OsText {
    /// The bytes of the text.
    pub bytes: Vec<u8>,
}

impl View for OsText {
    type V = Seq<u8>;

    open spec fn view(&self) -> Seq<u8> {
        self.bytes@
    }
}

impl Clone for OsText {
    fn clone(&self) -> (text: OsText)
        ensures
            text@ == self@,
    {
        let bytes = self.bytes.clone();
        assert(bytes@ =~= self.bytes@);
        OsText { bytes }
    }
}

impl From<&str> for OsText {
    fn from(text: &str) -> (os_text: OsText)
        ensures
            os_text@ == encode_utf8(text@),
    {
        let bytes = text.as_bytes();
        let mut owned: Vec<u8> = Vec::new();
        owned.extend_from_slice(bytes);
        assert(owned@ =~= bytes@);
        OsText { bytes: owned }
    }
}

impl vstd::std_specs::convert::FromSpecImpl<&str> for OsText {
    open spec fn obeys_from_spec() -> bool {
        false
    }

    open spec fn from_spec(text: &str) -> OsText {
        arbitrary()
    }
}

/// The command a backend spawns inside the sandbox.
///
/// It deliberately carries no environment: the child's environment is exactly
/// that of the configuration, applied by the backend. All fields are public.
#[derive(Debug, PartialEq, Eq)]
pub struct SandboxCommand<F> {
    /// Program to run: an absolute path, or a name resolved by the platform's
    /// usual search behavior.
    pub program: OsText,
    /// Arguments passed to the program, not including the program itself.
    pub args: Vec<OsText>,
    /// Working directory for the child; the parent's when `None`.
    pub current_dir: Option<SandboxPath>,
    /// How the child's stdin is connected.
    pub stdin: StdioMode<F>,
    /// How the child's stdout is connected.
    pub stdout: StdioMode<F>,
    /// How the child's stderr is connected.
    pub stderr: StdioMode<F>,
}

impl<F> Default for SandboxCommand<F> {
    fn default() -> (command: SandboxCommand<F>)
        ensures
            command.program@.len() == 0,
            command.args@.len() == 0,
            command.current_dir is None,
            command.stdin is Inherit,
            command.stdout is Inherit,
            command.stderr is Inherit,
    {
        SandboxCommand::new(OsText { bytes: Vec::new() })
    }
}

impl<F> SandboxCommand<F> {
    /// Describe `program` with no arguments, the parent's working directory,
    /// and all three standard streams inherited.
    pub fn new(program: OsText) -> (command: SandboxCommand<F>)
        ensures
            command.program == program,
            command.args@.len() == 0,
            command.current_dir is None,
            command.stdin is Inherit,
            command.stdout is Inherit,
            command.stderr is Inherit,
    {
        SandboxCommand {
            program,
            args: Vec::new(),
            current_dir: None,
            stdin: StdioMode::Inherit,
            stdout: StdioMode::Inherit,
            stderr: StdioMode::Inherit,
        }
    }
}

} // verus!
