//! The macOS sandbox backend.
use crate::command::SandboxCommand;
use crate::config::SandboxConfig;
use crate::error::Error;
use crate::macos::profile::{all_fit, all_mentioned, is_first_path_error, profile_text};
use crate::macos::sbpl::path_problem;
use crate::macos::seatbelt::{
    all_importable, all_nul_free, command_words, env_entries, import_paths, is_first_nul_in,
    is_import_error, launcher_argv, os_texts, prepare, resolve, ImportedProfile,
    InteriorNul, PreparedLaunch, PreparedProfile,
};
use crate::path::SandboxPath;
use crate::rlimit::{limit_settings, settings_for, LimitSetting};
use vstd::prelude::*;

verus! {

/// The macOS sandbox backend: a policy and the profile that enforces it.
pub struct MacosBackend {
    config: SandboxConfig,
    seatbelt_profile: PreparedProfile,
}

/// What the fork child does before it becomes the command.
#[derive(Debug, Clone, Copy, PartialEq, Eq, Structural)]
pub enum ChildStep {
    /// Mark every descriptor above standard error close-on-exec.
    ScrubDescriptors,
    /// Set a resource limit.
    SetLimit(LimitSetting),
    /// Exec the launcher, which applies the profile and execs the command.
    ExecLauncher,
}

/// The steps of the fork child.
pub open spec fn child_plan(settings: Seq<LimitSetting>) -> Seq<ChildStep> {
    seq![ChildStep::ScrubDescriptors] + settings.map_values(
        |setting: LimitSetting| ChildStep::SetLimit(setting),
    ) + seq![ChildStep::ExecLauncher]
}

impl MacosBackend {
    /// The policy of the backend.
    pub closed spec fn policy(self) -> SandboxConfig {
        self.config
    }

    /// The profile of the backend.
    pub closed spec fn profile(self) -> Seq<char> {
        self.seatbelt_profile@
    }

    /// Creates a backend. `canonical` holds the resolved name of each filesystem
    /// rule's path, and `imports` the custom profiles, in their order.
    pub fn new(
        config: SandboxConfig,
        canonical: &Vec<Option<SandboxPath>>,
        imports: &Vec<ImportedProfile>,
    ) -> (backend: Result<MacosBackend, Error>)
        requires
            canonical@.len() == config.fs@.len(),
            imports@.len() == config.darwin_sandbox_profiles@.len(),
        ensures
            ({
                let named = config.darwin_sandbox_profiles@;
                let usable = all_importable(named, imports@);
                let paths = all_mentioned(config, canonical@, import_paths(imports@));
                let text = profile_text(config, canonical@, import_paths(imports@));
                match backend {
                    Ok(backend) => {
                        &&& usable && all_fit(paths)
                        &&& backend.policy() == config
                        &&& backend.profile() == text
                    },
                    Err(error) => {
                        &&& error is Confinement
                        &&& is_import_error(error, named, imports@) || (usable
                            && is_first_path_error(error, paths))
                    },
                }
            }),
            (exists|i: int|
                0 <= i < config.darwin_sandbox_profiles@.len() && path_problem(
                    (#[trigger] config.darwin_sandbox_profiles@[i])@,
                ) is Some) ==> (backend matches Err(error) && error is Confinement),
    {
        match resolve(&config, canonical, imports) {
            Ok(profile) => {
                match prepare(profile) {
                    Ok(seatbelt_profile) => Ok(MacosBackend { config, seatbelt_profile }),
                    Err(error) => Err(error),
                }
            },
            Err(error) => Err(error),
        }
    }

    /// What the launcher is started with for a command.
    pub fn launch<F>(&self, command: &SandboxCommand<F>) -> (launch: Result<
        PreparedLaunch,
        InteriorNul,
    >)
        ensures
            ({
                let words = command_words(*command) + env_entries(self.policy().env);
                match launch {
                    Ok(launch) => {
                        &&& all_nul_free(words)
                        &&& os_texts(launch.argv@) == launcher_argv(self.profile(), *command)
                        &&& os_texts(launch.env@) == env_entries(self.policy().env)
                    },
                    Err(nul) => is_first_nul_in(words, nul),
                }
            }),
    {
        PreparedLaunch::new(&self.seatbelt_profile, command, &self.config.env)
    }

    /// The steps of the fork child. Descriptor hygiene comes first: it must
    /// precede Seatbelt, whose profile may deny the queries that it makes.
    pub fn child_steps(&self) -> (steps: Vec<ChildStep>)
        ensures
            steps@ == child_plan(settings_for(self.policy().limits)),
    {
        let settings = limit_settings(&self.config.limits);
        let mut steps: Vec<ChildStep> = vec![ChildStep::ScrubDescriptors];
        let mut i: usize = 0;
        let ghost all = settings@.map_values(
            |setting: LimitSetting| ChildStep::SetLimit(setting),
        );
        assert(steps@ =~= seq![ChildStep::ScrubDescriptors] + all.take(0));
        while i < settings.len()
            invariant
                i <= settings@.len(),
                all == settings@.map_values(
                    |setting: LimitSetting| ChildStep::SetLimit(setting),
                ),
                steps@ == seq![ChildStep::ScrubDescriptors] + all.take(i as int),
            decreases settings.len() - i,
        {
            steps.push(ChildStep::SetLimit(settings[i]));
            assert(all[i as int] == ChildStep::SetLimit(settings@[i as int]));
            assert(steps@ =~= seq![ChildStep::ScrubDescriptors] + all.take(i + 1));
            i += 1;
        }
        assert(all.take(i as int) =~= all);
        steps.push(ChildStep::ExecLauncher);
        assert(steps@ =~= child_plan(settings_for(self.config.limits)));
        steps
    }
}

/// Whatever the limits are, the child scrubs its descriptors first and execs the
/// launcher last, and every limit is set in between.
pub proof fn law_launcher_comes_last(settings: Seq<LimitSetting>)
    ensures
        ({
            let plan = child_plan(settings);
            &&& plan.first() == ChildStep::ScrubDescriptors
            &&& plan.last() == ChildStep::ExecLauncher
            &&& plan.len() == settings.len() + 2
            &&& forall|i: int|
                0 <= i < settings.len() ==> plan[i + 1] == ChildStep::SetLimit(#[trigger] settings[i])
        }),
{
}

} // verus!
