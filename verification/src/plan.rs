//! The configuration of a run and the plan made from it: which profiles to
//! launch, in which order, under which policy.

use crate::error::Error;
use crate::profile::{Profile, ProfileView};
use crate::profile_set::{views, ProfileSet};
use crate::resolve::{reports, resolve, resolved};
use vstd::prelude::*;
use vstd::string::*;

verus! {

/// The options of a run, fixed once before it starts.
#[derive(Debug, Clone, PartialEq, Eq)]
pub struct Config {
    /// Launch the next profile as soon as the one before has exited, without
    /// waiting for the user.
    pub auto_chain: bool,
    /// After a profile that could not be installed or started, launch no
    /// other.
    pub fail_fast: bool,
    /// Launch every discovered profile.
    pub all_profiles: bool,
    /// Let the user pick the profiles at the console.
    pub prompt: bool,
    /// Leave the active slot as the last install made it.
    pub no_restore: bool,
    /// After a failure, end the run without asking the user.
    pub fail_silent: bool,
    /// The glob pattern by which directories are searched for profiles.
    pub glob: String,
}

/// Where the profiles of a run come from.
#[derive(Debug, Clone, Copy, PartialEq, Eq, Structural)]
pub enum Selection {
    /// The user picks them at the console.
    Prompt,
    /// All that were discovered.
    All,
    /// Those that the tokens on the command line name.
    Named,
}

/// The pattern that finds every profile file beneath a root.
pub open spec fn default_glob() -> Seq<char> {
    "**/*.dat"@
}

impl Default for Config {
    /// No option set, and the default pattern.
    fn default() -> (config: Config)
        ensures
            !config.auto_chain,
            !config.fail_fast,
            !config.all_profiles,
            !config.prompt,
            !config.no_restore,
            !config.fail_silent,
            config.glob@ == default_glob(),
    {
        Config {
            auto_chain: false,
            fail_fast: false,
            all_profiles: false,
            prompt: false,
            no_restore: false,
            fail_silent: false,
            glob: String::from_str("**/*.dat"),
        }
    }
}

impl Config {
    /// Where the profiles come from: a prompt goes before everything on the
    /// command line, and "all" before tokens.
    pub open spec fn selection_spec(self) -> Selection {
        if self.prompt {
            Selection::Prompt
        } else if self.all_profiles {
            Selection::All
        } else {
            Selection::Named
        }
    }

    /// Where the profiles of the run come from.
    pub fn selection(&self) -> (selection: Selection)
        ensures
            selection == self.selection_spec(),
    {
        if self.prompt {
            Selection::Prompt
        } else if self.all_profiles {
            Selection::All
        } else {
            Selection::Named
        }
    }
}

/// What a plan is: the profiles in launch order, and the options.
pub struct PlanView {
    pub profiles: Seq<ProfileView>,
    pub config: Config,
}

/// The profiles chosen for a run, in the order in which they are launched,
/// with the options of the run. It does not change once made.
#[derive(Debug)]
pub struct LaunchPlan {
    profiles: Vec<Profile>,
    config: Config,
}

impl View for LaunchPlan {
    type V = PlanView;

    closed spec fn view(&self) -> PlanView {
        PlanView { profiles: views(self.profiles@), config: self.config }
    }
}

impl LaunchPlan {
    /// The plan that launches the given profiles in the given order.
    pub fn new(profiles: Vec<Profile>, config: Config) -> (plan: LaunchPlan)
        ensures
            plan@.profiles == views(profiles@),
            plan@.config == config,
    {
        LaunchPlan { profiles, config }
    }

    /// Makes the plan of a run from the discovered profiles.
    ///
    /// With `all_profiles` and no prompt, the plan holds every discovered
    /// profile in the order of the set, and the tokens are not looked at.
    /// Otherwise it holds what the tokens name, in their order: the tokens
    /// of the command line, or those that the user picked at the prompt. The
    /// first token that names no profile, or not one alone, is an error.
    pub fn build(set: &ProfileSet, config: Config, tokens: &Vec<String>) -> (result: Result<
        LaunchPlan,
        Error,
    >)
        ensures
            config.selection_spec() == Selection::All ==> result is Ok,
            match result {
                Ok(plan) => {
                    &&& plan@.config == config
                    &&& if config.selection_spec() == Selection::All {
                        plan@.profiles == set@
                    } else {
                        resolved(plan@.profiles, set@, tokens@, tokens.len() as int)
                    }
                },
                Err(error) => exists|k: int|
                    0 <= k < tokens.len() && reports(error, set@, (#[trigger] tokens@[k])@)
                        && exists|front: Seq<ProfileView>| resolved(front, set@, tokens@, k),
            },
    {
        match config.selection() {
            Selection::All => {
                let list = set.profiles();
                let mut profiles: Vec<Profile> = Vec::new();
                let mut i: usize = 0;
                while i < list.len()
                    invariant
                        i <= list.len(),
                        views(profiles@) == views(list@).take(i as int),
                    decreases list.len() - i,
                {
                    let ghost before = views(profiles@);
                    let copy = list[i].clone();
                    profiles.push(copy);
                    assert(views(profiles@) =~= before.push(copy@));
                    assert(views(profiles@) =~= views(list@).take(i + 1));
                    i += 1;
                }
                assert(views(list@).take(list.len() as int) =~= views(list@));
                Ok(LaunchPlan { profiles, config })
            },
            _ => match resolve(set, tokens) {
                Ok(profiles) => Ok(LaunchPlan { profiles, config }),
                Err(error) => Err(error),
            },
        }
    }

    /// The number of profiles to launch.
    pub fn len(&self) -> (n: usize)
        ensures
            n == self@.profiles.len(),
    {
        self.profiles.len()
    }

    /// The profiles in launch order.
    pub fn profiles(&self) -> (list: &Vec<Profile>)
        ensures
            views(list@) == self@.profiles,
    {
        &self.profiles
    }

    /// The profile that is launched at place `index`, if the plan is that
    /// long.
    pub fn profile(&self, index: usize) -> (profile: Option<&Profile>)
        ensures
            profile is Some == (index < self@.profiles.len()),
            profile matches Some(p) ==> p@ == self@.profiles[index as int],
    {
        if index < self.profiles.len() {
            Some(&self.profiles[index])
        } else {
            None
        }
    }

    /// The options of the run.
    pub fn config(&self) -> (config: &Config)
        ensures
            *config == self@.config,
    {
        &self.config
    }
}

} // verus!
