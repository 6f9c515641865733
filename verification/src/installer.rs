//! The installer's arguments and the decisions it takes from them: whether Tangram runs
//! as a daemon, and under which user, group and root path.

use vstd::prelude::*;
use crate::dependency::{opt_view, opt_string_clone};

verus! {

/// The installer's command line.
#[derive(Debug)]
pub struct Args {
    pub cmd: Subcommand,
}

/// The installer's subcommands.
#[derive(Debug)]
pub enum Subcommand {
    Init(InitArgs),
    Uninit(UninitArgs),
}

/// The arguments of `init`.
#[derive(Debug)]
pub struct InitArgs {
    /// Disable daemon mode (the default).
    pub no_daemon: bool,
    /// The name of the user to create for the Tangram daemon.
    pub user_name: Option<String>,
    /// The name of the group to create for the Tangram daemon.
    pub group_name: Option<String>,
    /// The location of the Tangram store.
    pub root_path: Option<String>,
}

/// The arguments of `uninit`.
#[derive(Debug)]
pub struct UninitArgs {
    /// The name of the user to remove.
    pub user_name: Option<String>,
    /// The name of the group to remove.
    pub group_name: Option<String>,
}

/// The defaults that the installer falls back on.
#[derive(Debug)]
pub struct Defaults {
    pub user_name: String,
    pub group_name: String,
    pub daemon_root_path: String,
}

/// The part of Tangram's configuration that the installer writes and reads.
#[derive(Debug)]
pub struct Config {
    pub daemon: Option<bool>,
    pub root_path: Option<String>,
}

/// What the installer sets up or removes.
#[derive(Debug)]
pub enum Setup {
    /// No daemon: only the root path, which is the user's data directory when absent.
    NoDaemon { root_path: Option<String> },
    /// A daemon with its own user and group.
    Daemon { user_name: String, group_name: String, root_path: String },
}

/// The mathematical form of a setup.
pub enum SetupView {
    NoDaemon { root_path: Option<Seq<char>> },
    Daemon { user_name: Seq<char>, group_name: Seq<char>, root_path: Seq<char> },
}

impl View for Setup {
    type V = SetupView;

    open spec fn view(&self) -> SetupView {
        match self {
            Setup::NoDaemon { root_path } => SetupView::NoDaemon { root_path: opt_view(root_path) },
            Setup::Daemon { user_name, group_name, root_path } => SetupView::Daemon {
                user_name: user_name@,
                group_name: group_name@,
                root_path: root_path@,
            },
        }
    }
}

/// An optional value, or the default.
pub open spec fn or_default(o: Option<Seq<char>>, d: Seq<char>) -> Seq<char> {
    match o {
        Some(x) => x,
        None => d,
    }
}

/// The setup for a configuration: without a daemon when the configuration says so, and
/// otherwise a daemon with the given or default names and root path.
pub open spec fn spec_setup(
    daemon: Option<bool>,
    root_path: Option<Seq<char>>,
    user_name: Option<Seq<char>>,
    group_name: Option<Seq<char>>,
    defaults: (Seq<char>, Seq<char>, Seq<char>),
) -> SetupView {
    if daemon == Some(false) {
        SetupView::NoDaemon { root_path }
    } else {
        SetupView::Daemon {
            user_name: or_default(user_name, defaults.0),
            group_name: or_default(group_name, defaults.1),
            root_path: or_default(root_path, defaults.2),
        }
    }
}

impl Defaults {
    /// The defaults as a triple of user name, group name and daemon root path.
    pub open spec fn triple(&self) -> (Seq<char>, Seq<char>, Seq<char>) {
        (self.user_name@, self.group_name@, self.daemon_root_path@)
    }
}

/// An optional string, or a copy of the default.
fn string_or(o: &Option<String>, d: &String) -> (r: String)
    ensures
        r@ == or_default(opt_view(o), d@),
{
    match o {
        Some(x) => x.clone(),
        None => d.clone(),
    }
}

/// The setup for a configuration (see `spec_setup`).
fn setup_for(config: &Config, user_name: &Option<String>, group_name: &Option<String>, defaults: &Defaults) -> (r: Setup)
    ensures
        r@ == spec_setup(config.daemon, opt_view(&config.root_path), opt_view(user_name), opt_view(group_name), defaults.triple()),
{
    if config.daemon == Some(false) {
        Setup::NoDaemon { root_path: opt_string_clone(&config.root_path) }
    } else {
        Setup::Daemon {
            user_name: string_or(user_name, &defaults.user_name),
            group_name: string_or(group_name, &defaults.group_name),
            root_path: string_or(&config.root_path, &defaults.daemon_root_path),
        }
    }
}

impl InitArgs {
    /// The configuration that `init` writes: daemon mode unless it is disabled, and the
    /// given root path.
    pub fn config(&self) -> (r: Config)
        ensures
            r.daemon == Some(!self.no_daemon),
            opt_view(&r.root_path) == opt_view(&self.root_path),
    {
        Config { daemon: Some(!self.no_daemon), root_path: opt_string_clone(&self.root_path) }
    }

    /// What `init` sets up.
    pub fn setup(&self, defaults: &Defaults) -> (r: Setup)
        ensures
            r@ == spec_setup(Some(!self.no_daemon), opt_view(&self.root_path), opt_view(&self.user_name), opt_view(&self.group_name), defaults.triple()),
    {
        let config = self.config();
        setup_for(&config, &self.user_name, &self.group_name, defaults)
    }
}

impl UninitArgs {
    /// What `uninit` removes, given the configuration it read.
    pub fn setup(&self, config: &Config, defaults: &Defaults) -> (r: Setup)
        ensures
            r@ == spec_setup(config.daemon, opt_view(&config.root_path), opt_view(&self.user_name), opt_view(&self.group_name), defaults.triple()),
    {
        setup_for(config, &self.user_name, &self.group_name, defaults)
    }
}

/// Why a daemon cannot be set up.
#[derive(Debug)]
pub enum DaemonError {
    /// The user and group names differ, which creating the user with its own group needs.
    NamesDiffer { user_name: String, group_name: String },
}

/// Checks that a daemon can be set up on Linux, where the user is created with a group of
/// its own name: the user and group names must be equal.
pub fn check_daemon_names(user_name: &str, group_name: &str) -> (r: Result<(), DaemonError>)
    ensures
        r is Ok <==> user_name@ == group_name@,
        r matches Err(DaemonError::NamesDiffer { user_name: u, group_name: g }) ==> u@ == user_name@ && g@ == group_name@,
{
    let u = user_name.to_owned();
    let g = group_name.to_owned();
    if u == g {
        Ok(())
    } else {
        Err(DaemonError::NamesDiffer { user_name: u, group_name: g })
    }
}

} // verus!
