//! The configuration that completions run with.

use vstd::prelude::*;

use crate::function::{DeclarationModel, Functions};
use crate::role::{Role, RoleModel};
use crate::session::{Session, SessionModel};
use crate::settings::{RoleSettings, SettingsModel};

verus! {

/// A directory that holds functions.
#[derive(Debug, PartialEq, Eq)]
pub enum FunctionsDir {
    /// The one for the functions that every role may call.
    Shared,
    /// The one of an agent.
    Agent(String),
}

/// A directory that holds functions.
pub enum DirModel {
    Shared,
    Agent(Seq<char>),
}

impl View for FunctionsDir {
    type V = DirModel;

    open spec fn view(&self) -> DirModel {
        match self {
            FunctionsDir::Shared => DirModel::Shared,
            FunctionsDir::Agent(name) => DirModel::Agent(name@),
        }
    }
}

/// A directory that may be there.
pub open spec fn dir_of(dir: Option<FunctionsDir>) -> Option<DirModel> {
    match dir {
        Some(d) => Some(d@),
        None => None,
    }
}

/// The configuration.
#[derive(Debug)]
pub struct Config {
    pub role: Option<Role>,
    pub session: Option<Session>,
    pub agent: Option<Role>,
    pub functions: Functions,
    pub settings: RoleSettings,
    /// Functions may be written in Lua.
    pub lua_tools: bool,
    /// Replies are shown as they come.
    pub stream: bool,
    /// What subagents do is shown.
    pub show_subagent: bool,
    pub save_session: Option<bool>,
    /// Only information is asked for.
    pub info_flag: bool,
    pub highlight: bool,
    pub harness_active: bool,
    pub harness_activated_agent: bool,
    /// How many agents spawned this one, each the next.
    pub agent_depth: usize,
    /// How deep agents may be nested; 0 where that was never limited.
    pub agent_depth_ceiling: usize,
}

/// The configuration.
pub struct ConfigModel {
    pub role: Option<RoleModel>,
    pub session: Option<SessionModel>,
    pub agent: Option<RoleModel>,
    pub functions: Seq<DeclarationModel>,
    pub settings: SettingsModel,
    pub lua_tools: bool,
    pub stream: bool,
    pub show_subagent: bool,
    pub save_session: Option<bool>,
    pub info_flag: bool,
    pub highlight: bool,
    pub harness_active: bool,
    pub harness_activated_agent: bool,
    pub agent_depth: usize,
    pub agent_depth_ceiling: usize,
}

/// The role that may be there.
pub open spec fn role_of(r: Option<Role>) -> Option<RoleModel> {
    match r {
        Some(role) => Some(role@),
        None => None,
    }
}

impl View for Config {
    type V = ConfigModel;

    open spec fn view(&self) -> ConfigModel {
        ConfigModel {
            role: role_of(self.role),
            session: match self.session {
                Some(s) => Some(s@),
                None => None,
            },
            agent: role_of(self.agent),
            functions: self.functions@,
            settings: self.settings@,
            lua_tools: self.lua_tools,
            stream: self.stream,
            show_subagent: self.show_subagent,
            save_session: self.save_session,
            info_flag: self.info_flag,
            highlight: self.highlight,
            harness_active: self.harness_active,
            harness_activated_agent: self.harness_activated_agent,
            agent_depth: self.agent_depth,
            agent_depth_ceiling: self.agent_depth_ceiling,
        }
    }
}

impl Config {
    /// The directory for the functions that every role may call.
    pub fn functions_dir() -> (r: FunctionsDir)
        ensures
            r@ == DirModel::Shared,
    {
        FunctionsDir::Shared
    }

    /// The directory of an agent.
    pub fn agent_dir(name: &str) -> (r: FunctionsDir)
        ensures
            r@ == DirModel::Agent(name@),
    {
        FunctionsDir::Agent(name.to_owned())
    }
}

} // verus!
