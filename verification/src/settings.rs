//! The settings that roles, sessions and the configuration share.

use vstd::prelude::*;

use crate::model;
use crate::model::{Real, RealModel};
use crate::text;

verus! {

/// The settings of a completion; each may be left open.
#[derive(Debug)]
pub struct RoleSettings {
    pub model_id: Option<String>,
    pub temperature: Option<Real>,
    pub top_p: Option<Real>,
    pub use_tools: Option<String>,
    pub use_agents: Option<String>,
    pub max_spawn_depth: Option<usize>,
    pub max_subagent_turns: Option<usize>,
}

/// The settings of a completion.
pub struct SettingsModel {
    pub model_id: Option<Seq<char>>,
    pub temperature: Option<RealModel>,
    pub top_p: Option<RealModel>,
    pub use_tools: Option<Seq<char>>,
    pub use_agents: Option<Seq<char>>,
    pub max_spawn_depth: Option<usize>,
    pub max_subagent_turns: Option<usize>,
}

impl View for RoleSettings {
    type V = SettingsModel;

    open spec fn view(&self) -> SettingsModel {
        SettingsModel {
            model_id: text::optional(self.model_id),
            temperature: model::real_of(self.temperature),
            top_p: model::real_of(self.top_p),
            use_tools: text::optional(self.use_tools),
            use_agents: text::optional(self.use_agents),
            max_spawn_depth: self.max_spawn_depth,
            max_subagent_turns: self.max_subagent_turns,
        }
    }
}

/// Settings that are all left open.
pub open spec fn open_settings() -> SettingsModel {
    SettingsModel {
        model_id: None,
        temperature: None,
        top_p: None,
        use_tools: None,
        use_agents: None,
        max_spawn_depth: None,
        max_subagent_turns: None,
    }
}

impl Clone for RoleSettings {
    fn clone(&self) -> (r: Self)
        ensures
            r == *self,
    {
        RoleSettings {
            model_id: self.model_id.clone(),
            temperature: self.temperature.clone(),
            top_p: self.top_p.clone(),
            use_tools: self.use_tools.clone(),
            use_agents: self.use_agents.clone(),
            max_spawn_depth: self.max_spawn_depth,
            max_subagent_turns: self.max_subagent_turns,
        }
    }
}

impl Default for RoleSettings {
    fn default() -> (r: Self)
        ensures
            r@ == open_settings(),
    {
        RoleSettings {
            model_id: None,
            temperature: None,
            top_p: None,
            use_tools: None,
            use_agents: None,
            max_spawn_depth: None,
            max_subagent_turns: None,
        }
    }
}

/// The setting on top, where it is set, else the one below.
pub open spec fn over<T>(top: Option<T>, below: Option<T>) -> Option<T> {
    if top is Some {
        top
    } else {
        below
    }
}

/// The settings `top` laid over the settings `below`.
pub open spec fn overlaid(below: SettingsModel, top: SettingsModel) -> SettingsModel {
    SettingsModel {
        model_id: over(top.model_id, below.model_id),
        temperature: over(top.temperature, below.temperature),
        top_p: over(top.top_p, below.top_p),
        use_tools: over(top.use_tools, below.use_tools),
        use_agents: over(top.use_agents, below.use_agents),
        max_spawn_depth: over(top.max_spawn_depth, below.max_spawn_depth),
        max_subagent_turns: over(top.max_subagent_turns, below.max_subagent_turns),
    }
}

impl RoleSettings {
    /// Lays the settings that are set in `other` over these.
    pub fn merge_from(&mut self, other: &RoleSettings)
        ensures
            final(self)@ == overlaid(old(self)@, other@),
    {
        if other.model_id.is_some() {
            self.model_id = other.model_id.clone();
        }
        if other.temperature.is_some() {
            self.temperature = other.temperature.clone();
        }
        if other.top_p.is_some() {
            self.top_p = other.top_p.clone();
        }
        if other.use_tools.is_some() {
            self.use_tools = other.use_tools.clone();
        }
        if other.use_agents.is_some() {
            self.use_agents = other.use_agents.clone();
        }
        if other.max_spawn_depth.is_some() {
            self.max_spawn_depth = other.max_spawn_depth;
        }
        if other.max_subagent_turns.is_some() {
            self.max_subagent_turns = other.max_subagent_turns;
        }
    }
}

/// Open settings change nothing, whether they lie on top or below.
pub proof fn overlay_of_open_settings(s: SettingsModel)
    ensures
        overlaid(s, open_settings()) == s,
        overlaid(open_settings(), s) == s,
{
}

/// Laying the same settings over twice is laying them over once.
pub proof fn overlay_twice(below: SettingsModel, top: SettingsModel)
    ensures
        overlaid(overlaid(below, top), top) == overlaid(below, top),
{
}

/// Layers can be laid together in any grouping.
pub proof fn overlay_is_associative(a: SettingsModel, b: SettingsModel, c: SettingsModel)
    ensures
        overlaid(overlaid(a, b), c) == overlaid(a, overlaid(b, c)),
{
}

/// Of two settings laid over one another, each is the upper one where that is set
/// and the lower one where it is not.
pub proof fn upper_settings_win(below: SettingsModel, top: SettingsModel)
    ensures
        ({
            let s = overlaid(below, top);
            &&& s.model_id == if top.model_id is Some {
                top.model_id
            } else {
                below.model_id
            }
            &&& s.temperature == if top.temperature is Some {
                top.temperature
            } else {
                below.temperature
            }
            &&& s.top_p == if top.top_p is Some {
                top.top_p
            } else {
                below.top_p
            }
            &&& s.use_tools == if top.use_tools is Some {
                top.use_tools
            } else {
                below.use_tools
            }
            &&& s.use_agents == if top.use_agents is Some {
                top.use_agents
            } else {
                below.use_agents
            }
            &&& s.max_spawn_depth == if top.max_spawn_depth is Some {
                top.max_spawn_depth
            } else {
                below.max_spawn_depth
            }
            &&& s.max_subagent_turns == if top.max_subagent_turns is Some {
                top.max_subagent_turns
            } else {
                below.max_subagent_turns
            }
        }),
{
}

} // verus!
