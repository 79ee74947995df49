//! The `AGENT_CTX_*` variables of a process: which session, on which platform, acts.
use crate::text::{is_blank, is_blank_text, same_text, trimmed};
use vstd::prelude::*;

verus! {

/// The context of the current process. Every field may be missing.
#[derive(Clone, Debug)]
pub struct AgentCtx {
    /// Contract version (e.g. "1").
    pub version: Option<String>,
    /// Platform name (e.g. "oqto").
    pub platform: Option<String>,
    /// Platform build or version.
    pub platform_version: Option<String>,
    /// Active harness (e.g. "pi").
    pub harness: Option<String>,
    /// Runtime mode (e.g. "runner").
    pub run_mode: Option<String>,
    /// Session id of the platform, stable for joins.
    pub platform_session_id: Option<String>,
    /// Session id of the harness, stable for joins.
    pub harness_session_id: Option<String>,
    /// Session label for display.
    pub session_name: Option<String>,
    /// Short id for logs.
    pub readable_id: Option<String>,
    /// Stable workspace id.
    pub workspace_id: Option<String>,
    /// Absolute workspace path.
    pub workspace_path: Option<String>,
    /// User id on the platform.
    pub user_id: Option<String>,
    /// Active model id.
    pub model: Option<String>,
    /// Request id of one action.
    pub request_id: Option<String>,
    /// Correlation id across services.
    pub correlation_id: Option<String>,
    /// Active sandbox profile.
    pub sandbox_profile: Option<String>,
}

/// The value of a variable in an environment: that of its first entry.
pub open spec fn env_value(vars: Seq<(String, String)>, name: Seq<char>) -> Option<Seq<char>>
    decreases vars.len(),
{
    if vars.len() == 0 {
        None
    } else if vars[0].0@ == name {
        Some(vars[0].1@)
    } else {
        env_value(vars.drop_first(), name)
    }
}

/// The value of a variable that counts as set: one that is not blank.
pub open spec fn set_value(vars: Seq<(String, String)>, name: Seq<char>) -> Option<Seq<char>> {
    match env_value(vars, name) {
        Some(v) => if is_blank_text(v) {
            None
        } else {
            Some(v)
        },
        None => None,
    }
}

fn read(vars: &Vec<(String, String)>, name: &str) -> (r: Option<String>)
    ensures
        r.deep_view() == set_value(vars@, name@),
{
    let mut i: usize = 0;
    assert(vars@.skip(0) =~= vars@);
    while i < vars.len()
        invariant
            i <= vars.len(),
            env_value(vars@, name@) == env_value(vars@.skip(i as int), name@),
        decreases vars.len() - i,
    {
        assert(vars@.skip(i as int).drop_first() =~= vars@.skip(i + 1));
        if same_text(&vars[i].0, name) {
            if is_blank(&vars[i].1) {
                return None;
            }
            return Some(vars[i].1.clone());
        }
        i += 1;
    }
    None
}

impl AgentCtx {
    /// The stable session ids: the platform's, then the harness's where it is another.
    pub open spec fn ids(self) -> Seq<Seq<char>> {
        match (self.platform_session_id.deep_view(), self.harness_session_id.deep_view()) {
            (Some(p), Some(h)) => if p == h {
                seq![p]
            } else {
                seq![p, h]
            },
            (Some(p), None) => seq![p],
            (None, Some(h)) => seq![h],
            (None, None) => seq![],
        }
    }

    /// A context in which nothing is set.
    pub open spec fn has_nothing(self) -> bool {
        &&& self.version is None
        &&& self.platform is None
        &&& self.platform_version is None
        &&& self.harness is None
        &&& self.run_mode is None
        &&& self.platform_session_id is None
        &&& self.harness_session_id is None
        &&& self.session_name is None
        &&& self.readable_id is None
        &&& self.workspace_id is None
        &&& self.workspace_path is None
        &&& self.user_id is None
        &&& self.model is None
        &&& self.request_id is None
        &&& self.correlation_id is None
        &&& self.sandbox_profile is None
    }

    /// Reads the context from the variables of an environment. A field is filled where
    /// its variable is present and not blank.
    pub fn from_env(vars: &Vec<(String, String)>) -> (r: AgentCtx)
        ensures
            r.version.deep_view() == set_value(vars@, "AGENT_CTX_VERSION"@),
            r.platform.deep_view() == set_value(vars@, "AGENT_CTX_PLATFORM_NAME"@),
            r.platform_version.deep_view() == set_value(vars@, "AGENT_CTX_PLATFORM_VERSION"@),
            r.harness.deep_view() == set_value(vars@, "AGENT_CTX_HARNESS"@),
            r.run_mode.deep_view() == set_value(vars@, "AGENT_CTX_RUN_MODE"@),
            r.platform_session_id.deep_view() == set_value(vars@, "AGENT_CTX_PLATFORM_SESSION_ID"@),
            r.harness_session_id.deep_view() == set_value(vars@, "AGENT_CTX_HARNESS_SESSION_ID"@),
            r.session_name.deep_view() == set_value(vars@, "AGENT_CTX_SESSION_NAME"@),
            r.readable_id.deep_view() == set_value(vars@, "AGENT_CTX_READABLE_ID"@),
            r.workspace_id.deep_view() == set_value(vars@, "AGENT_CTX_WORKSPACE_ID"@),
            r.workspace_path.deep_view() == set_value(vars@, "AGENT_CTX_WORKSPACE_PATH"@),
            r.user_id.deep_view() == set_value(vars@, "AGENT_CTX_USER_ID"@),
            r.model.deep_view() == set_value(vars@, "AGENT_CTX_MODEL"@),
            r.request_id.deep_view() == set_value(vars@, "AGENT_CTX_REQUEST_ID"@),
            r.correlation_id.deep_view() == set_value(vars@, "AGENT_CTX_CORRELATION_ID"@),
            r.sandbox_profile.deep_view() == set_value(vars@, "AGENT_CTX_SANDBOX_PROFILE"@),
    {
        AgentCtx {
            version: read(vars, "AGENT_CTX_VERSION"),
            platform: read(vars, "AGENT_CTX_PLATFORM_NAME"),
            platform_version: read(vars, "AGENT_CTX_PLATFORM_VERSION"),
            harness: read(vars, "AGENT_CTX_HARNESS"),
            run_mode: read(vars, "AGENT_CTX_RUN_MODE"),
            platform_session_id: read(vars, "AGENT_CTX_PLATFORM_SESSION_ID"),
            harness_session_id: read(vars, "AGENT_CTX_HARNESS_SESSION_ID"),
            session_name: read(vars, "AGENT_CTX_SESSION_NAME"),
            readable_id: read(vars, "AGENT_CTX_READABLE_ID"),
            workspace_id: read(vars, "AGENT_CTX_WORKSPACE_ID"),
            workspace_path: read(vars, "AGENT_CTX_WORKSPACE_PATH"),
            user_id: read(vars, "AGENT_CTX_USER_ID"),
            model: read(vars, "AGENT_CTX_MODEL"),
            request_id: read(vars, "AGENT_CTX_REQUEST_ID"),
            correlation_id: read(vars, "AGENT_CTX_CORRELATION_ID"),
            sandbox_profile: read(vars, "AGENT_CTX_SANDBOX_PROFILE"),
        }
    }

    /// Whether no variable was set.
    pub fn is_empty(&self) -> (r: bool)
        ensures
            r == self.has_nothing(),
    {
        self.version.is_none() && self.platform.is_none() && self.platform_version.is_none()
            && self.harness.is_none() && self.run_mode.is_none()
            && self.platform_session_id.is_none() && self.harness_session_id.is_none()
            && self.session_name.is_none() && self.readable_id.is_none()
            && self.workspace_id.is_none() && self.workspace_path.is_none()
            && self.user_id.is_none() && self.model.is_none() && self.request_id.is_none()
            && self.correlation_id.is_none() && self.sandbox_profile.is_none()
    }

    /// The stable session ids, the platform's first.
    pub fn session_ids(&self) -> (r: Vec<String>)
        ensures
            r.deep_view() == self.ids(),
    {
        let mut r: Vec<String> = Vec::new();
        match &self.platform_session_id {
            Some(p) => {
                r.push(p.clone());
                match &self.harness_session_id {
                    Some(h) => if !same_text(p, h) {
                        r.push(h.clone());
                    },
                    None => {},
                }
            },
            None => match &self.harness_session_id {
                Some(h) => r.push(h.clone()),
                None => {},
            },
        }
        assert(r.deep_view() =~= self.ids());
        r
    }
}

impl Default for AgentCtx {
    fn default() -> (r: AgentCtx)
        ensures
            r.has_nothing(),
    {
        AgentCtx {
            version: None,
            platform: None,
            platform_version: None,
            harness: None,
            run_mode: None,
            platform_session_id: None,
            harness_session_id: None,
            session_name: None,
            readable_id: None,
            workspace_id: None,
            workspace_path: None,
            user_id: None,
            model: None,
            request_id: None,
            correlation_id: None,
            sandbox_profile: None,
        }
    }
}

/// The session ids of a context never repeat.
pub proof fn session_ids_are_distinct(ctx: AgentCtx)
    ensures
        ctx.ids().no_duplicates(),
        ctx.ids().len() <= 2,
{
}

/// A variable has the value of the first entry with its name; a value that is blank counts as
/// none.
pub proof fn variables_are_read_by_name(vars: Seq<(String, String)>, name: Seq<char>, k: int)
    ensures
        0 <= k < vars.len() && vars[k].0@ == name && (forall|j: int|
            0 <= j < k ==> (#[trigger] vars[j]).0@ != name) ==> env_value(vars, name) == Some(
            vars[k].1@,
        ),
        (forall|j: int| 0 <= j < vars.len() ==> (#[trigger] vars[j]).0@ != name) ==> env_value(
            vars,
            name,
        ) is None,
        env_value(vars, name) matches Some(v) ==> trimmed(v).len() > 0 ==> set_value(vars, name)
            == Some(v),
        env_value(vars, name) matches Some(v) ==> trimmed(v).len() == 0 ==> set_value(vars, name)
            is None,
        env_value(vars, name) is None ==> set_value(vars, name) is None,
    decreases vars.len(),
{
    if vars.len() > 0 {
        let rest = vars.drop_first();
        variables_are_read_by_name(rest, name, k - 1);
        if 0 < k < vars.len() && (forall|j: int|
            0 <= j < k ==> (#[trigger] vars[j]).0@ != name) {
            assert(vars[0].0@ != name);
            assert(rest[k - 1] == vars[k]);
            assert forall|j: int| 0 <= j < k - 1 implies (#[trigger] rest[j]).0@ != name by {
                assert(rest[j] == vars[j + 1]);
            }
        }
        if forall|j: int| 0 <= j < vars.len() ==> (#[trigger] vars[j]).0@ != name {
            assert(vars[0].0@ != name);
            assert forall|j: int| 0 <= j < rest.len() implies (#[trigger] rest[j]).0@ != name by {
                assert(rest[j] == vars[j + 1]);
            }
        }
    }
}

/// The session ids of a context are those of the platform and of the harness, and no others.
pub proof fn session_ids_are_those_that_are_set(ctx: AgentCtx, id: Seq<char>)
    ensures
        ctx.ids().contains(id) <==> ctx.platform_session_id.deep_view() == Some(id)
            || ctx.harness_session_id.deep_view() == Some(id),
        ctx.platform_session_id matches Some(p) ==> ctx.ids().len() > 0 && ctx.ids()[0] == p@,
{
    let ids = ctx.ids();
    if ctx.platform_session_id is Some {
        assert(ids[0] == ctx.platform_session_id->0@);
    }
    if ctx.harness_session_id is Some {
        assert(ids[ids.len() - 1] == ctx.harness_session_id->0@);
    }
}

} // verus!
