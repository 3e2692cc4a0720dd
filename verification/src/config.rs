//! The client's configuration: the agent processes it can start, the models
//! and tool servers it knows, and the user's command shortcuts.
//!
//! Only `agent_servers` has to be given. What is left out takes a default:
//! the upload directory is the current directory, and every other table is
//! empty.

use vstd::prelude::*;
use crate::string_map::StringMap;

verus! {

/// The whole configuration, each table keyed by the name of its entry.
#[derive(Debug)]
pub struct Config {
    pub agent_servers: StringMap<AgentProcessConfig>,
    pub upload_dir: String,
    pub models: StringMap<ModelConfig>,
    pub mcp_servers: StringMap<McpServerConfig>,
    pub commands: StringMap<CommandConfig>,
}

/// How an agent process is started.
#[derive(Debug)]
pub struct AgentProcessConfig {
    pub command: String,
    pub args: Vec<String>,
    pub env: StringMap<String>,
}

/// A model of a language-model provider.
#[derive(Debug)]
pub struct ModelConfig {
    pub enabled: bool,
    pub provider: String,
    pub base_url: String,
    pub api_key: String,
    pub model_name: String,
}

/// A server of the model context protocol.
#[derive(Debug)]
pub struct McpServerConfig {
    pub enabled: bool,
    pub description: String,
    pub config: StringMap<String>,
}

/// A command shortcut of the user.
#[derive(Debug)]
pub struct CommandConfig {
    pub description: String,
    pub template: String,
}

/// The upload directory of a configuration that names none: the current
/// directory.
pub fn default_upload_dir() -> (dir: String)
    ensures
        dir@ == "."@,
{
    ".".to_owned()
}

impl Config {
    /// Every table of the configuration is well-formed.
    pub open spec fn wf(&self) -> bool {
        &&& self.agent_servers.wf()
        &&& self.models.wf()
        &&& self.mcp_servers.wf()
        &&& self.commands.wf()
    }

    /// The configuration that names its agent servers and nothing else.
    pub fn new(agent_servers: StringMap<AgentProcessConfig>) -> (config: Config)
        requires
            agent_servers.wf(),
        ensures
            config.wf(),
            config.agent_servers == agent_servers,
            config.upload_dir@ == "."@,
            config.models@ == Map::<Seq<char>, ModelConfig>::empty(),
            config.mcp_servers@ == Map::<Seq<char>, McpServerConfig>::empty(),
            config.commands@ == Map::<Seq<char>, CommandConfig>::empty(),
    {
        Config {
            agent_servers,
            upload_dir: default_upload_dir(),
            models: StringMap::new(),
            mcp_servers: StringMap::new(),
            commands: StringMap::new(),
        }
    }
}

impl AgentProcessConfig {
    /// The configuration of an agent that is started by `command` alone,
    /// without arguments and without changes to its environment.
    pub fn new(command: &str) -> (config: AgentProcessConfig)
        ensures
            config.command@ == command@,
            config.args@ == Seq::<String>::empty(),
            config.env.wf(),
            config.env@ == Map::<Seq<char>, String>::empty(),
    {
        AgentProcessConfig { command: command.to_owned(), args: Vec::new(), env: StringMap::new() }
    }
}

impl McpServerConfig {
    /// The configuration of a server that takes no settings.
    pub fn new(enabled: bool, description: &str) -> (config: McpServerConfig)
        ensures
            config.enabled == enabled,
            config.description@ == description@,
            config.config.wf(),
            config.config@ == Map::<Seq<char>, String>::empty(),
    {
        McpServerConfig { enabled, description: description.to_owned(), config: StringMap::new() }
    }
}

} // verus!
