//! Server configuration.
use vstd::prelude::*;
use crate::text;

verus! {

/// Command-line and environment configuration of the server.  Paths are
/// held as strings.
#[derive(Debug, Clone)]
pub struct Config {
    pub maildir: String,
    pub notmuch_config: Option<String>,
    pub index: bool,
    pub no_auto_index: bool,
    pub host: String,
    pub port: u16,
    pub no_webui: bool,
    pub no_mcp: bool,
    pub mcp_path: String,
    pub mcp_allowed_hosts: Vec<String>,
}

/// Which route groups the server mounts.
#[derive(Debug, Clone)]
pub struct RouterConfig {
    pub webui_enabled: bool,
    pub mcp_enabled: bool,
    pub mcp_path: String,
}

/// The route groups of a configuration: the web pages unless disabled, and
/// MCP unless disabled on the command line or by `RUMMAGE_MCP_ENABLED`
/// set to `false` (its value is `mcp_env`).
pub fn router_config(cfg: &Config, mcp_env: &Option<String>) -> (r: RouterConfig)
    ensures
        r.webui_enabled == !cfg.no_webui,
        r.mcp_enabled == (!cfg.no_mcp && match mcp_env {
            Some(v) => v@ != "false"@,
            None => true,
        }),
        r.mcp_path@ == cfg.mcp_path@,
{
    let env_allows = match mcp_env {
        Some(v) => !text::str_eq(v.as_str(), "false"),
        None => true,
    };
    RouterConfig {
        webui_enabled: !cfg.no_webui,
        mcp_enabled: !cfg.no_mcp && env_allows,
        mcp_path: text::copy_str(cfg.mcp_path.as_str()),
    }
}

/// The notmuch configuration file to use: the configured one, else the one
/// `NOTMUCH_CONFIG` names (its value is `env`).
pub fn notmuch_config_path(configured: Option<String>, env: Option<String>) -> (r: Option<String>)
    ensures
        r == match configured {
            Some(c) => Some(c),
            None => env,
        },
{
    match configured {
        Some(c) => Some(c),
        None => env,
    }
}

} // verus!
