//! Server configuration and the startup decisions derived from it.

use vstd::prelude::*;

verus! {

/// How the server authenticates to the database.
pub enum AuthMethod {
    Credential { username: String, password: String },
    RdsIamAuth { host: String, port: u16, username: String },
}

/// The database authentication section of the configuration file.
pub enum DatabaseAuthConfig {
    Credential { username: String, password: String },
    RdsIamAuth { username: String },
}

/// The database section of the configuration file.
pub struct DatabaseConfig {
    pub host: String,
    pub port: u16,
    pub database_name: String,
    pub auth: DatabaseAuthConfig,
}

/// Tenant topology: one fixed workspace, or workspaces materialized from
/// claims as they are first seen.
pub enum WorkspaceConfig {
    Static { name: String },
    Dynamic,
}

/// The configuration the domain core reads at startup.
pub struct ApplicationConfig {
    pub database: DatabaseConfig,
    pub workspace: WorkspaceConfig,
    pub jwks_refresh_interval: Option<u64>,
    pub token_lifetime: u64,
}

/// Builds the credentials the connection layer needs from the configuration:
/// plain credentials pass through, IAM authentication additionally carries the
/// host and port it must sign for.
pub fn create_database_auth_method(config: &ApplicationConfig) -> (m: AuthMethod)
    ensures
        match config.database.auth {
            DatabaseAuthConfig::Credential { username: ref u, password: ref p } => m matches
                AuthMethod::Credential { ref username, ref password } && username@ == u@
                && password@ == p@,
            DatabaseAuthConfig::RdsIamAuth { username: ref u } => m matches AuthMethod::RdsIamAuth {
                ref host,
                port,
                ref username,
            } && host@ == config.database.host@ && port == config.database.port && username@ == u@,
        },
{
    match &config.database.auth {
        DatabaseAuthConfig::Credential { username, password } => AuthMethod::Credential {
            username: username.clone(),
            password: password.clone(),
        },
        DatabaseAuthConfig::RdsIamAuth { username } => AuthMethod::RdsIamAuth {
            host: config.database.host.clone(),
            port: config.database.port,
            username: username.clone(),
        },
    }
}

/// The schema that holds a workspace's tables.
pub fn schema_name_for_workspace(workspace_name: &str) -> (r: String)
    ensures
        r@ == "workspace_"@ + workspace_name@,
{
    let prefix = String::from_str("workspace_");
    prefix.concat(workspace_name)
}

/// How token-verification keys are discovered: re-fetched on an interval and
/// cached, or fetched once at startup and fixed.
pub enum JwksDiscoveryPlan {
    CachedRemote { refresh_interval_secs: u64 },
    StaticFetchOnce,
}

/// Picks the discovery mode: a configured refresh interval means a cached
/// remote set with a background refresher; without one the set is fetched
/// once, failing startup if that fetch fails.
pub fn plan_jwks_discovery(config: &ApplicationConfig) -> (p: JwksDiscoveryPlan)
    ensures
        match config.jwks_refresh_interval {
            Some(secs) => p == (JwksDiscoveryPlan::CachedRemote { refresh_interval_secs: secs }),
            None => p == JwksDiscoveryPlan::StaticFetchOnce,
        },
{
    match config.jwks_refresh_interval {
        Some(secs) => JwksDiscoveryPlan::CachedRemote { refresh_interval_secs: secs },
        None => JwksDiscoveryPlan::StaticFetchOnce,
    }
}

/// After a refresh attempt, the set the cache must hold: the fetched set when
/// the fetch succeeded, the previous set otherwise. A reader never observes a
/// torn or emptied set on a failed refresh.
pub fn refreshed_jwks(current: crate::token::JwkSet, fetched: Option<crate::token::JwkSet>) -> (r:
    crate::token::JwkSet)
    ensures
        match fetched {
            Some(ref set) => r == *set,
            None => r == current,
        },
{
    match fetched {
        Some(set) => set,
        None => current,
    }
}

/// The schemas the migration pass must bring to the latest revision:
/// the one configured workspace in static mode, every recorded workspace in
/// dynamic mode. Re-running the pass on an up-to-date schema is a no-op at
/// the migration layer, so the plan itself need not deduplicate.
pub fn migration_targets(config: &ApplicationConfig, recorded_workspaces: &Vec<String>) -> (t: Vec<
    String,
>)
    ensures
        match config.workspace {
            WorkspaceConfig::Static { ref name } => t.deep_view() =~= seq![name@],
            WorkspaceConfig::Dynamic => t.deep_view() =~= recorded_workspaces.deep_view(),
        },
{
    match &config.workspace {
        WorkspaceConfig::Static { name } => {
            let mut t: Vec<String> = Vec::new();
            t.push(name.clone());
            t
        },
        WorkspaceConfig::Dynamic => {
            let mut t: Vec<String> = Vec::new();
            let mut i: usize = 0;
            while i < recorded_workspaces.len()
                invariant
                    0 <= i <= recorded_workspaces.len(),
                    t@ =~= recorded_workspaces@.take(i as int),
                decreases recorded_workspaces.len() - i,
            {
                t.push(recorded_workspaces[i].clone());
                i = i + 1;
            }
            proof {
                assert(t@ =~= recorded_workspaces@);
                assert(t.deep_view() =~= recorded_workspaces.deep_view());
            }
            t
        },
    }
}

} // verus!
