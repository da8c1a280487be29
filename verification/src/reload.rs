use vstd::prelude::*;
use crate::config::{Config, ConfigError};
use crate::health::HealthChecker;
use crate::manager::{reload_outcome, RouterManager};
use crate::router::RouterError;

verus! {

/// Whether and how configuration changes are picked up.
#[derive(Debug, Clone, Copy, PartialEq, Eq, Structural)]
pub struct HotReloadConfig {
    pub enabled: bool,
    pub watch_config_file: bool,
    /// Seconds between reloads; none means only on changes of the file.
    pub reload_interval: Option<u64>,
}

impl Default for HotReloadConfig {
    fn default() -> (r: Self)
        ensures
            r == (HotReloadConfig { enabled: true, watch_config_file: true, reload_interval: None }),
    {
        HotReloadConfig { enabled: true, watch_config_file: true, reload_interval: None }
    }
}

/// Why a reload failed.
#[derive(Debug)]
pub enum ReloadError {
    /// The new configuration is not valid.
    Invalid(ConfigError),
    /// The router manager could not take the new configuration.
    RouterReload(RouterError),
}

impl ReloadError {
    /// The error's message: what failed, then why.
    pub fn message(&self) -> (r: String)
        ensures
            r@ == match self {
                ReloadError::Invalid(_) => "New configuration validation failed"@,
                ReloadError::RouterReload(_) => "Failed to reload router manager"@,
            },
    {
        match self {
            ReloadError::Invalid(_) => crate::text::text_owned("New configuration validation failed"),
            ReloadError::RouterReload(_) => crate::text::text_owned("Failed to reload router manager"),
        }
    }
}

/// Whether a configuration passes `Config::validate`.
pub open spec fn config_valid(config: Config) -> bool {
    &&& config.server.tcp_bind.port != 0
    &&& config.server.udp_bind.port != 0
    &&& config.redis.url@.len() != 0
    &&& forall|i: int|
        0 <= i < config.rules@.len() ==> crate::config::rule_well_formed(#[trigger] config.rules@[i]@, config.routers@)
}

/// Brings the components up to a configuration that was read afresh: it is
/// validated first; then the router manager takes it (an error there ends the
/// reload), the health checker stops, and the proxy's own reload hands it to
/// the router manager once more (an error there is only reported, by the
/// second result).
pub fn apply_reload(config: &Config, manager: &mut RouterManager, health: &mut HealthChecker) -> (r: (
    Result<(), ReloadError>,
    Option<RouterError>,
))
    requires
        config.wf(),
        old(manager).wf(),
    ensures
        !config_valid(*config) ==> (r.0 matches Err(ReloadError::Invalid(_))) && *final(manager) == *old(manager)
            && *final(health) == *old(health) && r.1 is None,
        config_valid(*config) ==> {
            &&& r.0 matches Err(ReloadError::RouterReload(e)) ==> reload_outcome(
                *old(manager),
                *final(manager),
                *config,
                Err(e),
            ) && *final(health) == *old(health) && r.1 is None
            &&& r.0 is Ok ==> {
                &&& !final(health).spec_running()
                &&& final(health).spec_states() == old(health).spec_states()
                &&& final(health).spec_config() == old(health).spec_config()
                &&& exists|mid: RouterManager|
                    reload_outcome(*old(manager), mid, *config, Ok(())) && reload_outcome(
                        mid,
                        *final(manager),
                        *config,
                        match r.1 {
                            Some(e) => Err(e),
                            None => Ok(()),
                        },
                    )
            }
            &&& r.0 is Ok || r.0 matches Err(ReloadError::RouterReload(_))
        },
{
    match config.validate() {
        Ok(()) => {},
        Err(e) => {
            return (Err(ReloadError::Invalid(e)), None);
        },
    }
    match manager.reload_config(config) {
        Ok(()) => {},
        Err(e) => {
            return (Err(ReloadError::RouterReload(e)), None);
        },
    }
    let ghost mid = *manager;
    assert(reload_outcome(*old(manager), mid, *config, Ok(())));
    health.stop();
    let again = manager.reload_config(config);
    assert(reload_outcome(mid, *manager, *config, again));
    let second = match again {
        Ok(()) => None,
        Err(e) => Some(e),
    };
    assert(reload_outcome(
        mid,
        *manager,
        *config,
        match second {
            Some(e) => Err(e),
            None => Ok(()),
        },
    ));
    (Ok(()), second)
}

} // verus!
