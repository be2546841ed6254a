use vstd::prelude::*;

verus! {

/// The setting that selects the networked backend; any other selects the
/// in-process one.
pub open spec fn is_redis_setting(s: Seq<char>) -> bool {
    s == "redis"@
}

/// The backend that a process runs.
#[derive(PartialEq, Eq, Clone, Debug)]
pub enum BackendChoice {
    /// The in-process store.
    InMemory,
    /// The networked store at `url`.
    Redis { url: String },
}

/// Why no backend could be chosen; a process does not start serving then.
#[derive(PartialEq, Eq, Structural, Clone, Copy, Debug)]
pub enum ConfigError {
    /// The networked backend was selected without an endpoint.
    MissingRedisUrl,
}

/// Chooses the backend from the backend setting and the networked store's
/// endpoint, each as configured, if it is. Without a setting, or with one other
/// than `redis`, the process runs the in-process store; with `redis` it needs
/// an endpoint.
pub fn select_backend(setting: Option<String>, redis_url: Option<String>) -> (r: Result<
    BackendChoice,
    ConfigError,
>)
    ensures
        match setting {
            Some(s) if is_redis_setting(s@) => match redis_url {
                Some(u) => r matches Ok(BackendChoice::Redis { url }) && url@ == u@,
                None => r == Err::<BackendChoice, ConfigError>(ConfigError::MissingRedisUrl),
            },
            _ => r matches Ok(BackendChoice::InMemory),
        },
{
    let wants_redis = match &setting {
        Some(s) => {
            let redis = "redis".to_owned();
            *s == redis
        },
        None => false,
    };
    if wants_redis {
        match redis_url {
            Some(url) => Ok(BackendChoice::Redis { url }),
            None => Err(ConfigError::MissingRedisUrl),
        }
    } else {
        Ok(BackendChoice::InMemory)
    }
}

} // verus!
