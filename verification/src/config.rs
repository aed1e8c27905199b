//! Reading a configuration value through the versioned namespace cache: the decisions of the
//! read path, step by step, and the rules on creating a value.
use vstd::prelude::*;

use crate::error::{AppError, AppResult};
use crate::text::{owned, push_str};

use crate::text::{id_text, signed_decimal};
verus! {

/// How long a cached configuration value lives, in seconds.
pub const CONFIG_CACHE_TTL_SECS: u64 = 3600;

/// What the cache answered for a key: the namespace version it belongs to and, on a hit, the
/// cached JSON.
pub struct NamespaceCacheLookup {
    pub namespace_version: i64,
    pub value: Option<String>,
}

/// Where a read stands.
#[derive(Debug, Clone, Copy, PartialEq, Eq, Structural)]
pub enum ConfigReadState {
    Start,
    WaitingCache,
    WaitingVersion,
    WaitingParse { namespace_version: i64 },
    WaitingPrimary { store_version: Option<i64> },
    Done,
}

/// What the caller reports back.
pub enum ConfigReadEvent {
    /// The read begins: whether it may be eventually consistent and the cache is on.
    Begin { eventual: bool, cache_enabled: bool },
    /// The cache answered (`None`: the namespace version itself is missing).
    CacheAnswered(Option<NamespaceCacheLookup>),
    /// The namespace version was read from the primary database and restored in the cache.
    VersionRestored(i64),
    /// Whether the cached JSON parsed.
    CachedParsed(bool),
    /// The primary database answered; whether the key exists.
    PrimaryAnswered { found: bool },
}

/// What the caller does next.
pub enum ConfigReadAction {
    ReadCache,
    RestoreVersionFromPrimary,
    ParseCached(String),
    /// Read the key from the primary database (never a replica).
    ReadPrimary,
    /// Return the value found, after caching it under this namespace version.
    StoreAndFinish { namespace_version: i64 },
    /// Return what was found (the parsed cached value, or the primary's answer).
    Finish,
    /// The event does not fit the state.
    Invalid,
}

pub open spec fn spec_config_step(state: ConfigReadState, event: ConfigReadEvent) -> (ConfigReadState, ConfigReadAction) {
    match (state, event) {
        (ConfigReadState::Start, ConfigReadEvent::Begin { eventual, cache_enabled }) => if eventual && cache_enabled {
            (ConfigReadState::WaitingCache, ConfigReadAction::ReadCache)
        } else {
            (ConfigReadState::WaitingPrimary { store_version: None }, ConfigReadAction::ReadPrimary)
        },
        (ConfigReadState::WaitingCache, ConfigReadEvent::CacheAnswered(lookup)) => match lookup {
            None => (ConfigReadState::WaitingVersion, ConfigReadAction::RestoreVersionFromPrimary),
            Some(l) => match l.value {
                Some(json) => (ConfigReadState::WaitingParse { namespace_version: l.namespace_version }, ConfigReadAction::ParseCached(json)),
                None => (ConfigReadState::WaitingPrimary { store_version: Some(l.namespace_version) }, ConfigReadAction::ReadPrimary),
            },
        },
        (ConfigReadState::WaitingVersion, ConfigReadEvent::VersionRestored(v)) => (
            ConfigReadState::WaitingPrimary { store_version: Some(v) },
            ConfigReadAction::ReadPrimary,
        ),
        (ConfigReadState::WaitingParse { namespace_version }, ConfigReadEvent::CachedParsed(ok)) => if ok {
            (ConfigReadState::Done, ConfigReadAction::Finish)
        } else {
            (ConfigReadState::WaitingPrimary { store_version: Some(namespace_version) }, ConfigReadAction::ReadPrimary)
        },
        (ConfigReadState::WaitingPrimary { store_version }, ConfigReadEvent::PrimaryAnswered { found }) => (
            ConfigReadState::Done,
            match store_version {
                Some(v) => if found {
                    ConfigReadAction::StoreAndFinish { namespace_version: v }
                } else {
                    ConfigReadAction::Finish
                },
                None => ConfigReadAction::Finish,
            },
        ),
        _ => (state, ConfigReadAction::Invalid),
    }
}

/// One step of a configuration read: the next state and what to do.
pub fn config_read_step(state: ConfigReadState, event: ConfigReadEvent) -> (r: (ConfigReadState, ConfigReadAction))
    ensures
        r == spec_config_step(state, event),
{
    match (state, event) {
        (ConfigReadState::Start, ConfigReadEvent::Begin { eventual, cache_enabled }) => {
            if eventual && cache_enabled {
                (ConfigReadState::WaitingCache, ConfigReadAction::ReadCache)
            } else {
                (ConfigReadState::WaitingPrimary { store_version: None }, ConfigReadAction::ReadPrimary)
            }
        },
        (ConfigReadState::WaitingCache, ConfigReadEvent::CacheAnswered(lookup)) => match lookup {
            None => (ConfigReadState::WaitingVersion, ConfigReadAction::RestoreVersionFromPrimary),
            Some(l) => match l.value {
                Some(json) => (ConfigReadState::WaitingParse { namespace_version: l.namespace_version }, ConfigReadAction::ParseCached(json)),
                None => (ConfigReadState::WaitingPrimary { store_version: Some(l.namespace_version) }, ConfigReadAction::ReadPrimary),
            },
        },
        (ConfigReadState::WaitingVersion, ConfigReadEvent::VersionRestored(v)) => (
            ConfigReadState::WaitingPrimary { store_version: Some(v) },
            ConfigReadAction::ReadPrimary,
        ),
        (ConfigReadState::WaitingParse { namespace_version }, ConfigReadEvent::CachedParsed(ok)) => {
            if ok {
                (ConfigReadState::Done, ConfigReadAction::Finish)
            } else {
                (ConfigReadState::WaitingPrimary { store_version: Some(namespace_version) }, ConfigReadAction::ReadPrimary)
            }
        },
        (ConfigReadState::WaitingPrimary { store_version }, ConfigReadEvent::PrimaryAnswered { found }) => {
            let action = match store_version {
                Some(v) => {
                    if found {
                        ConfigReadAction::StoreAndFinish { namespace_version: v }
                    } else {
                        ConfigReadAction::Finish
                    }
                },
                None => ConfigReadAction::Finish,
            };
            (ConfigReadState::Done, action)
        },
        (s, _) => (s, ConfigReadAction::Invalid),
    }
}

/// Whether an action touches the database.
pub open spec fn reads_database(a: ConfigReadAction) -> bool {
    a is RestoreVersionFromPrimary || a is ReadPrimary
}

/// A hot cache hit touches no database: begin, hit, parse, and the read is done.
pub proof fn law_hot_hit_reads_no_database(version: i64, json: String)
    ensures
        ({
            let (s1, a1) = spec_config_step(ConfigReadState::Start, ConfigReadEvent::Begin { eventual: true, cache_enabled: true });
            let (s2, a2) = spec_config_step(s1, ConfigReadEvent::CacheAnswered(Some(NamespaceCacheLookup { namespace_version: version, value: Some(json) })));
            let (s3, a3) = spec_config_step(s2, ConfigReadEvent::CachedParsed(true));
            &&& !reads_database(a1) && !reads_database(a2) && !reads_database(a3)
            &&& s3 == ConfigReadState::Done
            &&& a3 is Finish
        }),
{
}

/// A missing namespace version is restored from the primary database, and the value read
/// then is cached under the restored version.
pub proof fn law_missing_version_is_restored(version: i64)
    ensures
        ({
            let (s1, a1) = spec_config_step(ConfigReadState::WaitingCache, ConfigReadEvent::CacheAnswered(None));
            let (s2, a2) = spec_config_step(s1, ConfigReadEvent::VersionRestored(version));
            let (s3, a3) = spec_config_step(s2, ConfigReadEvent::PrimaryAnswered { found: true });
            &&& a1 is RestoreVersionFromPrimary
            &&& a2 is ReadPrimary
            &&& s3 == ConfigReadState::Done
            &&& a3 == ConfigReadAction::StoreAndFinish { namespace_version: version }
        }),
{
}

/// A read with the cache off, or that needs strong consistency, goes straight to the primary
/// database and caches nothing.
pub proof fn law_uncached_read_goes_to_primary(eventual: bool, cache_enabled: bool, found: bool)
    requires
        !(eventual && cache_enabled),
    ensures
        ({
            let (s1, a1) = spec_config_step(ConfigReadState::Start, ConfigReadEvent::Begin { eventual, cache_enabled });
            let (s2, a2) = spec_config_step(s1, ConfigReadEvent::PrimaryAnswered { found });
            &&& a1 is ReadPrimary
            &&& s2 == ConfigReadState::Done
            &&& a2 is Finish
        }),
{
}

/// A configuration key may exist once per tenant.
pub fn check_config_key_free(key: &str, taken: bool) -> (r: AppResult<()>)
    ensures
        r is Ok <==> !taken,
        r matches Err(e) ==> e is Validation && e.spec_message() == "参数键名 '"@ + key@ + "' 已存在"@,
{
    if taken {
        let mut msg = owned("参数键名 '");
        push_str(&mut msg, key);
        push_str(&mut msg, "' 已存在");
        return Err(AppError::Validation(msg));
    }
    Ok(())
}


/// A stored system parameter. Times are Unix milliseconds.
pub struct StoredConfig {
    pub id: i64,
    pub tenant_id: String,
    pub name: String,
    pub key: String,
    pub value: String,
    /// Whether the parameter may travel in a configuration package.
    pub portable: bool,
    pub remark: Option<String>,
    pub del_flag: String,
    pub created_at: i64,
    pub updated_at: i64,
}

/// A system parameter as listed, its id in decimal.
pub struct ConfigVo {
    pub id: String,
    pub name: String,
    pub key: String,
    pub value: String,
    pub remark: Option<String>,
    pub created_at: i64,
}

/// The listing view of a system parameter.
pub fn config_vo(c: StoredConfig) -> (r: ConfigVo)
    ensures
        r.id@ == signed_decimal(c.id as int),
        r.name == c.name,
        r.key == c.key,
        r.value == c.value,
        r.remark == c.remark,
        r.created_at == c.created_at,
{
    ConfigVo { id: id_text(c.id), name: c.name, key: c.key, value: c.value, remark: c.remark, created_at: c.created_at }
}

} // verus!
