//! A local credential browser: records fetched from a password-manager
//! backend are normalized into searchable entities, cached on disk, and a
//! chosen secret is placed on the clipboard with a read-back check.
//!
//! This crate holds the verified core: the record transformer, the cache
//! codec, the gateway command builder and output classifier, the
//! cache-vs-fetch resolver policy, and the selection/retrieval flow.
use vstd::prelude::*;

pub mod cache;
pub mod flow;
pub mod gateway;
pub mod item;
pub mod resolver;
pub mod text;

verus! {

/// Command-line options, as plain values.  The binary that wraps this
/// library parses its arguments and hands them over in this shape.
#[derive(Debug)]
pub struct Args {
    /// Fetch records live and overwrite the cache file.
    pub refresh_cache: bool,
    /// Never read or write the cache file.
    pub no_cache: bool,
    /// Path of the cache file.
    pub cache_path: String,
    /// Vault selector: "favorites", "all", or a vault name.
    pub vault: String,
}

/// Validated run configuration.
#[derive(Debug)]
pub struct Config {
    pub refresh_cache: bool,
    pub no_cache: bool,
    pub cache_path: String,
    pub vault: String,
}

/// Why a set of arguments was rejected.
#[derive(Debug)]
pub enum ConfigError {
    /// "refresh cache" and "no cache" are mutually exclusive modes.
    ConflictingModes,
}

/// Builds the run configuration from parsed arguments.  The two cache
/// modes are mutually exclusive; any other combination is accepted.
pub fn get_args(args: Args) -> (r: Result<Config, ConfigError>)
    ensures
        args.refresh_cache && args.no_cache <==> r is Err,
        r is Err ==> r->Err_0 is ConflictingModes,
        r is Ok ==> {
            &&& r->Ok_0.refresh_cache == args.refresh_cache
            &&& r->Ok_0.no_cache == args.no_cache
            &&& r->Ok_0.cache_path == args.cache_path
            &&& r->Ok_0.vault == args.vault
        },
{
    if args.refresh_cache && args.no_cache {
        Err(ConfigError::ConflictingModes)
    } else {
        Ok(Config {
            refresh_cache: args.refresh_cache,
            no_cache: args.no_cache,
            cache_path: args.cache_path,
            vault: args.vault,
        })
    }
}

} // verus!
