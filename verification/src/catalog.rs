//! How the provider catalog is chosen: a fresh in-memory copy is served for
//! a day; otherwise it is fetched (a disk-cache fallback keeps its own
//! fetch time); when fetching fails an expired copy still beats the builtin
//! list, which is never cached.

use vstd::prelude::*;

verus! {

/// How long a fetched catalog is served, in milliseconds (24 hours).
pub const CATALOG_CACHE_TTL_MS: i64 = 86_400_000;

/// Whether a catalog cached at `cached_at` is still fresh at `now`.
pub open spec fn catalog_fresh_spec(cached_at: i64, now: i64) -> bool {
    cached_at + CATALOG_CACHE_TTL_MS > now
}

pub fn catalog_is_fresh(cached_at: i64, now: i64) -> (r: bool)
    ensures
        r == catalog_fresh_spec(cached_at, now),
{
    (cached_at as i128) + (CATALOG_CACHE_TTL_MS as i128) > (now as i128)
}

/// A fetched catalog is served for a day: fresh from the moment it was
/// cached until one day later, expired from then on.
pub proof fn law_catalog_served_for_a_day(cached_at: i64, now: i64)
    ensures
        cached_at <= now < cached_at + 86_400_000 ==> catalog_fresh_spec(cached_at, now),
        now >= cached_at + 86_400_000 ==> !catalog_fresh_spec(cached_at, now),
{
}

/// Where a fetched catalog came from.
#[derive(Debug, Clone, Copy, PartialEq, Eq, Structural)]
pub enum CatalogSource {
    Network,
    /// The on-disk copy, fetched at this time.
    DiskCache(i64),
}

/// What to serve after a fetch attempt.
#[derive(Debug, Clone, Copy, PartialEq, Eq, Structural)]
pub enum CatalogChoice {
    /// Serve the fetched catalog and cache it as fetched at this time.
    Fetched { cached_at: i64 },
    /// Serve the expired in-memory copy.
    Stale,
    /// Serve the builtin catalog (and cache nothing).
    Builtin,
}

/// Decide what to serve after a fetch: the fetched catalog (network: cached
/// now; disk: cached at the time it was written), else the stale copy when there
/// is one, else the builtin list.
pub fn after_fetch(fetched: Option<CatalogSource>, now: i64, have_stale: bool) -> (r: CatalogChoice)
    ensures
        r == (match fetched {
            Some(CatalogSource::Network) => CatalogChoice::Fetched { cached_at: now },
            Some(CatalogSource::DiskCache(t)) => CatalogChoice::Fetched { cached_at: t },
            None => if have_stale {
                CatalogChoice::Stale
            } else {
                CatalogChoice::Builtin
            },
        }),
{
    match fetched {
        Some(CatalogSource::Network) => CatalogChoice::Fetched { cached_at: now },
        Some(CatalogSource::DiskCache(t)) => CatalogChoice::Fetched { cached_at: t },
        None => if have_stale {
            CatalogChoice::Stale
        } else {
            CatalogChoice::Builtin
        },
    }
}

} // verus!
