//! When databases are downloaded again.

use vstd::prelude::*;

use crate::time::TimeSpan;

verus! {

/// How old a database gets: a day.
pub const UPDATE_INTERVAL_SECS: u64 = 86_400;

/// How long after a failed download the next one starts.
pub const RETRY_INTERVAL_SECS: u64 = 30;

/// How long a download of a Geosite database may take.
pub const GEOSITE_DOWNLOAD_TIMEOUT_SECS: u64 = 30;

/// How long connecting for a download of a Geosite database may take.
pub const GEOSITE_CONNECT_TIMEOUT_SECS: u64 = 10;

/// How long to wait before the first download, `age` being the age of a usable database.
pub fn first_update_delay(age: Option<TimeSpan>) -> (delay: TimeSpan)
    ensures
        delay.nanos == match age {
            Some(age) => if age.nanos >= UPDATE_INTERVAL_SECS * 1_000_000_000 {
                0
            } else {
                UPDATE_INTERVAL_SECS * 1_000_000_000 - age.nanos
            },
            None => 0,
        },
{
    let interval = TimeSpan::from_secs(UPDATE_INTERVAL_SECS);
    match age {
        Some(age) => if age.nanos >= interval.nanos {
            TimeSpan::from_nanos(0)
        } else {
            TimeSpan::from_nanos(interval.nanos - age.nanos)
        },
        None => TimeSpan::from_nanos(0),
    }
}

/// How long to wait after a download.
pub fn next_update_delay(updated: bool) -> (delay: TimeSpan)
    ensures
        delay.nanos == 1_000_000_000 * if updated {
            UPDATE_INTERVAL_SECS
        } else {
            RETRY_INTERVAL_SECS
        },
{
    TimeSpan::from_secs(
        if updated {
            UPDATE_INTERVAL_SECS
        } else {
            RETRY_INTERVAL_SECS
        },
    )
}

/// A list that is not there is fetched at once, one that is there when it is a day old; after a
/// failure the next attempt is half a minute away, after a success a day.
pub proof fn law_lists_are_fetched_daily(
    age: Option<TimeSpan>,
    first: TimeSpan,
    updated: bool,
    next: TimeSpan,
)
    requires
        call_ensures(first_update_delay, (age,), first),
        call_ensures(next_update_delay, (updated,), next),
    ensures
        age is None ==> first.nanos == 0,
        age matches Some(age) ==> first.nanos + age.nanos >= 86_400_000_000_000,
        age matches Some(age) && age.nanos <= 86_400_000_000_000 ==> first.nanos + age->Some_0.nanos
            == 86_400_000_000_000,
        age matches Some(age) && age.nanos > 86_400_000_000_000 ==> first.nanos == 0,
        updated ==> next.nanos == 86_400_000_000_000,
        !updated ==> next.nanos == 30_000_000_000,
{
}

/// A download may take half a minute, its connection ten seconds.
pub proof fn law_downloads_are_limited()
    ensures
        GEOSITE_DOWNLOAD_TIMEOUT_SECS == 30,
        GEOSITE_CONNECT_TIMEOUT_SECS == 10,
{
}

} // verus!
