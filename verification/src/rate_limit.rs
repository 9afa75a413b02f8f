//! Rate limiting of emitted events (log records, sampled spans): which limiter
//! the settings ask for, and what is emitted given the limiter's verdict.

use vstd::prelude::*;
use crate::settings::RateLimitingSettings;

verus! {

/// The number of events per second that a limiter built for these settings
/// allows; `None` when the settings ask for no limiter: rate limiting is
/// disabled, or its rate is zero.
pub fn rate_limit_quota(settings: &RateLimitingSettings) -> (r: Option<u32>)
    ensures
        r == if settings.enabled && settings.max_events_per_second > 0 {
            Some(settings.max_events_per_second)
        } else {
            None
        },
{
    if settings.enabled && settings.max_events_per_second > 0 {
        Some(settings.max_events_per_second)
    } else {
        None
    }
}

/// Whether an event is emitted, given the verdict of the limiter (`None`
/// where there is no limiter): always without a limiter, otherwise as the
/// limiter allows.
pub fn event_allowed(limiter_verdict: Option<bool>) -> (r: bool)
    ensures
        r == match limiter_verdict {
            Some(allowed) => allowed,
            None => true,
        },
{
    match limiter_verdict {
        Some(allowed) => allowed,
        None => true,
    }
}

/// Whether a span is sampled by a sampler that rate limits another: never
/// when the inner sampler refuses it, otherwise as the limiter allows, which
/// is consulted only then.
pub fn sampled_with_limit(inner_sampled: bool, limiter_verdict: Option<bool>) -> (r: bool)
    ensures
        r == (inner_sampled && match limiter_verdict {
            Some(allowed) => allowed,
            None => true,
        }),
{
    inner_sampled && event_allowed(limiter_verdict)
}

} // verus!
