//! The guard against nesting loggers without end: each time a logger is
//! replaced by a child of itself its nesting level grows, and past a limit
//! the replacement is refused.

use vstd::prelude::*;

verus! {

/// The nesting level at which further nesting is refused.
pub const MAX_NESTING: u32 = 1000;

/// The message of the error reported when the limit is reached.
pub fn exceeded_max_nesting_error() -> (r: &'static str)
    ensures
        r@ == "foundations: maximum logger KV nesting exceeded (are add_fields! or set_verbosity being called in a loop?)"@,
{
    "foundations: maximum logger KV nesting exceeded (are add_fields! or set_verbosity being called in a loop?)"
}

/// What a nesting check decides.
#[derive(Clone, Copy, Debug, PartialEq, Eq, Structural)]
pub enum NestingCheck {
    /// Below the limit: nest the logger.
    Proceed,
    /// The limit was just reached: report it once, and do not nest.
    LimitReached,
    /// Past the limit: do not nest.
    Refused,
}

/// Counts one more nesting (saturating) and decides whether it may happen:
/// below `MAX_NESTING` it may, at `MAX_NESTING` the limit was just reached,
/// and beyond it nesting stays refused.
pub fn check_nesting_level(nesting_level: &mut u32) -> (r: NestingCheck)
    ensures
        *final(nesting_level) == if *old(nesting_level) == u32::MAX {
            u32::MAX
        } else {
            (*old(nesting_level) + 1) as u32
        },
        r == if *final(nesting_level) < MAX_NESTING {
            NestingCheck::Proceed
        } else if *final(nesting_level) == MAX_NESTING {
            NestingCheck::LimitReached
        } else {
            NestingCheck::Refused
        },
{
    *nesting_level = nesting_level.saturating_add(1);
    if *nesting_level < MAX_NESTING {
        NestingCheck::Proceed
    } else if *nesting_level == MAX_NESTING {
        NestingCheck::LimitReached
    } else {
        NestingCheck::Refused
    }
}

} // verus!
