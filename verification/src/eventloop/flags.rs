//! Flags that select what one pass of the event loop processes.

use vstd::prelude::*;

verus! {

/// A set of event-loop flags, one bit per flag.
pub type EventLoopFlag = i32;

/// Process file (socket) events.
pub const AE_FILE_EVENTS: i32 = 1;

/// Process time events.
pub const AE_TIME_EVENTS: i32 = 2;

/// Process every kind of event.
pub const AE_ALL_EVENTS: i32 = 3;

/// Return as soon as the events that need no wait are processed.
pub const AE_DONT_WAIT: i32 = 4;

/// Call the before-sleep hook.
pub const AE_CALL_BEFORE_SLEEP: i32 = 8;

/// Call the after-sleep hook.
pub const AE_CALL_AFTER_SLEEP: i32 = 16;

/// Whether `flags` has at least one of the bits of `mask`.
pub open spec fn has_any(flags: i32, mask: i32) -> bool {
    flags & mask != 0
}

pub fn is_file_event(flags: EventLoopFlag) -> (r: bool)
    ensures
        r == has_any(flags, AE_FILE_EVENTS),
{
    assert(flags & 1 >= 0) by (bit_vector);
    flags & AE_FILE_EVENTS > 0
}

pub fn is_time_event(flags: EventLoopFlag) -> (r: bool)
    ensures
        r == has_any(flags, AE_TIME_EVENTS),
{
    assert(flags & 2 >= 0) by (bit_vector);
    flags & AE_TIME_EVENTS > 0
}

pub fn is_all_event(flags: EventLoopFlag) -> (r: bool)
    ensures
        r == has_any(flags, AE_ALL_EVENTS),
        r == (has_any(flags, AE_FILE_EVENTS) || has_any(flags, AE_TIME_EVENTS)),
{
    assert(flags & 3 >= 0) by (bit_vector);
    assert((flags & 3 != 0) == (flags & 1 != 0 || flags & 2 != 0)) by (bit_vector);
    flags & AE_ALL_EVENTS > 0
}

pub fn is_dont_wait(flags: EventLoopFlag) -> (r: bool)
    ensures
        r == has_any(flags, AE_DONT_WAIT),
{
    assert(flags & 4 >= 0) by (bit_vector);
    flags & AE_DONT_WAIT > 0
}

pub fn is_call_after_sleep(flags: EventLoopFlag) -> (r: bool)
    ensures
        r == has_any(flags, AE_CALL_AFTER_SLEEP),
{
    assert(flags & 16 >= 0) by (bit_vector);
    flags & AE_CALL_AFTER_SLEEP > 0
}

pub fn is_call_before_sleep(flags: EventLoopFlag) -> (r: bool)
    ensures
        r == has_any(flags, AE_CALL_BEFORE_SLEEP),
{
    assert(flags & 8 >= 0) by (bit_vector);
    flags & AE_CALL_BEFORE_SLEEP > 0
}

} // verus!
