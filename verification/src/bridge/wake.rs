//! Wake signals through a file descriptor, as far as they need deciding.
//!
//! One side writes to wake the other, which polls and reads. The descriptor is a
//! counter or, where the system has none, a pipe. The calls to the system are
//! made elsewhere; these functions say what their results mean.

use vstd::prelude::*;

verus! {

/// Bit of a poll result that says that there is something to read.
pub const POLL_IN: i16 = 1;

/// Bytes of a signal counter.
pub const COUNTER_SIZE: i64 = 8;

/// What a failed call was about.
#[derive(Debug, Clone, Copy, PartialEq, Eq, Structural)]
pub struct OsError {
    pub code: i32,
    /// Whether the call failed only because it would have had to wait.
    pub would_block: bool,
}

/// What a read of a signal counter means: how many signals were pending, none
/// if the read would have had to wait, or the error.
pub fn read_signals(returned: i64, error: OsError, value: u64) -> (r: Result<u64, OsError>)
    ensures
        is_read(returned, error, value, r),
{
    if returned < 0 {
        if error.would_block {
            Ok(0)
        } else {
            Err(error)
        }
    } else {
        Ok(value)
    }
}

/// What a write of a signal means.
pub fn signal_sent(returned: i64, error: OsError) -> (r: Result<(), OsError>)
    ensures
        is_sent(returned, error, false, r),
{
    if returned < 0 {
        Err(error)
    } else {
        Ok(())
    }
}

/// What a write of one byte to a pipe means: in a full pipe a signal is pending
/// already.
pub fn pipe_signal_sent(returned: i64, error: OsError) -> (r: Result<(), OsError>)
    ensures
        is_sent(returned, error, true, r),
{
    if returned < 0 && !error.would_block {
        Err(error)
    } else {
        Ok(())
    }
}

/// What a read from a pipe means: each byte is a signal, and there is none if the
/// read would have had to wait.
pub fn pipe_read_signals(returned: i64, error: OsError) -> (r: Result<u64, OsError>)
    ensures
        is_pipe_read(returned, error, r),
{
    if returned >= 0 {
        Ok(returned as u64)
    } else if error.would_block {
        Ok(0)
    } else {
        Err(error)
    }
}

/// How many signals a read of one byte from a pipe took.
pub fn pipe_drained(returned: i64) -> (r: u64)
    ensures
        r == if returned == 1 {
            1u64
        } else {
            0u64
        },
{
    if returned == 1 {
        1
    } else {
        0
    }
}

/// How many signals a read took: what it read, if it read a whole counter, else none.
pub fn drained(returned: i64, value: u64) -> (r: u64)
    ensures
        r == if returned == COUNTER_SIZE {
            value
        } else {
            0
        },
        returned == 8 ==> r == value,
        returned != 8 ==> r == 0,
{
    if returned == COUNTER_SIZE {
        value
    } else {
        0
    }
}

/// Whether a poll found a signal, rather than running into its timeout or failing.
pub fn signal_arrived(returned: i32, revents: i16) -> (r: bool)
    ensures
        r == (returned > 0 && revents & POLL_IN != 0),
        r == (returned > 0 && revents & 1 != 0),
{
    returned > 0 && revents & POLL_IN != 0
}

/// What a read of a counter means for all outcomes of the call.
pub open spec fn is_read(
    returned: i64,
    error: OsError,
    value: u64,
    r: Result<u64, OsError>,
) -> bool {
    r == if returned >= 0 {
        Ok::<u64, OsError>(value)
    } else if error.would_block {
        Ok(0)
    } else {
        Err(error)
    }
}

/// What a read of a pipe means for all outcomes of the call.
pub open spec fn is_pipe_read(returned: i64, error: OsError, r: Result<u64, OsError>) -> bool {
    r == if returned >= 0 {
        Ok::<u64, OsError>(returned as u64)
    } else if error.would_block {
        Ok(0)
    } else {
        Err(error)
    }
}

/// What a write of a signal means for all outcomes of the call. `full_is_fine`
/// tells that a write that would have to wait finds a signal pending.
pub open spec fn is_sent(
    returned: i64,
    error: OsError,
    full_is_fine: bool,
    r: Result<(), OsError>,
) -> bool {
    r == if returned >= 0 || (full_is_fine && error.would_block) {
        Ok::<(), OsError>(())
    } else {
        Err(error)
    }
}

/// Having to wait is never an error for the reader: there is just no signal.
/// Every other failure is handed on, and what was read is what was pending.
pub proof fn law_waiting_reader_finds_no_signal(
    returned: i64,
    error: OsError,
    value: u64,
    counter: Result<u64, OsError>,
    pipe: Result<u64, OsError>,
)
    requires
        is_read(returned, error, value, counter),
        is_pipe_read(returned, error, pipe),
    ensures
        returned >= 0 ==> counter == Ok::<u64, OsError>(value) && (pipe matches Ok(n) && n
            == returned),
        returned < 0 && error.would_block ==> counter == Ok::<u64, OsError>(0) && pipe == Ok::<
            u64,
            OsError,
        >(0),
        returned < 0 && !error.would_block ==> counter == Err::<u64, OsError>(error) && pipe
            == Err::<u64, OsError>(error),
{
}

/// A signal is sent unless the call failed; a pipe that is full holds one
/// already, which a counter cannot say.
pub proof fn law_full_pipe_holds_a_signal(
    returned: i64,
    error: OsError,
    counter: Result<(), OsError>,
    pipe: Result<(), OsError>,
)
    requires
        is_sent(returned, error, false, counter),
        is_sent(returned, error, true, pipe),
    ensures
        returned >= 0 ==> counter is Ok && pipe is Ok,
        returned < 0 ==> counter == Err::<(), OsError>(error),
        returned < 0 && error.would_block ==> pipe is Ok,
        returned < 0 && !error.would_block ==> pipe == Err::<(), OsError>(error),
{
}

} // verus!
