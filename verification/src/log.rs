//! Logging through the host.

use crate::allocator::extends;
use crate::asc::{is_string, str_to_asc, string_footprint};
use crate::host::{log_log, HostCall, Import};
use crate::memory::{as_signed32, Memory};
use vstd::prelude::*;

verus! {

/// The severity of a log message.
#[derive(Clone, Copy, Debug, PartialEq, Eq, Structural)]
pub enum Level {
    Critical,
    Error,
    Warning,
    Info,
    Debug,
}

impl Level {
    /// The number the host knows the severity by.
    pub open spec fn spec_code(self) -> i32 {
        match self {
            Level::Critical => 0,
            Level::Error => 1,
            Level::Warning => 2,
            Level::Info => 3,
            Level::Debug => 4,
        }
    }

    /// The number the host knows the severity by.
    pub fn code(self) -> (c: i32)
        ensures
            c == self.spec_code(),
    {
        match self {
            Level::Critical => 0,
            Level::Error => 1,
            Level::Warning => 2,
            Level::Info => 3,
            Level::Debug => 4,
        }
    }
}

/// Writes `msg` into fresh heap and asks the host to log it with the
/// severity `level`.
pub fn log(mem: &mut Memory, level: Level, msg: &str) -> (request: HostCall)
    requires
        old(mem).wf(),
        old(mem).cursor() + string_footprint(msg@) <= old(mem).page_limit() * 65536,
    ensures
        extends(old(mem), final(mem), string_footprint(msg@)),
        is_string(final(mem)@, old(mem).cursor() + 20, msg@),
        request.is(
            Import::LogLog,
            seq![level.spec_code(), as_signed32((old(mem).cursor() + 20) as u32)],
        ),
{
    let msg_ptr = str_to_asc(mem, msg);
    log_log(level.code(), msg_ptr.as_i32())
}

/// Asks the host to log `msg` as critical.
pub fn critical(mem: &mut Memory, msg: &str) -> (request: HostCall)
    requires
        old(mem).wf(),
        old(mem).cursor() + string_footprint(msg@) <= old(mem).page_limit() * 65536,
    ensures
        extends(old(mem), final(mem), string_footprint(msg@)),
        is_string(final(mem)@, old(mem).cursor() + 20, msg@),
        request.is(Import::LogLog, seq![0i32, as_signed32((old(mem).cursor() + 20) as u32)]),
{
    log(mem, Level::Critical, msg)
}

/// Asks the host to log `msg` as an error.
pub fn error(mem: &mut Memory, msg: &str) -> (request: HostCall)
    requires
        old(mem).wf(),
        old(mem).cursor() + string_footprint(msg@) <= old(mem).page_limit() * 65536,
    ensures
        extends(old(mem), final(mem), string_footprint(msg@)),
        is_string(final(mem)@, old(mem).cursor() + 20, msg@),
        request.is(Import::LogLog, seq![1i32, as_signed32((old(mem).cursor() + 20) as u32)]),
{
    log(mem, Level::Error, msg)
}

/// Asks the host to log `msg` as a warning.
pub fn warning(mem: &mut Memory, msg: &str) -> (request: HostCall)
    requires
        old(mem).wf(),
        old(mem).cursor() + string_footprint(msg@) <= old(mem).page_limit() * 65536,
    ensures
        extends(old(mem), final(mem), string_footprint(msg@)),
        is_string(final(mem)@, old(mem).cursor() + 20, msg@),
        request.is(Import::LogLog, seq![2i32, as_signed32((old(mem).cursor() + 20) as u32)]),
{
    log(mem, Level::Warning, msg)
}

/// Asks the host to log `msg` as information.
pub fn info(mem: &mut Memory, msg: &str) -> (request: HostCall)
    requires
        old(mem).wf(),
        old(mem).cursor() + string_footprint(msg@) <= old(mem).page_limit() * 65536,
    ensures
        extends(old(mem), final(mem), string_footprint(msg@)),
        is_string(final(mem)@, old(mem).cursor() + 20, msg@),
        request.is(Import::LogLog, seq![3i32, as_signed32((old(mem).cursor() + 20) as u32)]),
{
    log(mem, Level::Info, msg)
}

/// Asks the host to log `msg` for debugging.
pub fn debug(mem: &mut Memory, msg: &str) -> (request: HostCall)
    requires
        old(mem).wf(),
        old(mem).cursor() + string_footprint(msg@) <= old(mem).page_limit() * 65536,
    ensures
        extends(old(mem), final(mem), string_footprint(msg@)),
        is_string(final(mem)@, old(mem).cursor() + 20, msg@),
        request.is(Import::LogLog, seq![4i32, as_signed32((old(mem).cursor() + 20) as u32)]),
{
    log(mem, Level::Debug, msg)
}

} // verus!
