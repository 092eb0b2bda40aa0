//! Conversion of Windows 64-bit timestamps (100-nanosecond ticks since 1601)
//! to whole seconds of Unix time; the calendar rendering of those seconds is
//! the unverified shell's concern.

use vstd::prelude::*;
use crate::error::{RustructError, RustructErrorView};

verus! {

/// Ticks of one second in a Windows timestamp.
pub const WINDOWS_TICKS_PER_SECOND: u64 = 10000000;

/// The Windows timestamp of the Unix epoch.
pub const WINDOWS_UNIX_EPOCH_TICKS: u64 = 116444736000000000;

/// A Windows 64-bit timestamp: 100-nanosecond ticks since 1601-01-01 UTC.
#[derive(Debug, Clone, Copy, PartialEq, Eq, Structural)]
pub struct WindowsTimestamp(pub u64);

impl WindowsTimestamp {
    /// The seconds since the Unix epoch a tick count stands for.
    pub open spec fn spec_unix_seconds(&self) -> int {
        (self.0 - WINDOWS_UNIX_EPOCH_TICKS) as int / (WINDOWS_TICKS_PER_SECOND as int)
    }

    /// Convert the timestamp to whole seconds since the Unix epoch. A zero
    /// tick count and one before the Unix epoch are rejected.
    pub fn to_unix_seconds(&self) -> (r: Result<i64, RustructError>)
        ensures
            match r {
                Ok(secs) => self.0 != 0 && self.0 >= WINDOWS_UNIX_EPOCH_TICKS && secs
                    == self.spec_unix_seconds(),
                Err(e) => {
                    &&& (self.0 == 0 ==> e@ == RustructErrorView::Unknown(
                        "Can't convert to datetime, time is null"@,
                    ))
                    &&& (self.0 != 0 && self.0 < WINDOWS_UNIX_EPOCH_TICKS ==> e@
                        == RustructErrorView::Unknown(
                        "Can't convert to datetime, time value is too small"@,
                    ))
                },
            },
            (r is Ok) <==> (self.0 != 0 && self.0 >= WINDOWS_UNIX_EPOCH_TICKS),
    {
        if self.0 == 0 {
            return Err(
                RustructError::Unknown("Can't convert to datetime, time is null".to_owned()),
            );
        }
        if self.0 < WINDOWS_UNIX_EPOCH_TICKS {
            return Err(
                RustructError::Unknown(
                    "Can't convert to datetime, time value is too small".to_owned(),
                ),
            );
        }
        let secs = (self.0 - WINDOWS_UNIX_EPOCH_TICKS) / WINDOWS_TICKS_PER_SECOND;
        Ok(secs as i64)
    }
}

} // verus!
