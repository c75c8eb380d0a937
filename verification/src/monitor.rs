use vstd::prelude::*;
use vstd::string::*;

verus! {

/// Why a monitor could not start.
#[derive(Debug, PartialEq, Eq)]
pub enum MonitorError {
    InvalidDelay,
}

impl MonitorError {
    /// The message shown to the user.
    pub fn message(&self) -> (res: String)
        ensures
            res@ == "Invalid delay"@,
    {
        String::from_str("Invalid delay")
    }
}

/// The pause between two requests of a monitor, in seconds: the delay
/// given, which must not be negative.
pub fn monitor_delay(delay_seconds: i32) -> (res: Result<u64, MonitorError>)
    ensures
        delay_seconds >= 0 ==> res == Ok::<u64, MonitorError>(delay_seconds as u64),
        delay_seconds < 0 ==> res == Err::<u64, MonitorError>(MonitorError::InvalidDelay),
{
    if delay_seconds < 0 {
        Err(MonitorError::InvalidDelay)
    } else {
        Ok(delay_seconds as u64)
    }
}

} // verus!
