//! Timestamp messages sent by the latency client.
use std::time::{SystemTime, SystemTimeError, UNIX_EPOCH};
use vstd::prelude::*;

verus! {

/// A message of the latency protocol: a timestamp in milliseconds, or the end of the stream.
#[derive(Debug, Clone, Copy, PartialEq, Eq, Structural)]
pub enum Message {
    Micro(u64),
    Finish,
}

/// The clock stood before the Unix epoch, so no timestamp could be taken.
#[derive(Debug, Clone, Copy, PartialEq, Eq, Structural)]
pub enum ClockError {
    BeforeEpoch,
}

#[verifier::external_type_specification]
#[verifier::external_body]
pub struct ExSystemTime(SystemTime);

#[verifier::external_type_specification]
#[verifier::external_body]
pub struct ExSystemTimeError(SystemTimeError);

/// Calls `SystemTime::now`. Nothing is stated of the result: it is the machine's clock.
#[verifier::external_body]
fn system_time_now() -> SystemTime {
    SystemTime::now()
}

/// Calls `SystemTime::duration_since(UNIX_EPOCH)`. Nothing is stated of the result: it depends on
/// an opaque clock reading, and the error comes when that reading lies before the epoch.
#[verifier::external_body]
fn since_unix_epoch(t: SystemTime) -> Result<std::time::Duration, SystemTimeError> {
    t.duration_since(UNIX_EPOCH)
}

/// Calls `Duration::as_millis`. Nothing is stated of the result: the duration is opaque here.
#[verifier::external_body]
fn duration_millis(d: &std::time::Duration) -> u128 {
    d.as_millis()
}

/// The message that carries a millisecond reading: the reading truncated to 64 bits.
pub fn message_from_millis(ms: u128) -> (m: Message)
    ensures
        m == Message::Micro(ms as u64),
{
    Message::Micro(ms as u64)
}

/// Reads the clock and wraps the milliseconds since the Unix epoch in a `Micro` message.
/// Whatever the clock reads, a success is a `Micro` message.
pub fn gen_msg() -> (r: Result<Message, ClockError>)
    ensures
        r matches Ok(m) ==> m is Micro,
{
    let now = system_time_now();
    match since_unix_epoch(now) {
        Ok(d) => {
            let ms = duration_millis(&d);
            Ok(message_from_millis(ms))
        },
        Err(_) => Err(ClockError::BeforeEpoch),
    }
}

} // verus!
