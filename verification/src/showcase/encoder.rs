//! The compact encoding of log entries and deadlock reports, and the
//! compression and URL-safe encoding of the packed log.
use vstd::prelude::*;
use std::io::Write;
use base64::Engine;
use flate2::write::GzEncoder;
use crate::types::DeadlockInfo;

verus! {

#[verifier::external_type_specification]
#[verifier::external_body]
pub struct ExIoError(std::io::Error);

/// Why a log could not be packed.
#[derive(Debug, Clone, PartialEq, Eq)]
pub enum EncodeError {
    /// A log entry names an event that does not exist.
    InvalidEventType(String),
    /// The compressor failed.
    CompressionFailed,
}

/// One entry of the event log, as read back from the log file.
#[derive(Debug, Clone)]
pub struct LogEntry {
    /// Sequence number, for a deterministic order.
    pub sequence: u64,
    /// Thread involved.
    pub thread_id: u64,
    /// Lock involved.
    pub lock_id: u64,
    /// Name of the event.
    pub event: String,
    /// Time of the event in seconds since the Unix epoch, as the bits of a 64-bit float.
    pub timestamp_bits: u64,
    /// Parent or creator thread of a spawn event.
    pub parent_id: Option<u64>,
    /// Thread woken by a condition variable notification.
    pub woken_thread: Option<u64>,
}

/// A compact event: sequence, thread, lock, event code, time stamp bits,
/// parent (0 for none) and woken thread (0 for none).
pub type CompactEvent = (u64, u64, u64, u8, u64, u64, u64);

/// A deadlock report in the compact form.
#[derive(Debug, Clone)]
pub struct DeadlockCompact {
    /// The threads of the cycle.
    pub thread_cycle: Vec<u64>,
    /// The lock each thread of the report waits for.
    pub thread_waiting_for_locks: Vec<(u64, u64)>,
    /// RFC 3339 time of detection.
    pub timestamp: String,
}

/// The code of the event named `name`, if there is such an event.
pub open spec fn event_code(name: Seq<char>) -> Option<u8> {
    if name == "ThreadSpawn"@ { Some(0u8) }
    else if name == "ThreadExit"@ { Some(1u8) }
    else if name == "MutexSpawn"@ { Some(2u8) }
    else if name == "MutexExit"@ { Some(3u8) }
    else if name == "RwSpawn"@ { Some(4u8) }
    else if name == "RwExit"@ { Some(5u8) }
    else if name == "CondvarSpawn"@ { Some(6u8) }
    else if name == "CondvarExit"@ { Some(7u8) }
    else if name == "MutexAttempt"@ { Some(10u8) }
    else if name == "MutexAcquired"@ { Some(11u8) }
    else if name == "MutexReleased"@ { Some(12u8) }
    else if name == "RwReadAttempt"@ { Some(20u8) }
    else if name == "RwReadAcquired"@ { Some(21u8) }
    else if name == "RwReadReleased"@ { Some(22u8) }
    else if name == "RwWriteAttempt"@ { Some(23u8) }
    else if name == "RwWriteAcquired"@ { Some(24u8) }
    else if name == "RwWriteReleased"@ { Some(25u8) }
    else if name == "CondvarWaitBegin"@ { Some(30u8) }
    else if name == "CondvarWaitEnd"@ { Some(31u8) }
    else if name == "CondvarNotifyOne"@ { Some(32u8) }
    else if name == "CondvarNotifyAll"@ { Some(33u8) }
    else { None }
}

/// An optional thread as a number, 0 standing for none.
pub open spec fn or_zero(o: Option<u64>) -> u64 {
    match o {
        Some(v) => v,
        None => 0,
    }
}

/// Whether `s` reads `lit`.
fn reads(s: &String, lit: &str) -> (r: bool)
    ensures
        r == (s@ == lit@),
{
    let l: String = lit.to_owned();
    *s == l
}

/// The code of the event named `name` (see [`event_code`]).
pub fn code_of_event(name: &String) -> (r: Option<u8>)
    ensures
        r == event_code(name@),
{
    if reads(name, "ThreadSpawn") { Some(0u8) }
    else if reads(name, "ThreadExit") { Some(1u8) }
    else if reads(name, "MutexSpawn") { Some(2u8) }
    else if reads(name, "MutexExit") { Some(3u8) }
    else if reads(name, "RwSpawn") { Some(4u8) }
    else if reads(name, "RwExit") { Some(5u8) }
    else if reads(name, "CondvarSpawn") { Some(6u8) }
    else if reads(name, "CondvarExit") { Some(7u8) }
    else if reads(name, "MutexAttempt") { Some(10u8) }
    else if reads(name, "MutexAcquired") { Some(11u8) }
    else if reads(name, "MutexReleased") { Some(12u8) }
    else if reads(name, "RwReadAttempt") { Some(20u8) }
    else if reads(name, "RwReadAcquired") { Some(21u8) }
    else if reads(name, "RwReadReleased") { Some(22u8) }
    else if reads(name, "RwWriteAttempt") { Some(23u8) }
    else if reads(name, "RwWriteAcquired") { Some(24u8) }
    else if reads(name, "RwWriteReleased") { Some(25u8) }
    else if reads(name, "CondvarWaitBegin") { Some(30u8) }
    else if reads(name, "CondvarWaitEnd") { Some(31u8) }
    else if reads(name, "CondvarNotifyOne") { Some(32u8) }
    else if reads(name, "CondvarNotifyAll") { Some(33u8) }
    else { None }
}

/// Converts a log entry to its compact form; an unknown event name is an error.
pub fn parse_log_entry(entry: LogEntry) -> (r: Result<CompactEvent, EncodeError>)
    ensures
        match event_code(entry.event@) {
            Some(code) => r == Ok::<CompactEvent, EncodeError>((entry.sequence, entry.thread_id, entry.lock_id, code,
                entry.timestamp_bits, or_zero(entry.parent_id), or_zero(entry.woken_thread))),
            None => r matches Err(EncodeError::InvalidEventType(name)) && name@ == entry.event@,
        },
{
    match code_of_event(&entry.event) {
        Some(event_code) => {
            let parent_id = match entry.parent_id {
                Some(p) => p,
                None => 0,
            };
            let woken_thread = match entry.woken_thread {
                Some(w) => w,
                None => 0,
            };
            Ok((entry.sequence, entry.thread_id, entry.lock_id, event_code, entry.timestamp_bits, parent_id, woken_thread))
        },
        None => Err(EncodeError::InvalidEventType(entry.event)),
    }
}

/// A deadlock report in the compact form.
pub fn compact_deadlock(info: &DeadlockInfo) -> (r: DeadlockCompact)
    ensures
        r.thread_cycle@ == info.thread_cycle@.map_values(|t: usize| t as u64),
        r.thread_waiting_for_locks@ == info.thread_waiting_for_locks@.map_values(|e: (usize, usize)| (e.0 as u64, e.1 as u64)),
        r.timestamp@ == info.timestamp@,
{
    let mut thread_cycle: Vec<u64> = Vec::new();
    let mut i: usize = 0;
    while i < info.thread_cycle.len()
        invariant
            0 <= i <= info.thread_cycle@.len(),
            thread_cycle@ == info.thread_cycle@.take(i as int).map_values(|t: usize| t as u64),
        decreases info.thread_cycle@.len() - i,
    {
        thread_cycle.push(info.thread_cycle[i] as u64);
        proof {
            assert(info.thread_cycle@.take(i + 1) == info.thread_cycle@.take(i as int).push(info.thread_cycle@[i as int]));
            assert(thread_cycle@ =~= info.thread_cycle@.take(i + 1).map_values(|t: usize| t as u64));
        }
        i = i + 1;
    }
    let mut waits: Vec<(u64, u64)> = Vec::new();
    let mut j: usize = 0;
    while j < info.thread_waiting_for_locks.len()
        invariant
            0 <= j <= info.thread_waiting_for_locks@.len(),
            waits@ == info.thread_waiting_for_locks@.take(j as int).map_values(|e: (usize, usize)| (e.0 as u64, e.1 as u64)),
        decreases info.thread_waiting_for_locks@.len() - j,
    {
        let (t, l) = info.thread_waiting_for_locks[j];
        waits.push((t as u64, l as u64));
        proof {
            assert(info.thread_waiting_for_locks@.take(j + 1)
                == info.thread_waiting_for_locks@.take(j as int).push(info.thread_waiting_for_locks@[j as int]));
            assert(waits@ =~= info.thread_waiting_for_locks@.take(j + 1).map_values(|e: (usize, usize)| (e.0 as u64, e.1 as u64)));
        }
        j = j + 1;
    }
    proof {
        assert(info.thread_cycle@.take(info.thread_cycle@.len() as int) =~= info.thread_cycle@);
        assert(info.thread_waiting_for_locks@.take(info.thread_waiting_for_locks@.len() as int) =~= info.thread_waiting_for_locks@);
    }
    DeadlockCompact { thread_cycle, thread_waiting_for_locks: waits, timestamp: info.timestamp.clone() }
}

/// The gzip stream (best compression, default header) of `data`.
pub uninterp spec fn gzip_best(data: Seq<u8>) -> Seq<u8>;

/// The URL-safe base64 digit of the six-bit value `v`: `A`-`Z`, `a`-`z`,
/// `0`-`9`, then `-` and `_`.
pub open spec fn url_safe_digit(v: int) -> char {
    if v < 26 {
        (65 + v) as char
    } else if v < 52 {
        (97 + (v - 26)) as char
    } else if v < 62 {
        (48 + (v - 52)) as char
    } else if v == 62 {
        '-'
    } else {
        '_'
    }
}

/// The URL-safe base64 encoding of `data`, with padding: each group of three
/// bytes gives four digits of six bits each, most significant first; a last
/// group of two bytes gives three digits and `=`, one of one byte two digits
/// and `==`.
pub open spec fn base64_url_padded(data: Seq<u8>) -> Seq<char>
    decreases data.len(),
{
    if data.len() == 0 {
        Seq::empty()
    } else {
        let b0 = data[0] as int;
        let b1 = if data.len() > 1 { data[1] as int } else { 0 };
        let b2 = if data.len() > 2 { data[2] as int } else { 0 };
        let d0 = url_safe_digit(b0 / 4);
        let d1 = url_safe_digit((b0 % 4) * 16 + b1 / 16);
        let d2 = url_safe_digit((b1 % 16) * 4 + b2 / 64);
        let d3 = url_safe_digit(b2 % 64);
        if data.len() == 1 {
            seq![d0, d1, '=', '=']
        } else if data.len() == 2 {
            seq![d0, d1, d2, '=']
        } else {
            seq![d0, d1, d2, d3] + base64_url_padded(data.subrange(3, data.len() as int))
        }
    }
}

/// Compresses `data` with `flate2::write::GzEncoder` (best compression,
/// default header) into a `Vec`: `GzEncoder::new`, `write_all`, `finish`.
/// Writing into memory does not fail (the deflate stream reports no error for
/// a growing output buffer), so the result is the gzip stream of `data`.
#[verifier::external_body]
fn gzip_into_vec(data: &[u8]) -> (r: Result<Vec<u8>, std::io::Error>)
    ensures
        r is Ok,
        r matches Ok(v) ==> v@ == gzip_best(data@),
{
    let mut encoder = GzEncoder::new(Vec::new(), flate2::Compression::best());
    encoder.write_all(data)?;
    encoder.finish()
}

/// `base64::engine::general_purpose::URL_SAFE.encode`: the URL-safe base64
/// encoding of `data`, with padding.
#[verifier::external_body]
fn base64_url(data: &[u8]) -> (r: String)
    ensures
        r@ == base64_url_padded(data@),
{
    base64::engine::general_purpose::URL_SAFE.encode(data)
}

/// Compresses the packed log `packed` with gzip (best compression) and
/// encodes the result in URL-safe base64 with padding. Compression into
/// memory does not fail, so the result is always `Ok`.
pub fn compress_and_encode(packed: &Vec<u8>) -> (r: Result<String, EncodeError>)
    ensures
        r is Ok,
        r matches Ok(s) ==> s@ == base64_url_padded(gzip_best(packed@)),
{
    match gzip_into_vec(packed.as_slice()) {
        Ok(compressed) => Ok(base64_url(compressed.as_slice())),
        Err(_) => Err(EncodeError::CompressionFailed),
    }
}

} // verus!

verus! {

/// Law: event codes tell the events apart; two names with the same code are
/// the same name.
pub proof fn law_event_codes_distinct(a: Seq<char>, b: Seq<char>)
    requires
        event_code(a) is Some,
        event_code(a) == event_code(b),
    ensures
        a == b,
{
}

} // verus!
