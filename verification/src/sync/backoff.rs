//! Pauses after failed exchanges, and the counters of the synchronisation.

use vstd::prelude::*;

verus! {

/// Seconds to wait after the first, second, third and any later failure in a row.
pub open spec fn retry_delay(failures: int) -> u64 {
    if failures == 0 {
        5
    } else if failures == 1 {
        30
    } else if failures == 2 {
        120
    } else {
        300
    }
}

/// The pauses between tries.
#[derive(Debug, PartialEq, Eq, Structural)]
pub struct Backoff {
    /// Which delay the next failure brings.
    pub next_delay: usize,
    /// The seconds to wait, counted from the failure on.
    pub delay: Option<u64>,
}

/// After a success the next failure brings the first delay again.
pub open spec fn rested() -> Backoff {
    Backoff { next_delay: 0, delay: None }
}

/// After a failure the delay is the next one; the last one stays.
pub open spec fn strained(backoff: Backoff) -> Backoff {
    Backoff {
        next_delay: if backoff.next_delay < 3 {
            (backoff.next_delay + 1) as usize
        } else {
            3
        },
        delay: Some(retry_delay(backoff.next_delay as int)),
    }
}

impl Backoff {
    pub fn new() -> (r: Self)
        ensures
            r == rested(),
    {
        Backoff { next_delay: 0, delay: None }
    }

    pub fn successful_operation(&mut self)
        ensures
            *final(self) == rested(),
    {
        self.next_delay = 0;
        self.delay = None;
    }

    pub fn failed_operation(&mut self)
        ensures
            *final(self) == strained(*old(self)),
    {
        let delay: u64 = if self.next_delay == 0 {
            5
        } else if self.next_delay == 1 {
            30
        } else if self.next_delay == 2 {
            120
        } else {
            300
        };
        self.delay = Some(delay);
        self.next_delay = if self.next_delay < 3 {
            self.next_delay + 1
        } else {
            3
        };
    }

    pub fn deadline(&self) -> (r: Option<u64>)
        ensures
            r == self.delay,
    {
        self.delay
    }

    pub fn deadline_reached(&mut self)
        ensures
            *final(self) == (Backoff { next_delay: old(self).next_delay, delay: None }),
    {
        self.delay = None;
    }
}

/// Failures in a row wait longer and longer, up to a bound, and one success starts
/// over.
pub proof fn lemma_delays_grow_to_bound(backoff: Backoff)
    ensures
        strained(backoff).delay->0 <= strained(strained(backoff)).delay->0,
        strained(backoff).delay->0 <= 300,
        strained(rested()).delay == Some(5u64),
{
}

/// Counters of the synchronisation, as they were at one time.
#[derive(Clone, Copy, Debug, PartialEq, Eq, Structural)]
pub struct SyncInstrumentationSnapshot {
    pub candidate_scans: usize,
    pub batches: usize,
    pub batch_yields: usize,
    /// Points at which progress was published to the health report.
    pub health_writes: usize,
    pub hashed_files: usize,
    pub hashed_bytes: u64,
}

/// Counters of the synchronisation. Each wraps around at its limit. They cannot be
/// copied, so that all who count do so on the same ones.
#[derive(Debug, PartialEq, Eq, Structural)]
pub struct SyncInstrumentation {
    pub candidate_scans: usize,
    pub batches: usize,
    pub batch_yields: usize,
    pub health_writes: usize,
    pub hashed_files: usize,
    pub hashed_bytes: usize,
}

/// `n` more, around the limit of the machine's integers.
pub open spec fn wrapped(count: usize, n: int) -> usize {
    if count + n > usize::MAX {
        (count + n - usize::MAX - 1) as usize
    } else {
        (count + n) as usize
    }
}

/// The counters after a file of that many bytes was hashed.
pub open spec fn file_hashed(counters: SyncInstrumentation, bytes: u64) -> SyncInstrumentation {
    SyncInstrumentation {
        hashed_files: wrapped(counters.hashed_files, 1),
        hashed_bytes: wrapped(
            counters.hashed_bytes,
            if bytes <= usize::MAX {
                bytes as int
            } else {
                usize::MAX as int
            },
        ),
        ..counters
    }
}

impl Default for SyncInstrumentation {
    fn default() -> (r: Self)
        ensures
            r == (SyncInstrumentation {
                candidate_scans: 0,
                batches: 0,
                batch_yields: 0,
                health_writes: 0,
                hashed_files: 0,
                hashed_bytes: 0,
            }),
    {
        SyncInstrumentation {
            candidate_scans: 0,
            batches: 0,
            batch_yields: 0,
            health_writes: 0,
            hashed_files: 0,
            hashed_bytes: 0,
        }
    }
}

impl SyncInstrumentation {
    pub fn snapshot(&self) -> (r: SyncInstrumentationSnapshot)
        ensures
            r == (SyncInstrumentationSnapshot {
                candidate_scans: self.candidate_scans,
                batches: self.batches,
                batch_yields: self.batch_yields,
                health_writes: self.health_writes,
                hashed_files: self.hashed_files,
                hashed_bytes: self.hashed_bytes as u64,
            }),
    {
        SyncInstrumentationSnapshot {
            candidate_scans: self.candidate_scans,
            batches: self.batches,
            batch_yields: self.batch_yields,
            health_writes: self.health_writes,
            hashed_files: self.hashed_files,
            hashed_bytes: self.hashed_bytes as u64,
        }
    }

    pub fn candidate_scan(&mut self)
        ensures
            *final(self) == (SyncInstrumentation {
                candidate_scans: wrapped(old(self).candidate_scans, 1),
                ..*old(self)
            }),
    {
        self.candidate_scans = self.candidate_scans.wrapping_add(1);
    }

    pub fn batch(&mut self)
        ensures
            *final(self) == (SyncInstrumentation {
                batches: wrapped(old(self).batches, 1),
                ..*old(self)
            }),
    {
        self.batches = self.batches.wrapping_add(1);
    }

    pub fn batch_yield(&mut self)
        ensures
            *final(self) == (SyncInstrumentation {
                batch_yields: wrapped(old(self).batch_yields, 1),
                ..*old(self)
            }),
    {
        self.batch_yields = self.batch_yields.wrapping_add(1);
    }

    pub fn health_write(&mut self)
        ensures
            *final(self) == (SyncInstrumentation {
                health_writes: wrapped(old(self).health_writes, 1),
                ..*old(self)
            }),
    {
        self.health_writes = self.health_writes.wrapping_add(1);
    }

    /// One more file of that many bytes was hashed; a number of bytes that the
    /// machine's addresses cannot count is taken as the largest that they can.
    pub fn hashed_file(&mut self, bytes: u64)
        ensures
            *final(self) == file_hashed(*old(self), bytes),
    {
        self.hashed_files = self.hashed_files.wrapping_add(1);
        let count: usize = if bytes <= usize::MAX as u64 {
            bytes as usize
        } else {
            usize::MAX
        };
        self.hashed_bytes = self.hashed_bytes.wrapping_add(count);
    }
}

/// The pauses after so many failures in a row.
pub open spec fn strained_times(failures: nat) -> Backoff
    decreases failures,
{
    if failures == 0 {
        rested()
    } else {
        strained(strained_times((failures - 1) as nat))
    }
}

/// The first failures in a row are followed by pauses of five seconds, half a minute and
/// two minutes, every later one by five minutes. A pause that has passed counts on.
pub proof fn lemma_pauses_in_a_row(failures: nat)
    ensures
        failures == 0 ==> strained_times(failures).delay is None,
        failures == 1 ==> strained_times(failures).delay == Some(5u64),
        failures == 2 ==> strained_times(failures).delay == Some(30u64),
        failures == 3 ==> strained_times(failures).delay == Some(120u64),
        failures >= 4 ==> strained_times(failures).delay == Some(300u64),
        strained_times(failures).next_delay == (if failures < 3 {
            failures
        } else {
            3
        }),
        strained(Backoff { delay: None, ..strained_times(failures) }) == strained_times(
            failures + 1,
        ),
    decreases failures,
{
    if failures > 0 {
        lemma_pauses_in_a_row((failures - 1) as nat);
    }
}

/// Hashed files and their bytes are counted one by one, up to the limit of a counter, and
/// no other counter moves.
pub proof fn lemma_hashed_files_are_counted(counters: SyncInstrumentation, bytes: u64)
    requires
        counters.hashed_files < usize::MAX,
        counters.hashed_bytes + bytes <= usize::MAX,
    ensures
        ({
            let after = file_hashed(counters, bytes);
            &&& after.hashed_files == counters.hashed_files + 1
            &&& after.hashed_bytes == counters.hashed_bytes + bytes
            &&& after.candidate_scans == counters.candidate_scans
            &&& after.batches == counters.batches
            &&& after.batch_yields == counters.batch_yields
            &&& after.health_writes == counters.health_writes
        }),
{
}

/// A snapshot shows every counter as it is.
pub proof fn lemma_snapshot_shows_every_counter(
    counters: SyncInstrumentation,
    r: SyncInstrumentationSnapshot,
)
    requires
        call_ensures(SyncInstrumentation::snapshot, (&counters,), r),
    ensures
        r.candidate_scans == counters.candidate_scans,
        r.batches == counters.batches,
        r.batch_yields == counters.batch_yields,
        r.health_writes == counters.health_writes,
        r.hashed_files == counters.hashed_files,
        r.hashed_bytes == counters.hashed_bytes,
{
}

} // verus!
