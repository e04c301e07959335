//! Hybrid logical clock: physical nanoseconds paired with a logical counter,
//! giving a total order on events that respects wall-clock time whenever the
//! wall clock advances.

use vstd::prelude::*;

verus! {

/// A hybrid logical timestamp: physical time in nanoseconds since the Unix
/// epoch, plus a logical counter that breaks ties within one nanosecond.
#[derive(Clone, Copy, Debug, PartialEq, Eq, Structural)]
pub struct HLCTimestamp {
    pub physical: u64,
    pub logical: u64,
}

/// Strict order on timestamps: physical time first, logical counter second.
pub open spec fn ts_lt(a: HLCTimestamp, b: HLCTimestamp) -> bool {
    a.physical < b.physical || (a.physical == b.physical && a.logical < b.logical)
}

/// A hybrid logical clock. Its state is the last timestamp it handed out.
#[derive(Debug)]
pub struct HybridLogicalClock {
    last_physical: u64,
    logical_counter: u64,
}

impl HybridLogicalClock {
    /// The last timestamp this clock handed out (all zero before any call).
    pub closed spec fn state(&self) -> HLCTimestamp {
        HLCTimestamp { physical: self.last_physical, logical: self.logical_counter }
    }

    pub fn new() -> (clock: Self)
        ensures
            clock.state() == (HLCTimestamp { physical: 0u64, logical: 0u64 }),
    {
        Self { last_physical: 0, logical_counter: 0 }
    }

    /// Relies on std::time::SystemTime::now: nanoseconds since the Unix
    /// epoch, or 0 if the system clock reads earlier than the epoch.
    #[verifier::external_body]
    pub(crate) fn get_physical_time() -> u64 {
        std::time::SystemTime::now()
            .duration_since(std::time::UNIX_EPOCH)
            .unwrap_or_default()
            .as_nanos() as u64
    }

    /// Issue a fresh timestamp, strictly greater than every earlier one.
    /// If physical time moved past the stored state the logical counter
    /// resets; otherwise the counter advances under the stored physical time.
    pub fn now(&mut self) -> (ts: HLCTimestamp)
        requires
            old(self).state().logical < u64::MAX,
        ensures
            ts == final(self).state(),
            ts_lt(old(self).state(), ts),
            ts.physical >= old(self).state().physical,
            ts.logical <= old(self).state().logical + 1,
    {
        let physical_now = Self::get_physical_time();
        if physical_now > self.last_physical {
            self.last_physical = physical_now;
            self.logical_counter = 0;
            HLCTimestamp { physical: physical_now, logical: 0 }
        } else {
            let logical = self.logical_counter + 1;
            self.logical_counter = logical;
            HLCTimestamp { physical: self.last_physical, logical }
        }
    }

    /// Fold a remote timestamp into the clock. The result is strictly
    /// greater than both the clock's previous state and the remote stamp.
    pub fn update(&mut self, remote_ts: HLCTimestamp) -> (ts: HLCTimestamp)
        requires
            old(self).state().logical < u64::MAX,
            remote_ts.logical < u64::MAX,
        ensures
            ts == final(self).state(),
            ts_lt(old(self).state(), ts),
            ts_lt(remote_ts, ts),
            ts.physical >= old(self).state().physical,
            ts.physical >= remote_ts.physical,
            ts.logical <= (if old(self).state().logical > remote_ts.logical {
                old(self).state().logical
            } else {
                remote_ts.logical
            }) + 1,
    {
        let physical_now = Self::get_physical_time();
        let max_physical = if physical_now > remote_ts.physical {
            physical_now
        } else {
            remote_ts.physical
        };

        if max_physical > self.last_physical {
            self.last_physical = max_physical;
            let logical = if max_physical == remote_ts.physical {
                remote_ts.logical + 1
            } else {
                0
            };
            self.logical_counter = logical;
            HLCTimestamp { physical: max_physical, logical }
        } else {
            let logical = if self.last_physical == remote_ts.physical {
                let current_logical = self.logical_counter;
                let base = if current_logical > remote_ts.logical {
                    current_logical
                } else {
                    remote_ts.logical
                };
                let new_logical = base + 1;
                self.logical_counter = new_logical;
                new_logical
            } else {
                let new_logical = self.logical_counter + 1;
                self.logical_counter = new_logical;
                new_logical
            };
            HLCTimestamp { physical: self.last_physical, logical }
        }
    }
}

/// The little-endian bytes of a 64-bit value, least significant first.
pub open spec fn le_bytes_of_u64(x: u64) -> Seq<u8> {
    seq![
        (x & 0xff) as u8,
        ((x >> 8) & 0xff) as u8,
        ((x >> 16) & 0xff) as u8,
        ((x >> 24) & 0xff) as u8,
        ((x >> 32) & 0xff) as u8,
        ((x >> 40) & 0xff) as u8,
        ((x >> 48) & 0xff) as u8,
        ((x >> 56) & 0xff) as u8,
    ]
}

/// The 64-bit value read from eight little-endian bytes.
pub open spec fn u64_of_le_bytes(b: Seq<u8>) -> u64
    recommends
        b.len() == 8,
{
    (b[0] as u64) | ((b[1] as u64) << 8) | ((b[2] as u64) << 16) | ((b[3] as u64) << 24) | ((
    b[4] as u64) << 32) | ((b[5] as u64) << 40) | ((b[6] as u64) << 48) | ((b[7] as u64) << 56)
}

/// Reading back the little-endian bytes of a value yields the value.
pub proof fn lemma_u64_le_roundtrip(x: u64)
    ensures
        u64_of_le_bytes(le_bytes_of_u64(x)) == x,
{
    let b = le_bytes_of_u64(x);
    assert(b[0] == (x & 0xff) as u8);
    assert(b[1] == ((x >> 8) & 0xff) as u8);
    assert(b[2] == ((x >> 16) & 0xff) as u8);
    assert(b[3] == ((x >> 24) & 0xff) as u8);
    assert(b[4] == ((x >> 32) & 0xff) as u8);
    assert(b[5] == ((x >> 40) & 0xff) as u8);
    assert(b[6] == ((x >> 48) & 0xff) as u8);
    assert(b[7] == ((x >> 56) & 0xff) as u8);
    assert((((x & 0xff) as u8) as u64) | ((((x >> 8) & 0xff) as u8) as u64) << 8 | ((((x >> 16)
        & 0xff) as u8) as u64) << 16 | ((((x >> 24) & 0xff) as u8) as u64) << 24 | ((((x >> 32)
        & 0xff) as u8) as u64) << 32 | ((((x >> 40) & 0xff) as u8) as u64) << 40 | ((((x >> 48)
        & 0xff) as u8) as u64) << 48 | ((((x >> 56) & 0xff) as u8) as u64) << 56 == x)
        by (bit_vector);
}

impl HLCTimestamp {
    /// Order two timestamps: physical time first, logical counter second.
    pub fn compare(&self, other: &HLCTimestamp) -> (r: core::cmp::Ordering)
        ensures
            r == core::cmp::Ordering::Less <==> ts_lt(*self, *other),
            r == core::cmp::Ordering::Greater <==> ts_lt(*other, *self),
            r == core::cmp::Ordering::Equal <==> *self == *other,
    {
        if self.physical < other.physical {
            core::cmp::Ordering::Less
        } else if self.physical > other.physical {
            core::cmp::Ordering::Greater
        } else if self.logical < other.logical {
            core::cmp::Ordering::Less
        } else if self.logical > other.logical {
            core::cmp::Ordering::Greater
        } else {
            core::cmp::Ordering::Equal
        }
    }

    pub fn is_less_than(&self, other: &HLCTimestamp) -> (r: bool)
        ensures
            r == ts_lt(*self, *other),
    {
        matches!(self.compare(other), core::cmp::Ordering::Less)
    }

    pub fn is_greater_than(&self, other: &HLCTimestamp) -> (r: bool)
        ensures
            r == ts_lt(*other, *self),
    {
        matches!(self.compare(other), core::cmp::Ordering::Greater)
    }

    /// Serialize as sixteen bytes: physical little-endian, then logical.
    pub fn to_bytes(&self) -> (bytes: [u8; 16])
        ensures
            bytes@ == le_bytes_of_u64(self.physical) + le_bytes_of_u64(self.logical),
    {
        let p = self.physical;
        let l = self.logical;
        let bytes: [u8; 16] = [
            (p & 0xff) as u8,
            ((p >> 8) & 0xff) as u8,
            ((p >> 16) & 0xff) as u8,
            ((p >> 24) & 0xff) as u8,
            ((p >> 32) & 0xff) as u8,
            ((p >> 40) & 0xff) as u8,
            ((p >> 48) & 0xff) as u8,
            ((p >> 56) & 0xff) as u8,
            (l & 0xff) as u8,
            ((l >> 8) & 0xff) as u8,
            ((l >> 16) & 0xff) as u8,
            ((l >> 24) & 0xff) as u8,
            ((l >> 32) & 0xff) as u8,
            ((l >> 40) & 0xff) as u8,
            ((l >> 48) & 0xff) as u8,
            ((l >> 56) & 0xff) as u8,
        ];
        proof {
            assert(bytes@ =~= le_bytes_of_u64(p) + le_bytes_of_u64(l));
        }
        bytes
    }

    /// Deserialize from sixteen bytes: physical little-endian, then logical.
    pub fn from_bytes(bytes: &[u8; 16]) -> (ts: Self)
        ensures
            ts.physical == u64_of_le_bytes(bytes@.subrange(0, 8)),
            ts.logical == u64_of_le_bytes(bytes@.subrange(8, 16)),
    {
        let physical = (bytes[0] as u64) | ((bytes[1] as u64) << 8) | ((bytes[2] as u64) << 16) | ((
        bytes[3] as u64) << 24) | ((bytes[4] as u64) << 32) | ((bytes[5] as u64) << 40) | ((
        bytes[6] as u64) << 48) | ((bytes[7] as u64) << 56);
        let logical = (bytes[8] as u64) | ((bytes[9] as u64) << 8) | ((bytes[10] as u64) << 16) | ((
        bytes[11] as u64) << 24) | ((bytes[12] as u64) << 32) | ((bytes[13] as u64) << 40) | ((
        bytes[14] as u64) << 48) | ((bytes[15] as u64) << 56);
        Self { physical, logical }
    }
}

/// Serializing a timestamp and reading it back yields the same timestamp.
pub proof fn lemma_timestamp_bytes_roundtrip(ts: HLCTimestamp, bytes: Seq<u8>)
    requires
        bytes == le_bytes_of_u64(ts.physical) + le_bytes_of_u64(ts.logical),
    ensures
        u64_of_le_bytes(bytes.subrange(0, 8)) == ts.physical,
        u64_of_le_bytes(bytes.subrange(8, 16)) == ts.logical,
{
    assert(bytes.subrange(0, 8) =~= le_bytes_of_u64(ts.physical));
    assert(bytes.subrange(8, 16) =~= le_bytes_of_u64(ts.logical));
    lemma_u64_le_roundtrip(ts.physical);
    lemma_u64_le_roundtrip(ts.logical);
}

} // verus!
