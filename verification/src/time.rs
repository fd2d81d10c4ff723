//! Instants with nanosecond precision, modelled as plain integers.

use vstd::prelude::*;

verus! {

/// Nanoseconds in one second.
pub const NANOS_PER_SEC: u32 = 1_000_000_000;

/// A UTC instant with nanosecond precision: whole seconds since the epoch and
/// a sub-second part kept in `0 .. 1_000_000_000`.
#[derive(Debug, Clone, Copy, PartialEq, Eq, Hash, Structural)]
pub struct Time {
    pub sec: i64,
    pub nanosec: u32,
}

impl Time {
    /// The instant as a mathematical count of nanoseconds since the epoch.
    pub open spec fn as_nanos(self) -> int {
        self.sec * 1_000_000_000 + self.nanosec
    }

    /// Well-formed: the sub-second part stays below one second.
    pub open spec fn wf(self) -> bool {
        self.nanosec < 1_000_000_000
    }

    /// Builds an instant; rejects a sub-second part of a second or more.
    pub fn new(sec: i64, nanosec: u32) -> (r: Option<Time>)
        ensures
            nanosec < 1_000_000_000 ==> r == Some(Time { sec, nanosec }),
            nanosec >= 1_000_000_000 ==> r is None,
            r matches Some(t) ==> t.wf(),
    {
        if nanosec < NANOS_PER_SEC {
            Some(Time { sec, nanosec })
        } else {
            None
        }
    }

    /// Whether `self` lies strictly before `other`.
    pub fn lt(&self, other: &Time) -> (r: bool)
        requires
            self.wf(),
            other.wf(),
        ensures
            r == (self.as_nanos() < other.as_nanos()),
    {
        proof {
            lemma_nanos_order(*self, *other);
        }
        self.sec < other.sec || (self.sec == other.sec && self.nanosec < other.nanosec)
    }

    /// Whether `self` lies at or before `other`.
    pub fn le(&self, other: &Time) -> (r: bool)
        requires
            self.wf(),
            other.wf(),
        ensures
            r == (self.as_nanos() <= other.as_nanos()),
    {
        proof {
            lemma_nanos_order(*self, *other);
        }
        self.sec < other.sec || (self.sec == other.sec && self.nanosec <= other.nanosec)
    }

    /// Whether the two instants coincide.
    pub fn eq_time(&self, other: &Time) -> (r: bool)
        requires
            self.wf(),
            other.wf(),
        ensures
            r == (self.as_nanos() == other.as_nanos()),
            r == (*self == *other),
    {
        proof {
            lemma_nanos_order(*self, *other);
        }
        self.sec == other.sec && self.nanosec == other.nanosec
    }

    /// The signed distance `self - other` in nanoseconds.
    pub fn diff_nanos(&self, other: &Time) -> (r: i128)
        requires
            self.wf(),
            other.wf(),
        ensures
            r == self.as_nanos() - other.as_nanos(),
    {
        let a: i128 = (self.sec as i128) * 1_000_000_000 + (self.nanosec as i128);
        let b: i128 = (other.sec as i128) * 1_000_000_000 + (other.nanosec as i128);
        a - b
    }

    /// The instant a signed number of nanoseconds away from the epoch, when it
    /// fits the representation.
    pub fn from_nanos(n: i128) -> (r: Option<Time>)
        ensures
            r matches Some(t) ==> t.wf() && t.as_nanos() == n,
            r is None ==> (n < i64::MIN * 1_000_000_000 || n > i64::MAX * 1_000_000_000 + 999_999_999),
    {
        let q: i128 = n / 1_000_000_000;
        let m: i128 = n % 1_000_000_000;
        let (sec, rem): (i128, i128) = if m < 0 {
            (q - 1, m + 1_000_000_000)
        } else {
            (q, m)
        };
        if sec < i64::MIN as i128 || sec > i64::MAX as i128 {
            proof {
                lemma_from_nanos_range(n as int, sec as int, rem as int);
            }
            None
        } else {
            Some(Time { sec: sec as i64, nanosec: rem as u32 })
        }
    }
}

/// Instants ordered by their nanosecond counts coincide with the lexicographic
/// order on `(sec, nanosec)` while both are well-formed.
proof fn lemma_nanos_order(a: Time, b: Time)
    requires
        a.wf(),
        b.wf(),
    ensures
        (a.as_nanos() < b.as_nanos()) == (a.sec < b.sec || (a.sec == b.sec && a.nanosec
            < b.nanosec)),
        (a.as_nanos() == b.as_nanos()) == (a.sec == b.sec && a.nanosec == b.nanosec),
{
    if a.sec < b.sec {
        assert(a.as_nanos() < b.as_nanos()) by (nonlinear_arith)
            requires
                a.sec < b.sec,
                a.nanosec < 1_000_000_000,
                b.nanosec < 1_000_000_000,
                a.as_nanos() == a.sec * 1_000_000_000 + a.nanosec,
                b.as_nanos() == b.sec * 1_000_000_000 + b.nanosec,
        ;
    }
    if b.sec < a.sec {
        assert(b.as_nanos() < a.as_nanos()) by (nonlinear_arith)
            requires
                b.sec < a.sec,
                a.nanosec < 1_000_000_000,
                b.nanosec < 1_000_000_000,
                a.as_nanos() == a.sec * 1_000_000_000 + a.nanosec,
                b.as_nanos() == b.sec * 1_000_000_000 + b.nanosec,
        ;
    }
}

proof fn lemma_from_nanos_range(n: int, sec: int, rem: int)
    requires
        0 <= rem < 1_000_000_000,
        n == sec * 1_000_000_000 + rem,
        sec < i64::MIN || sec > i64::MAX,
    ensures
        n < i64::MIN * 1_000_000_000 || n > i64::MAX * 1_000_000_000 + 999_999_999,
{
    if sec < i64::MIN {
        assert(n < i64::MIN * 1_000_000_000) by (nonlinear_arith)
            requires
                sec < i64::MIN,
                0 <= rem < 1_000_000_000,
                n == sec * 1_000_000_000 + rem,
        ;
    } else {
        assert(n > i64::MAX * 1_000_000_000 + 999_999_999) by (nonlinear_arith)
            requires
                sec > i64::MAX,
                0 <= rem < 1_000_000_000,
                n == sec * 1_000_000_000 + rem,
        ;
    }
}

} // verus!
