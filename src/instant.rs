use vstd::prelude::*;

verus! {

/// Nanoseconds in one second.
pub const NANOS_PER_SEC: i64 = 1_000_000_000;

/// Floor of `n / d` and the remainder that goes with it, for any `i64` and a positive `d`.
pub(crate) fn floor_div_rem(n: i64, d: i64) -> (r: (i64, i64))
    requires
        d > 0,
    ensures
        r.0 == (n as int) / (d as int),
        r.1 == (n as int) % (d as int),
        0 <= r.1 < d,
        n == r.0 * d + r.1,
{
    let (q, rem) = if n >= 0 {
        (n / d, n % d)
    } else {
        let p: i64 = -(n + 1);
        (-(p / d) - 1, d - 1 - p % d)
    };
    proof {
        let ni = n as int;
        let di = d as int;
        vstd::arithmetic::div_mod::lemma_fundamental_div_mod(ni, di);
        if n < 0 {
            let pi = -(ni + 1);
            vstd::arithmetic::div_mod::lemma_fundamental_div_mod(pi, di);
            assert(ni / di == -(pi / di) - 1 && ni % di == di - 1 - pi % di) by (nonlinear_arith)
                requires
                    di > 0,
                    pi >= 0,
                    ni == -(pi + 1),
                    pi == di * (pi / di) + pi % di,
                    0 <= pi % di < di,
                    ni == di * (ni / di) + ni % di,
                    0 <= ni % di < di,
            ;
        }
        vstd::arithmetic::mul::lemma_mul_is_commutative(ni / di, di);
    }
    (q, rem)
}

/// Whether a count of nanoseconds since the epoch (or a signed length in nanoseconds)
/// splits into an `i64` count of whole seconds and a remainder of nanoseconds.
pub open spec fn fits_seconds(total: int) -> bool {
    i64::MIN <= total / (NANOS_PER_SEC as int) <= i64::MAX
}

/// An instant on the UTC time line: whole seconds since 1970-01-01T00:00:00Z and the
/// nanoseconds elapsed in that second.
#[derive(Clone, Copy, Debug, PartialEq, Eq, Structural)]
pub struct Instant {
    pub secs: i64,
    pub nanos: u32,
}

/// A signed length of time: whole seconds (rounded towards minus infinity) and the
/// nanoseconds that remain.
#[derive(Clone, Copy, Debug, PartialEq, Eq, Structural)]
pub struct Span {
    pub secs: i64,
    pub nanos: u32,
}

impl View for Instant {
    /// Nanoseconds since the epoch.
    type V = int;

    open spec fn view(&self) -> int {
        self.secs * (NANOS_PER_SEC as int) + self.nanos
    }
}

impl View for Span {
    /// Length in nanoseconds.
    type V = int;

    open spec fn view(&self) -> int {
        self.secs * (NANOS_PER_SEC as int) + self.nanos
    }
}

impl Instant {
    pub open spec fn wf(self) -> bool {
        self.nanos < NANOS_PER_SEC
    }

    /// Two well-formed instants that name the same point of the time line are equal.
    pub proof fn lemma_view_injective(a: Instant, b: Instant)
        requires
            a.wf(),
            b.wf(),
            a@ == b@,
        ensures
            a == b,
    {
        let n = NANOS_PER_SEC as int;
        assert(a.secs == b.secs && a.nanos == b.nanos) by (nonlinear_arith)
            requires
                n == 1_000_000_000,
                0 <= a.nanos < n,
                0 <= b.nanos < n,
                a.secs * n + a.nanos == b.secs * n + b.nanos,
        {
            if a.secs < b.secs {
                assert(a.secs * n + n <= b.secs * n);
            } else if a.secs > b.secs {
                assert(b.secs * n + n <= a.secs * n);
            }
        };
    }

    /// The instant `secs` seconds and `nanos` nanoseconds after the epoch. A count of
    /// nanoseconds from one to two seconds marks a leap second; it is carried into the
    /// next second, which names the same point of the continuous time line.
    pub fn new(secs: i64, nanos: u32) -> (r: Option<Instant>)
        ensures
            r is Some <==> nanos < 2 * NANOS_PER_SEC && (nanos < NANOS_PER_SEC || secs < i64::MAX),
            r matches Some(i) ==> i.wf() && i@ == secs * (NANOS_PER_SEC as int) + nanos,
    {
        if nanos < 1_000_000_000 {
            Some(Instant { secs, nanos })
        } else if nanos < 2_000_000_000 && secs < i64::MAX {
            Some(Instant { secs: secs + 1, nanos: nanos - 1_000_000_000 })
        } else {
            None
        }
    }

    /// The instant `d` later than this one (earlier when `d` is negative), or `None` when its
    /// count of seconds does not fit an `i64`.
    pub fn checked_add(&self, d: &Span) -> (r: Option<Instant>)
        requires
            self.wf(),
            d.wf(),
        ensures
            r is Some <==> fits_seconds(self@ + d@),
            r matches Some(i) ==> i.wf() && i@ == self@ + d@,
    {
        let carry: bool = self.nanos + d.nanos >= 1_000_000_000;
        let nanos: u32 = if carry {
            self.nanos + d.nanos - 1_000_000_000
        } else {
            self.nanos + d.nanos
        };
        let secs: i128 = self.secs as i128 + d.secs as i128 + if carry { 1i128 } else { 0i128 };
        assert(self@ + d@ == secs * (NANOS_PER_SEC as int) + nanos);
        assert((self@ + d@) / (NANOS_PER_SEC as int) == secs) by (nonlinear_arith)
            requires
                self@ + d@ == secs * (NANOS_PER_SEC as int) + nanos,
                0 <= nanos < NANOS_PER_SEC,
        ;
        if secs < i64::MIN as i128 || secs > i64::MAX as i128 {
            None
        } else {
            Some(Instant { secs: secs as i64, nanos })
        }
    }

    /// The instant `d` earlier than this one, or `None` when its count of seconds does not fit
    /// an `i64`.
    pub fn checked_sub(&self, d: &Span) -> (r: Option<Instant>)
        requires
            self.wf(),
            d.wf(),
        ensures
            r is Some <==> fits_seconds(self@ - d@),
            r matches Some(i) ==> i.wf() && i@ == self@ - d@,
    {
        let borrow: bool = self.nanos < d.nanos;
        let nanos: u32 = if borrow {
            self.nanos + 1_000_000_000 - d.nanos
        } else {
            self.nanos - d.nanos
        };
        let secs: i128 = self.secs as i128 - d.secs as i128 - if borrow { 1i128 } else { 0i128 };
        assert(self@ - d@ == secs * (NANOS_PER_SEC as int) + nanos);
        assert((self@ - d@) / (NANOS_PER_SEC as int) == secs) by (nonlinear_arith)
            requires
                self@ - d@ == secs * (NANOS_PER_SEC as int) + nanos,
                0 <= nanos < NANOS_PER_SEC,
        ;
        if secs < i64::MIN as i128 || secs > i64::MAX as i128 {
            None
        } else {
            Some(Instant { secs: secs as i64, nanos })
        }
    }
}

impl Span {
    pub open spec fn wf(self) -> bool {
        self.nanos < NANOS_PER_SEC
    }

    /// The span of `secs` seconds plus `nanos` nanoseconds, or `None` when `nanos` is a
    /// second or more.
    pub fn new(secs: i64, nanos: u32) -> (r: Option<Span>)
        ensures
            r is Some <==> nanos < NANOS_PER_SEC,
            r matches Some(s) ==> s.wf() && s@ == secs * (NANOS_PER_SEC as int) + nanos,
    {
        if nanos < 1_000_000_000 {
            Some(Span { secs, nanos })
        } else {
            None
        }
    }

    /// The span of `ms` milliseconds.
    pub fn from_millis(ms: i64) -> (r: Span)
        ensures
            r.wf(),
            r@ == ms * 1_000_000,
    {
        let (q, rem) = floor_div_rem(ms, 1000);
        Span { secs: q, nanos: (rem * 1_000_000) as u32 }
    }

    /// The span of `n` nanoseconds.
    pub fn from_nanos(n: i64) -> (r: Span)
        ensures
            r.wf(),
            r@ == n,
    {
        let (q, rem) = floor_div_rem(n, NANOS_PER_SEC);
        Span { secs: q, nanos: rem as u32 }
    }

    /// Whether the span is empty.
    pub fn is_zero(&self) -> (r: bool)
        requires
            self.wf(),
        ensures
            r == (self@ == 0),
    {
        self.secs == 0 && self.nanos == 0
    }

    /// Half of the span, rounded towards minus infinity to a whole nanosecond.
    pub fn half(&self) -> (r: Span)
        requires
            self.wf(),
        ensures
            r.wf(),
            r@ == self@ / 2,
    {
        let (q, rem) = floor_div_rem(self.secs, 2);
        let odd: u32 = if rem == 1 { 1_000_000_000 } else { 0 };
        let nanos: u32 = (odd + self.nanos) / 2;
        Span { secs: q, nanos }
    }
}

} // verus!
