//! Interpolation buffer: per remote entity, buffers recent timestamped
//! position samples and produces a smoothly interpolated position for the
//! current render time, tolerating sparse or jitter-prone arrivals.

use vstd::prelude::*;

use crate::protocol::{Vec3, INTERP_DELAY_MS};

verus! {

/// One buffered position sample: the instant (in milliseconds) at which the
/// sample becomes the playback target, and the position itself.
#[derive(Clone, Copy, Debug, PartialEq, Eq, Structural)]
pub struct Sample {
    pub deadline: u64,
    pub position: Vec3,
}

/// Linear interpolation of one coordinate: the point a fraction `num / den`
/// of the way from `a` to `b`. Meaningful for `0 <= num <= den`, `den > 0`;
/// the result then lies between `a` and `b`.
pub open spec fn lerp_coord(a: int, b: int, num: int, den: int) -> int {
    if b >= a {
        a + (b - a) * num / den
    } else {
        a - (a - b) * num / den
    }
}

/// Interpolated position between two samples at instant `now`, with the
/// interpolation fraction clamped to [0, 1]: before the first deadline the
/// first position holds, past the second deadline the second holds. Two
/// samples whose deadlines do not increase yield the newer position.
pub open spec fn lerp_sample(first: Sample, second: Sample, now: u64) -> Vec3 {
    if second.deadline <= first.deadline {
        second.position
    } else {
        let den = second.deadline - first.deadline;
        let num = if now <= first.deadline {
            0
        } else if now - first.deadline >= den {
            den as int
        } else {
            now - first.deadline
        };
        Vec3 {
            x: lerp_coord(first.position.x as int, second.position.x as int, num, den) as i32,
            y: lerp_coord(first.position.y as int, second.position.y as int, num, den) as i32,
            z: lerp_coord(first.position.z as int, second.position.z as int, num, den) as i32,
        }
    }
}

/// The queue after discarding stale leading samples: while the second-oldest
/// sample's deadline has already passed, the oldest no longer contributes and
/// is dropped.
pub open spec fn drop_stale(q: Seq<Sample>, now: u64) -> Seq<Sample>
    decreases q.len(),
{
    if q.len() >= 2 && q[1].deadline < now {
        drop_stale(q.drop_first(), now)
    } else {
        q
    }
}

/// What sampling the buffer at instant `now` yields: nothing until two
/// still-relevant samples are queued, otherwise the interpolation between the
/// two oldest of them.
pub open spec fn sample_at(q: Seq<Sample>, now: u64) -> Option<Vec3> {
    let d = drop_stale(q, now);
    if d.len() < 2 {
        None
    } else {
        Some(lerp_sample(d[0], d[1], now))
    }
}

/// Per-remote-entity delay line of timestamped position samples.
pub struct Positions {
    samples: Vec<Sample>,
}

impl View for Positions {
    type V = Seq<Sample>;

    closed spec fn view(&self) -> Seq<Sample> {
        self.samples@
    }
}

impl Positions {
    pub fn new() -> (r: Positions)
        ensures
            r@ == Seq::<Sample>::empty(),
    {
        Positions { samples: Vec::new() }
    }

    pub fn len(&self) -> (r: usize)
        ensures
            r == self@.len(),
    {
        self.samples.len()
    }

    /// Append a sample whose playback deadline is `now` plus the two-tick
    /// interpolation delay.
    pub fn push(&mut self, now: u64, position: Vec3)
        requires
            now <= u64::MAX - INTERP_DELAY_MS,
        ensures
            final(self)@ == old(self)@.push(
                Sample { deadline: (now + INTERP_DELAY_MS) as u64, position },
            ),
    {
        self.samples.push(Sample { deadline: now + INTERP_DELAY_MS, position });
    }

    /// Sample the buffer at instant `now`. Stale leading samples are
    /// discarded; an empty or single-sample queue yields no value, since
    /// interpolation needs two endpoints.
    pub fn get(&mut self, now: u64) -> (r: Option<Vec3>)
        ensures
            final(self)@ == drop_stale(old(self)@, now),
            r == sample_at(old(self)@, now),
            old(self)@.len() == 0 ==> r is None,
            old(self)@.len() == 1 ==> r is None,
            r is Some ==> old(self)@.len() >= 2,
    {
        while self.samples.len() >= 2 && self.samples[1].deadline < now
            invariant
                drop_stale(self.samples@, now) == drop_stale(old(self)@, now),
            decreases self.samples@.len(),
        {
            proof {
                assert(self.samples@.drop_first() =~= self.samples@.subrange(
                    1,
                    self.samples@.len() as int,
                ));
            }
            self.samples.remove(0);
        }
        proof {
            assert(drop_stale(self.samples@, now) == self.samples@);
            lemma_drop_stale_len(old(self)@, now);
        }
        if self.samples.len() < 2 {
            None
        } else {
            let first = self.samples[0];
            let second = self.samples[1];
            Some(lerp(first, second, now))
        }
    }
}

/// Discarding stale samples never lengthens the queue.
proof fn lemma_drop_stale_len(q: Seq<Sample>, now: u64)
    ensures
        drop_stale(q, now).len() <= q.len(),
    decreases q.len(),
{
    if q.len() >= 2 && q[1].deadline < now {
        lemma_drop_stale_len(q.drop_first(), now);
    }
}

/// One coordinate of the clamped interpolation, computed in 128-bit
/// intermediate arithmetic so that no step can overflow.
fn lerp_coord_exec(a: i32, b: i32, num: u64, den: u64) -> (r: i32)
    requires
        den > 0,
        num <= den,
    ensures
        r == lerp_coord(a as int, b as int, num as int, den as int),
{
    if b >= a {
        let diff: u128 = ((b as i64) - (a as i64)) as u128;
        proof {
            lemma_product_fits(diff as int, num as int);
        }
        let q: u128 = diff * (num as u128) / (den as u128);
        proof {
            lemma_scaled_fraction_bounded(diff as int, num as int, den as int);
        }
        ((a as i64) + (q as i64)) as i32
    } else {
        let diff: u128 = ((a as i64) - (b as i64)) as u128;
        proof {
            lemma_product_fits(diff as int, num as int);
        }
        let q: u128 = diff * (num as u128) / (den as u128);
        proof {
            lemma_scaled_fraction_bounded(diff as int, num as int, den as int);
        }
        ((a as i64) - (q as i64)) as i32
    }
}

/// The product of a coordinate difference and a millisecond count stays far
/// inside 128 bits.
proof fn lemma_product_fits(diff: int, num: int)
    requires
        0 <= diff <= 0x1_0000_0000,
        0 <= num <= 0xffff_ffff_ffff_ffff,
    ensures
        diff * num <= 0x1_0000_0000 * 0xffff_ffff_ffff_ffff,
{
    vstd::arithmetic::mul::lemma_mul_upper_bound(diff, 0x1_0000_0000, num, 0xffff_ffff_ffff_ffff);
}

/// For `0 <= num <= den`, scaling a non-negative difference by `num / den`
/// keeps it between zero and the difference itself.
proof fn lemma_scaled_fraction_bounded(diff: int, num: int, den: int)
    requires
        0 <= diff,
        0 <= num <= den,
        0 < den,
    ensures
        0 <= diff * num / den <= diff,
{
    assert(0 <= diff * num / den <= diff) by (nonlinear_arith)
        requires
            0 <= diff,
            0 <= num <= den,
            0 < den,
    ;
}

/// Whether `v` lies between `a` and `b`, whichever way round they sit.
pub open spec fn coord_between(a: int, v: int, b: int) -> bool {
    (a <= v <= b) || (b <= v <= a)
}

/// Whether a position lies componentwise between two others.
pub open spec fn vec_between(p: Vec3, v: Vec3, q: Vec3) -> bool {
    &&& coord_between(p.x as int, v.x as int, q.x as int)
    &&& coord_between(p.y as int, v.y as int, q.y as int)
    &&& coord_between(p.z as int, v.z as int, q.z as int)
}

/// Law: interpolating two samples with increasing deadlines yields a position
/// on the segment between them, at every query instant — the clamped
/// interpolation fraction never overshoots either endpoint.
pub proof fn lemma_lerp_on_segment(first: Sample, second: Sample, now: u64)
    requires
        first.deadline < second.deadline,
    ensures
        vec_between(first.position, lerp_sample(first, second, now), second.position),
{
    let den = second.deadline - first.deadline;
    let num: int = if now <= first.deadline {
        0
    } else if now - first.deadline >= den {
        den as int
    } else {
        now - first.deadline
    };
    lemma_coord_on_segment(first.position.x as int, second.position.x as int, num, den);
    lemma_coord_on_segment(first.position.y as int, second.position.y as int, num, den);
    lemma_coord_on_segment(first.position.z as int, second.position.z as int, num, den);
}

/// One coordinate of a clamped interpolation stays between its endpoints.
proof fn lemma_coord_on_segment(a: int, b: int, num: int, den: int)
    requires
        0 < den,
        0 <= num <= den,
    ensures
        coord_between(a, lerp_coord(a, b, num, den), b),
{
    if b >= a {
        lemma_scaled_fraction_bounded(b - a, num, den);
    } else {
        lemma_scaled_fraction_bounded(a - b, num, den);
    }
}

/// Discarding stale samples from a strictly-deadline-ordered queue, queried
/// strictly after sample `i`'s deadline and no later than sample `i + 1`'s,
/// drops exactly the first `i` samples.
proof fn lemma_drop_stale_to(q: Seq<Sample>, now: u64, i: int)
    requires
        forall|a: int, b: int| 0 <= a < b < q.len() ==> q[a].deadline < q[b].deadline,
        0 <= i,
        i + 1 < q.len(),
        q[i].deadline < now,
        now <= q[i + 1].deadline,
    ensures
        drop_stale(q, now) == q.skip(i),
    decreases i,
{
    if i == 0 {
        assert(!(q[1].deadline < now));
        assert(q.skip(0) =~= q);
    } else {
        assert(q[1].deadline <= q[i as int].deadline);
        assert(q[1].deadline < now);
        let rest = q.drop_first();
        assert(forall|j: int| 0 <= j < rest.len() ==> rest[j] == q[j + 1]);
        assert(forall|a: int, b: int|
            0 <= a < b < rest.len() ==> rest[a].deadline < rest[b].deadline);
        lemma_drop_stale_to(rest, now, i - 1);
        assert(rest.skip(i - 1) =~= q.skip(i));
    }
}

/// Law: with strictly increasing deadlines, sampling between two consecutive
/// deadlines interpolates exactly those two samples, and the value lies on
/// the segment between their positions.
pub proof fn lemma_sample_between_deadlines(q: Seq<Sample>, now: u64, i: int)
    requires
        forall|a: int, b: int| 0 <= a < b < q.len() ==> q[a].deadline < q[b].deadline,
        0 <= i,
        i + 1 < q.len(),
        q[i].deadline < now,
        now <= q[i + 1].deadline,
    ensures
        sample_at(q, now) == Some(lerp_sample(q[i], q[i + 1], now)),
        vec_between(q[i].position, lerp_sample(q[i], q[i + 1], now), q[i + 1].position),
{
    lemma_drop_stale_to(q, now, i);
    let d = drop_stale(q, now);
    assert(d[0] == q[i]);
    assert(d[1] == q[i + 1]);
    lemma_lerp_on_segment(q[i], q[i + 1], now);
}

/// Clamped linear interpolation between two samples at instant `now`.
fn lerp(first: Sample, second: Sample, now: u64) -> (r: Vec3)
    ensures
        r == lerp_sample(first, second, now),
{
    if second.deadline <= first.deadline {
        second.position
    } else {
        let den: u64 = second.deadline - first.deadline;
        let num: u64 = if now <= first.deadline {
            0
        } else if now - first.deadline >= den {
            den
        } else {
            now - first.deadline
        };
        Vec3 {
            x: lerp_coord_exec(first.position.x, second.position.x, num, den),
            y: lerp_coord_exec(first.position.y, second.position.y, num, den),
            z: lerp_coord_exec(first.position.z, second.position.z, num, den),
        }
    }
}

} // verus!
