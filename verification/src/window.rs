use vstd::prelude::*;

use crate::reading::{Reading, Summary, Timestamp};

verus! {

/// The raw light scale's top: higher raw value means less light, so the
/// reduction inverts the mean against this ceiling.
pub const LIGHT_CEILING: i64 = 1024;

/// The sum of a sequence of readings' values.
pub open spec fn sum_of(s: Seq<i32>) -> int
    decreases s.len(),
{
    if s.len() == 0 {
        0
    } else {
        sum_of(s.drop_last()) + s.last()
    }
}

/// The maximum of a sequence of readings' values, 0 if the sequence is empty.
pub open spec fn max_of(s: Seq<i32>) -> int
    decreases s.len(),
{
    if s.len() == 0 {
        0
    } else if s.len() == 1 {
        s[0] as int
    } else if s.last() >= max_of(s.drop_last()) {
        s.last() as int
    } else {
        max_of(s.drop_last())
    }
}

/// Division truncating toward zero, as Rust's integer `/` does.
pub open spec fn div_trunc(a: int, b: int) -> int
    recommends
        b > 0,
{
    if a >= 0 {
        a / b
    } else {
        -((-a) / b)
    }
}

/// The light reduction: the inverted mean of the window's raw light values.
pub open spec fn light_reduction(s: Seq<i32>) -> int
    recommends
        s.len() > 0,
{
    LIGHT_CEILING - div_trunc(sum_of(s), s.len() as int)
}

/// The window of readings accumulated since the start of the current minute,
/// with the minute-of-hour marker that identifies its validity period.
pub struct AggregationWindow {
    pub light: Vec<i32>,
    pub sound: Vec<i32>,
    pub motion: Vec<i32>,
    pub minute: u32,
}

impl AggregationWindow {
    /// The summary this window would reduce to at instant `now`, or nothing
    /// when the window saw no light reading (the suppression rule).
    pub open spec fn summary_of(&self, now: Timestamp) -> Option<Summary> {
        if self.light@.len() == 0 {
            None
        } else {
            Some(
                Summary {
                    timestamp: now,
                    light: light_reduction(self.light@) as i64,
                    sound: max_of(self.sound@) as i32,
                    motion: max_of(self.motion@) as i32,
                },
            )
        }
    }

    /// An empty window opened at the given minute.
    pub fn new(minute: u32) -> (r: Self)
        ensures
            r.light@ == Seq::<i32>::empty(),
            r.sound@ == Seq::<i32>::empty(),
            r.motion@ == Seq::<i32>::empty(),
            r.minute == minute,
    {
        AggregationWindow { light: Vec::new(), sound: Vec::new(), motion: Vec::new(), minute }
    }

    /// Appends one reading's value to the sequence of its kind; the other
    /// sequences and the minute marker are untouched.
    pub fn observe(&mut self, r: Reading)
        ensures
            final(self).minute == old(self).minute,
            match r {
                Reading::Light(v) => final(self).light@ == old(self).light@.push(v)
                    && final(self).sound@ == old(self).sound@
                    && final(self).motion@ == old(self).motion@,
                Reading::Sound(v) => final(self).sound@ == old(self).sound@.push(v)
                    && final(self).light@ == old(self).light@
                    && final(self).motion@ == old(self).motion@,
                Reading::Motion(v) => final(self).motion@ == old(self).motion@.push(v)
                    && final(self).light@ == old(self).light@
                    && final(self).sound@ == old(self).sound@,
            },
    {
        match r {
            Reading::Light(v) => self.light.push(v),
            Reading::Sound(v) => self.sound.push(v),
            Reading::Motion(v) => self.motion.push(v),
        }
    }

    /// Closes the current minute: produces the window's summary unless the
    /// light guard suppresses it, then clears all three sequences and moves
    /// the minute marker to `now`'s minute.
    pub fn rollover(&mut self, now: Timestamp) -> (r: Option<Summary>)
        ensures
            r == old(self).summary_of(now),
            final(self).light@ == Seq::<i32>::empty(),
            final(self).sound@ == Seq::<i32>::empty(),
            final(self).motion@ == Seq::<i32>::empty(),
            final(self).minute == now.minute,
    {
        let r = if self.light.len() == 0 {
            None
        } else {
            let light = self.reduce_light();
            let sound = max_value(&self.sound);
            let motion = max_value(&self.motion);
            Some(Summary { timestamp: now, light, sound, motion })
        };
        self.light = Vec::new();
        self.sound = Vec::new();
        self.motion = Vec::new();
        self.minute = now.minute;
        r
    }

    /// The inverted mean of the window's light values.
    fn reduce_light(&self) -> (r: i64)
        requires
            self.light@.len() > 0,
        ensures
            r as int == light_reduction(self.light@),
    {
        let mut sum: i128 = 0;
        let mut i: usize = 0;
        let n = self.light.len();
        while i < n
            invariant
                0 <= i <= n,
                n == self.light@.len(),
                sum == sum_of(self.light@.take(i as int)),
                i * (-0x8000_0000) <= sum <= i * 0x7fff_ffff,
            decreases n - i,
        {
            proof {
                let pre = self.light@.take(i as int);
                let post = self.light@.take(i + 1);
                assert(post.drop_last() =~= pre);
                assert(post.last() == self.light@[i as int]);
            }
            sum = sum + (self.light[i] as i128);
            i = i + 1;
        }
        proof {
            assert(self.light@.take(n as int) =~= self.light@);
        }
        let len128 = n as i128;
        let q: i128 = if sum >= 0 {
            (((sum as u128) / (len128 as u128)) as i128)
        } else {
            let m = ((-sum) as u128) / (len128 as u128);
            -(m as i128)
        };
        proof {
            if sum >= 0 {
                assert(q as int == sum as int / (n as int));
                vstd::arithmetic::div_mod::lemma_fundamental_div_mod(sum as int, n as int);
                assert(q * n <= sum);
                assert(q <= 0x7fff_ffff) by (nonlinear_arith)
                    requires
                        q * n <= sum,
                        sum <= n * 0x7fff_ffff,
                        n > 0,
                        q >= 0,
                ;
            } else {
                let m = (-sum) as int / (n as int);
                assert(q == -m);
                vstd::arithmetic::div_mod::lemma_fundamental_div_mod((-sum) as int, n as int);
                assert(m * n <= -sum);
                assert(m <= 0x8000_0000) by (nonlinear_arith)
                    requires
                        m * n <= -sum,
                        -sum <= n * 0x8000_0000,
                        n > 0,
                        m >= 0,
                ;
            }
            assert(q == div_trunc(sum_of(self.light@), self.light@.len() as int));
        }
        1024i64 - (q as i64)
    }
}

/// The maximum value in a vector, 0 when it is empty.
pub fn max_value(v: &Vec<i32>) -> (r: i32)
    ensures
        r as int == max_of(v@),
{
    if v.len() == 0 {
        return 0;
    }
    let mut cur: i32 = v[0];
    let mut i: usize = 1;
    proof {
        assert(v@.take(1) =~= seq![v@[0]]);
    }
    while i < v.len()
        invariant
            1 <= i <= v@.len(),
            cur as int == max_of(v@.take(i as int)),
        decreases v@.len() - i,
    {
        proof {
            let pre = v@.take(i as int);
            let post = v@.take(i + 1);
            assert(post.drop_last() =~= pre);
            assert(post.last() == v@[i as int]);
        }
        if v[i] > cur {
            cur = v[i];
        }
        i = i + 1;
    }
    proof {
        assert(v@.take(v@.len() as int) =~= v@);
    }
    cur
}

} // verus!
