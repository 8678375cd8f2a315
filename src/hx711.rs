use vstd::prelude::*;

use crate::arith::{raw_in_range, sign_extend_24, sign_extend_24_spec, trunc_div};
use crate::scale_state::sum_of;

verus! {

/// A failed pin operation.
#[derive(Debug, Clone, Copy, PartialEq, Eq, Structural)]
pub struct PinError;

/// A digital input.
pub trait InputPin {
    fn is_high(&mut self) -> Result<bool, PinError>;

    fn is_low(&mut self) -> Result<bool, PinError>;
}

/// A digital output.
pub trait OutputPin {
    fn set_high(&mut self) -> Result<(), PinError>;

    fn set_low(&mut self) -> Result<(), PinError>;
}

/// Channel and gain of the next conversion, selected by the number of clock
/// pulses that end a reading.
#[derive(Debug, Clone, Copy, PartialEq, Eq, Structural, Default)]
pub enum Gain {
    /// Channel A, gain 128 (25 pulses).
    #[default]
    ChannelA128,
    /// Channel B, gain 32 (26 pulses).
    ChannelB32,
    /// Channel A, gain 64 (27 pulses).
    ChannelA64,
}

impl Gain {
    pub open spec fn spec_pulses(self) -> u8 {
        match self {
            Gain::ChannelA128 => 25,
            Gain::ChannelB32 => 26,
            Gain::ChannelA64 => 27,
        }
    }

    /// Clock pulses of a whole reading that selects this gain next.
    pub fn pulses(self) -> (r: u8)
        ensures
            r == self.spec_pulses(),
    {
        match self {
            Gain::ChannelA128 => 25,
            Gain::ChannelB32 => 26,
            Gain::ChannelA64 => 27,
        }
    }
}

/// Errors of the bit-banged ADC driver.
#[derive(Debug, Clone, Copy, PartialEq, Eq, Structural)]
pub enum Hx711Error {
    Timeout,
    InvalidParameter,
}

/// Relies on core::hint::spin_loop, a processor hint with no effect on state.
#[verifier::external_body]
fn spin_hint() {
    core::hint::spin_loop()
}

/// Number of data bits in one reading.
pub const DATA_BITS: u32 = 24;

/// One query of the data line: which level was asked for, and the answer
/// (`None` on a pin error).
pub struct PinRead {
    pub high_query: bool,
    pub reply: Option<bool>,
}

/// The bit a data-line query read: 1 exactly when the line read high.
pub open spec fn bit_of(p: PinRead) -> int {
    if p.reply == Some(true) {
        1
    } else {
        0
    }
}

/// The bits of a sequence of queries, most significant first.
pub open spec fn bits_value(s: Seq<PinRead>) -> int
    decreases s.len(),
{
    if s.len() == 0 {
        0
    } else {
        2 * bits_value(s.drop_last()) + bit_of(s.last())
    }
}

/// Queries of the ready (low) level of the data line, none of which saw it.
pub open spec fn waits_unanswered(s: Seq<PinRead>) -> bool {
    forall|i: int| 0 <= i < s.len() ==> !(#[trigger] s[i]).high_query && s[i].reply != Some(true)
}

/// A successful wait: unanswered ready queries, then one that saw the line low.
pub open spec fn wait_done(s: Seq<PinRead>) -> bool {
    &&& s.len() >= 1
    &&& waits_unanswered(s.drop_last())
    &&& !s.last().high_query
    &&& s.last().reply == Some(true)
}

/// Clock levels of `n` pulses: high, low, high, low, ...
pub open spec fn pulses_of(levels: Seq<bool>, n: int) -> bool {
    &&& levels.len() == 2 * n
    &&& forall|i: int| 0 <= i < levels.len() ==> #[trigger] levels[i] == (i % 2 == 0)
}

/// Whether the last 24 queries of `a` asked for the high level.
pub open spec fn high_tail(a: Seq<PinRead>) -> bool {
    &&& a.len() >= 24
    &&& forall|i: int| a.len() - 24 <= i < a.len() ==> (#[trigger] a[i]).high_query
}

/// The readings in a history of data-line queries: each run of 24 data-bit
/// queries that follows a ready query, sign-extended, oldest first.
pub open spec fn readings_in(a: Seq<PinRead>) -> Seq<i32>
    decreases a.len(),
{
    if a.len() < 25 {
        seq![]
    } else if high_tail(a) && !a[a.len() - 25].high_query {
        readings_in(a.subrange(0, a.len() - 24)).push(
            sign_extend_24_spec(bits_value(a.subrange(a.len() - 24, a.len() as int))) as i32,
        )
    } else {
        readings_in(a.drop_last())
    }
}

proof fn lemma_ready_query_adds_no_reading(a: Seq<PinRead>, p: PinRead)
    requires
        !p.high_query,
    ensures
        readings_in(a.push(p)) == readings_in(a),
{
    let b = a.push(p);
    assert(b.drop_last() =~= a);
    if b.len() >= 25 {
        assert(b[b.len() - 1] == p);
        assert(!high_tail(b));
    }
}

proof fn lemma_waits_add_no_reading(a: Seq<PinRead>, w: Seq<PinRead>)
    requires
        forall|i: int| 0 <= i < w.len() ==> !(#[trigger] w[i]).high_query,
    ensures
        readings_in(a + w) == readings_in(a),
    decreases w.len(),
{
    if w.len() > 0 {
        let v = w.drop_last();
        assert forall|i: int| 0 <= i < v.len() implies !(#[trigger] v[i]).high_query by {
            assert(v[i] == w[i]);
        }
        lemma_waits_add_no_reading(a, v);
        assert(a + w =~= (a + v).push(w.last()));
        lemma_ready_query_adds_no_reading(a + v, w.last());
    } else {
        assert(a + w =~= a);
    }
}

/// What one reading did on the data line `a` (queries in order) and the clock
/// `c` (levels set in order), for gain `g` and result `r`: a successful wait,
/// then 24 data-bit queries whose bits, sign-extended, are the result, with
/// one clock pulse per bit and the extra pulses of the gain; or, on timeout,
/// only unanswered waits and no clock activity.
pub open spec fn reading_done(a: Seq<PinRead>, c: Seq<bool>, g: Gain, r: Result<i32, Hx711Error>) -> bool {
    &&& r is Ok ==> ({
        let n = a.len() - 24;
        &&& n >= 1
        &&& wait_done(a.subrange(0, n))
        &&& forall|i: int| n <= i < a.len() ==> (#[trigger] a[i]).high_query
        &&& r->Ok_0 == sign_extend_24_spec(bits_value(a.subrange(n, a.len() as int)))
        &&& pulses_of(c, g.spec_pulses() as int)
    })
    &&& r is Err ==> r == Err::<i32, Hx711Error>(Hx711Error::Timeout) && waits_unanswered(a) && c.len() == 0
}

/// Driver for a load-cell ADC read over a data line and a clock line.
pub struct Hx711<DOUT, SCK> {
    dout: DOUT,
    sck: SCK,
    gain: Gain,
    reads: Ghost<Seq<PinRead>>,
    levels: Ghost<Seq<bool>>,
}

impl<DOUT: InputPin, SCK: OutputPin> Hx711<DOUT, SCK> {
    /// The gain selected for the next reading.
    pub closed spec fn gain_spec(&self) -> Gain {
        self.gain
    }

    /// Every query of the data line so far, oldest first.
    pub closed spec fn reads_spec(&self) -> Seq<PinRead> {
        self.reads@
    }

    /// Every level set on the clock line so far, oldest first.
    pub closed spec fn levels_spec(&self) -> Seq<bool> {
        self.levels@
    }

    pub fn new(dout: DOUT, sck: SCK) -> (r: Self)
        ensures
            r.gain_spec() == Gain::ChannelA128,
            r.reads_spec() == Seq::<PinRead>::empty(),
            r.levels_spec() == Seq::<bool>::empty(),
    {
        Hx711 { dout, sck, gain: Gain::ChannelA128, reads: Ghost(Seq::empty()), levels: Ghost(Seq::empty()) }
    }

    fn data_is_low(&mut self) -> (r: Result<bool, PinError>)
        ensures
            final(self).reads_spec() == old(self).reads_spec().push(
                PinRead { high_query: false, reply: if r is Ok { Some(r->Ok_0) } else { None } },
            ),
            final(self).levels_spec() == old(self).levels_spec(),
            final(self).gain_spec() == old(self).gain_spec(),
    {
        let r = self.dout.is_low();
        self.reads = Ghost(self.reads@.push(PinRead { high_query: false, reply: if r is Ok { Some(r->Ok_0) } else { None } }));
        r
    }

    fn data_is_high(&mut self) -> (r: Result<bool, PinError>)
        ensures
            final(self).reads_spec() == old(self).reads_spec().push(
                PinRead { high_query: true, reply: if r is Ok { Some(r->Ok_0) } else { None } },
            ),
            final(self).levels_spec() == old(self).levels_spec(),
            final(self).gain_spec() == old(self).gain_spec(),
    {
        let r = self.dout.is_high();
        self.reads = Ghost(self.reads@.push(PinRead { high_query: true, reply: if r is Ok { Some(r->Ok_0) } else { None } }));
        r
    }

    fn clock(&mut self, high: bool)
        ensures
            final(self).levels_spec() == old(self).levels_spec().push(high),
            final(self).reads_spec() == old(self).reads_spec(),
            final(self).gain_spec() == old(self).gain_spec(),
    {
        if high {
            let _ = self.sck.set_high();
        } else {
            let _ = self.sck.set_low();
        }
        self.levels = Ghost(self.levels@.push(high));
    }

    /// Busy-waits for about a microsecond.
    fn delay_us() {
        let mut i: u32 = 0;
        while i < 50
            invariant
                i <= 50,
            decreases 50 - i,
        {
            spin_hint();
            i = i + 1;
        }
    }

    /// Selects the gain for the next reading.
    pub fn set_gain(&mut self, gain: Gain)
        ensures
            final(self).gain_spec() == gain,
            final(self).reads_spec() == old(self).reads_spec(),
            final(self).levels_spec() == old(self).levels_spec(),
    {
        self.gain = gain;
    }

    /// Whether a conversion is ready: one query of the data line for the low
    /// level; a pin error reads as not ready.
    pub fn is_ready(&mut self) -> (r: bool)
        ensures
            final(self).gain_spec() == old(self).gain_spec(),
            final(self).levels_spec() == old(self).levels_spec(),
            final(self).reads_spec() == old(self).reads_spec().push(final(self).reads_spec().last()),
            !final(self).reads_spec().last().high_query,
            r == (final(self).reads_spec().last().reply == Some(true)),
    {
        match self.data_is_low() {
            Ok(low) => low,
            Err(_) => false,
        }
    }

    /// Waits for a conversion, polling about every 100 µs (ten polls per
    /// millisecond) for at most about `timeout_ms` milliseconds.
    pub fn wait_ready(&mut self, timeout_ms: u32) -> (r: Result<(), Hx711Error>)
        ensures
            final(self).gain_spec() == old(self).gain_spec(),
            final(self).levels_spec() == old(self).levels_spec(),
            old(self).reads_spec().len() <= final(self).reads_spec().len(),
            final(self).reads_spec().subrange(0, old(self).reads_spec().len() as int)
                == old(self).reads_spec(),
            r is Ok ==> wait_done(
                final(self).reads_spec().subrange(
                    old(self).reads_spec().len() as int,
                    final(self).reads_spec().len() as int,
                ),
            ),
            r is Err ==> r == Err::<(), Hx711Error>(Hx711Error::Timeout) && waits_unanswered(
                final(self).reads_spec().subrange(
                    old(self).reads_spec().len() as int,
                    final(self).reads_spec().len() as int,
                ),
            ),
    {
        let ghost r0 = self.reads_spec();
        let polls: u64 = (timeout_ms as u64) * 10;
        let mut done: u64 = 0;
        loop
            invariant_except_break
                waits_unanswered(self.reads_spec().subrange(r0.len() as int, self.reads_spec().len() as int)),
            invariant
                done <= polls,
                self.gain_spec() == old(self).gain_spec(),
                self.levels_spec() == old(self).levels_spec(),
                r0 == old(self).reads_spec(),
                r0.len() <= self.reads_spec().len(),
                self.reads_spec().subrange(0, r0.len() as int) == r0,
            ensures
                r0.len() <= self.reads_spec().len(),
                self.reads_spec().subrange(0, r0.len() as int) == r0,
                wait_done(self.reads_spec().subrange(r0.len() as int, self.reads_spec().len() as int)),
            decreases polls - done,
        {
            let ghost before = self.reads_spec();
            let ready = self.is_ready();
            proof {
                let after = self.reads_spec();
                assert(after.subrange(0, r0.len() as int) =~= before.subrange(0, r0.len() as int));
                assert(after.subrange(r0.len() as int, after.len() as int) =~= before.subrange(
                    r0.len() as int,
                    before.len() as int,
                ).push(after.last()));
                assert(after.subrange(r0.len() as int, after.len() as int).drop_last() =~= before.subrange(
                    r0.len() as int,
                    before.len() as int,
                ));
            }
            if ready {
                break ;
            }
            if done == polls {
                return Err(Hx711Error::Timeout);
            }
            done = done + 1;
            let mut k: u32 = 0;
            while k < 100
                invariant
                    k <= 100,
                decreases 100 - k,
            {
                Self::delay_us();
                k = k + 1;
            }
        }
        Ok(())
    }

    /// One clock pulse.
    fn pulse(&mut self)
        ensures
            final(self).gain_spec() == old(self).gain_spec(),
            final(self).reads_spec() == old(self).reads_spec(),
            final(self).levels_spec() == old(self).levels_spec().push(true).push(false),
    {
        self.clock(true);
        Self::delay_us();
        self.clock(false);
        Self::delay_us();
    }

    /// Reads one 24-bit two's-complement sample, then sends the pulses that
    /// select the configured gain for the next one.
    pub fn read(&mut self) -> (r: Result<i32, Hx711Error>)
        ensures
            final(self).gain_spec() == old(self).gain_spec(),
            old(self).reads_spec().len() <= final(self).reads_spec().len(),
            final(self).reads_spec().subrange(0, old(self).reads_spec().len() as int)
                == old(self).reads_spec(),
            old(self).levels_spec().len() <= final(self).levels_spec().len(),
            final(self).levels_spec().subrange(0, old(self).levels_spec().len() as int)
                == old(self).levels_spec(),
            reading_done(
                final(self).reads_spec().subrange(
                    old(self).reads_spec().len() as int,
                    final(self).reads_spec().len() as int,
                ),
                final(self).levels_spec().subrange(
                    old(self).levels_spec().len() as int,
                    final(self).levels_spec().len() as int,
                ),
                old(self).gain_spec(),
                r,
            ),
            r is Ok ==> raw_in_range(r->Ok_0 as int),
    {
        let ghost r0 = self.reads_spec();
        let ghost c0 = self.levels_spec();
        let w = self.wait_ready(1000);
        if w.is_err() {
            proof {
                assert(self.levels_spec().subrange(c0.len() as int, c0.len() as int) =~= Seq::<bool>::empty());
                assert(self.levels_spec().subrange(0, c0.len() as int) =~= c0);
            }
            return Err(Hx711Error::Timeout);
        }
        let ghost rw = self.reads_spec();
        let mut value: u32 = 0;
        let mut bit: u32 = 0;
        assert((1u64 << 0u32) == 1) by (bit_vector);
        proof {
            assert(rw.subrange(rw.len() as int, rw.len() as int) =~= Seq::<PinRead>::empty());
            assert(self.levels_spec().subrange(c0.len() as int, c0.len() as int) =~= Seq::<bool>::empty());
        }
        while bit < DATA_BITS
            invariant
                bit <= DATA_BITS,
                value < (1u64 << bit),
                self.gain_spec() == old(self).gain_spec(),
                rw.len() + bit == self.reads_spec().len(),
                self.reads_spec().subrange(0, rw.len() as int) == rw,
                forall|i: int| rw.len() <= i < self.reads_spec().len() ==> (#[trigger] self.reads_spec()[i]).high_query,
                value == bits_value(self.reads_spec().subrange(rw.len() as int, self.reads_spec().len() as int)),
                c0.len() + 2 * bit == self.levels_spec().len(),
                self.levels_spec().subrange(0, c0.len() as int) == c0,
                pulses_of(self.levels_spec().subrange(c0.len() as int, self.levels_spec().len() as int), bit as int),
            decreases DATA_BITS - bit,
        {
            let ghost ra = self.reads_spec();
            let ghost ca = self.levels_spec();
            self.clock(true);
            Self::delay_us();
            let high = match self.data_is_high() {
                Ok(h) => h,
                Err(_) => false,
            };
            proof {
                assert((1u64 << bit) * 2 == (1u64 << ((bit + 1) as u64))) by (bit_vector)
                    requires bit < 24;
                assert((1u64 << ((bit + 1) as u64)) <= 0x100_0000) by (bit_vector)
                    requires bit < 24;
            }
            value = if high { value * 2 + 1 } else { value * 2 };
            self.clock(false);
            Self::delay_us();
            proof {
                let rb = self.reads_spec();
                let cb = self.levels_spec();
                assert(rb.subrange(0, rw.len() as int) =~= ra.subrange(0, rw.len() as int));
                let ds = rb.subrange(rw.len() as int, rb.len() as int);
                assert(ds.drop_last() =~= ra.subrange(rw.len() as int, ra.len() as int));
                assert(bit_of(ds.last()) == if high { 1int } else { 0int });
                assert(cb.subrange(0, c0.len() as int) =~= ca.subrange(0, c0.len() as int));
                let ls = cb.subrange(c0.len() as int, cb.len() as int);
                let la = ca.subrange(c0.len() as int, ca.len() as int);
                assert(ls =~= la.push(true).push(false));
                assert forall|i: int| 0 <= i < ls.len() implies #[trigger] ls[i] == (i % 2 == 0) by {
                    if i < la.len() {
                        assert(ls[i] == la[i]);
                    }
                }
            }
            bit = bit + 1;
        }
        let ghost rd = self.reads_spec();
        let extra = self.gain.pulses() - 24;
        let mut p: u8 = 0;
        while p < extra
            invariant
                p <= extra,
                extra == old(self).gain_spec().spec_pulses() - 24,
                self.gain_spec() == old(self).gain_spec(),
                self.reads_spec() == rd,
                c0.len() + 2 * (24 + p) == self.levels_spec().len(),
                self.levels_spec().subrange(0, c0.len() as int) == c0,
                pulses_of(self.levels_spec().subrange(c0.len() as int, self.levels_spec().len() as int), 24 + p),
            decreases extra - p,
        {
            let ghost ca = self.levels_spec();
            self.pulse();
            proof {
                let cb = self.levels_spec();
                assert(cb.subrange(0, c0.len() as int) =~= ca.subrange(0, c0.len() as int));
                let ls = cb.subrange(c0.len() as int, cb.len() as int);
                let la = ca.subrange(c0.len() as int, ca.len() as int);
                assert(ls =~= la.push(true).push(false));
                assert forall|i: int| 0 <= i < ls.len() implies #[trigger] ls[i] == (i % 2 == 0) by {
                    if i < la.len() {
                        assert(ls[i] == la[i]);
                    }
                }
            }
            p = p + 1;
        }
        proof {
            let a = rd.subrange(r0.len() as int, rd.len() as int);
            let n = a.len() - 24;
            assert(rd.subrange(0, rw.len() as int) =~= rw);
            assert(rd.subrange(0, r0.len() as int) =~= r0);
            assert(a.subrange(0, n) =~= rw.subrange(r0.len() as int, rw.len() as int));
            assert(a.subrange(n, a.len() as int) =~= rd.subrange(rw.len() as int, rd.len() as int));
            assert forall|i: int| n <= i < a.len() implies (#[trigger] a[i]).high_query by {
                assert(a[i] == rd[r0.len() + i]);
            }
            assert((1u64 << 24u32) == 0x100_0000) by (bit_vector);
            assert(value < 0x100_0000);
            assert(value % 0x100_0000 == value);
        }
        Ok(sign_extend_24(value))
    }

    /// Mean of `samples` readings, rounded toward zero.
    pub fn read_average(&mut self, samples: usize) -> (r: Result<i32, Hx711Error>)
        ensures
            final(self).gain_spec() == old(self).gain_spec(),
            samples == 0 <==> r == Err::<i32, Hx711Error>(Hx711Error::InvalidParameter),
            samples == 0 ==> final(self).reads_spec() == old(self).reads_spec(),
            r is Ok ==> raw_in_range(r->Ok_0 as int),
            r is Ok ==> ({
                let vals = readings_in(
                    final(self).reads_spec().subrange(
                        old(self).reads_spec().len() as int,
                        final(self).reads_spec().len() as int,
                    ),
                );
                vals.len() == samples && r->Ok_0 == trunc_div(sum_of(vals), samples as int)
            }),
            r is Err && samples > 0 ==> r == Err::<i32, Hx711Error>(Hx711Error::Timeout),
    {
        if samples == 0 {
            return Err(Hx711Error::InvalidParameter);
        }
        let ghost r0 = self.reads_spec();
        let mut sum: i128 = 0;
        let mut n: usize = 0;
        proof {
            assert(self.reads_spec().subrange(r0.len() as int, r0.len() as int) =~= Seq::<PinRead>::empty());
            assert(self.reads_spec().subrange(0, r0.len() as int) =~= r0);
        }
        while n < samples
            invariant
                n <= samples <= usize::MAX,
                -0x80_0000 * n <= sum <= 0x7F_FFFF * n,
                self.gain_spec() == old(self).gain_spec(),
                r0 == old(self).reads_spec(),
                r0.len() <= self.reads_spec().len(),
                self.reads_spec().subrange(0, r0.len() as int) == r0,
                readings_in(self.reads_spec().subrange(r0.len() as int, self.reads_spec().len() as int)).len() == n,
                sum == sum_of(readings_in(self.reads_spec().subrange(r0.len() as int, self.reads_spec().len() as int))),
            decreases samples - n,
        {
            let ghost ra = self.reads_spec();
            let v = self.read()?;
            proof {
                let rb = self.reads_spec();
                let before = ra.subrange(r0.len() as int, ra.len() as int);
                let seg = rb.subrange(ra.len() as int, rb.len() as int);
                let k = seg.len() - 24;
                let w = seg.subrange(0, k);
                let bits = seg.subrange(k, seg.len() as int);
                assert(rb.subrange(0, r0.len() as int) =~= ra.subrange(0, r0.len() as int));
                let all = rb.subrange(r0.len() as int, rb.len() as int);
                assert(all =~= (before + w) + bits);
                assert forall|i: int| 0 <= i < w.len() implies !(#[trigger] w[i]).high_query by {
                    if i < w.len() - 1 {
                        assert(w[i] == w.drop_last()[i]);
                    }
                }
                lemma_waits_add_no_reading(before, w);
                let bw = before + w;
                assert(all.subrange(0, all.len() - 24) =~= bw);
                assert(all.subrange(all.len() - 24, all.len() as int) =~= bits);
                assert(all[all.len() - 25] == w.last());
                assert forall|i: int| all.len() - 24 <= i < all.len() implies (#[trigger] all[i]).high_query by {
                    assert(all[i] == seg[i - before.len()]);
                }
                assert(high_tail(all));
                assert(readings_in(all) == readings_in(bw).push(v));
                assert(readings_in(all).drop_last() =~= readings_in(before));
            }
            sum = sum + v as i128;
            n = n + 1;
        }
        let total = samples as i128;
        let mean = if sum >= 0 {
            sum / total
        } else {
            -((-sum) / total)
        };
        proof {
            let k = samples as int;
            assert(-0x80_0000 <= trunc_div(sum as int, k) <= 0x7F_FFFF) by (nonlinear_arith)
                requires
                    k > 0,
                    -0x80_0000 * k <= sum <= 0x7F_FFFF * k,
            ;
        }
        Ok(mean as i32)
    }

    /// Powers the chip down (clock held high).
    pub fn power_down(&mut self)
        ensures
            final(self).gain_spec() == old(self).gain_spec(),
            final(self).reads_spec() == old(self).reads_spec(),
            final(self).levels_spec() == old(self).levels_spec().push(true),
    {
        self.clock(true);
    }

    /// Wakes the chip up (clock low).
    pub fn power_up(&mut self)
        ensures
            final(self).gain_spec() == old(self).gain_spec(),
            final(self).reads_spec() == old(self).reads_spec(),
            final(self).levels_spec() == old(self).levels_spec().push(false),
    {
        self.clock(false);
    }
}

} // verus!
