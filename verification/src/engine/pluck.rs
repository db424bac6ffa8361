use vstd::prelude::*;

verus! {

/// Capacity of a string's delay line, in samples.
pub const MAX_DELAY: usize = 4096;

/// Length of the synthetic body impulse response, in samples.
pub const BODY_LEN: usize = 2400;

/// Length of the fade-out at the end of the body excitation, in samples.
pub const BODY_FADE: usize = 240;

/// The sample that `delay` steps back from the write cursor holds: the one written `delay`
/// pushes ago, for `1 <= delay <= MAX_DELAY`.
pub open spec fn tap_of<T>(samples: Seq<T>, cursor: nat, delay: nat) -> T {
    samples[((cursor + MAX_DELAY - delay) % (MAX_DELAY as int))]
}

/// A fixed-length circular delay line: writes go to the cursor, which then moves on one slot.
pub struct DelayLine<T> {
    line: Vec<T>,
    write: usize,
}

impl<T> DelayLine<T> {
    /// The stored samples, by slot.
    pub closed spec fn samples(&self) -> Seq<T> {
        self.line@
    }

    /// The slot the next write goes to.
    pub closed spec fn cursor(&self) -> nat {
        self.write as nat
    }

    /// Every slot exists and the cursor points at one of them.
    pub open spec fn well_formed(&self) -> bool {
        &&& self.samples().len() == MAX_DELAY
        &&& self.cursor() < MAX_DELAY
    }
}

impl<T: Copy> DelayLine<T> {
    /// A line holding `fill` in every slot, cursor at slot 0.
    pub fn new(fill: T) -> (line: Self)
        ensures
            line.samples() == Seq::new(MAX_DELAY as nat, |slot: int| fill),
            line.cursor() == 0,
            line.well_formed(),
    {
        let mut samples: Vec<T> = Vec::new();
        let mut count: usize = 0;
        while count < MAX_DELAY
            invariant
                count <= MAX_DELAY,
                samples@ == Seq::new(count as nat, |slot: int| fill),
            decreases MAX_DELAY - count,
        {
            samples.push(fill);
            count = count + 1;
        }
        DelayLine { line: samples, write: 0 }
    }

    /// Re-initialises the line in place: every slot back to `fill`, cursor back to slot 0.
    pub fn reset(&mut self, fill: T)
        requires
            old(self).well_formed(),
        ensures
            final(self).samples() == Seq::new(MAX_DELAY as nat, |slot: int| fill),
            final(self).cursor() == 0,
            final(self).well_formed(),
    {
        let mut slot: usize = 0;
        while slot < MAX_DELAY
            invariant
                slot <= MAX_DELAY,
                self.line@.len() == MAX_DELAY,
                forall|i: int| 0 <= i < slot ==> self.line@[i] == fill,
            decreases MAX_DELAY - slot,
        {
            self.line.set(slot, fill);
            slot = slot + 1;
        }
        self.write = 0;
        assert(self.line@ =~= Seq::new(MAX_DELAY as nat, |slot: int| fill));
    }

    /// The slot the next write goes to.
    pub fn write_index(&self) -> (cursor: usize)
        requires
            self.well_formed(),
        ensures
            cursor == self.cursor(),
            cursor < MAX_DELAY,
    {
        self.write
    }

    /// The two neighbouring samples an interpolated read blends: slots `index % MAX_DELAY` and
    /// `(index + 1) % MAX_DELAY`.
    pub fn pair(&self, index: usize) -> (samples: (T, T))
        requires
            self.well_formed(),
        ensures
            samples.0 == self.samples()[(index % MAX_DELAY) as int],
            samples.1 == self.samples()[((index + 1) % (MAX_DELAY as int))],
    {
        proof {
            vstd::arithmetic::div_mod::lemma_add_mod_noop(index as int, 1, MAX_DELAY as int);
            vstd::arithmetic::div_mod::lemma_small_mod(1, MAX_DELAY as nat);
            vstd::arithmetic::div_mod::lemma_mod_bound(index as int, MAX_DELAY as int);
        }
        let slot = index % MAX_DELAY;
        let next = (slot + 1) % MAX_DELAY;
        (self.line[slot], self.line[next])
    }

    /// Writes `sample` at the cursor and moves the cursor on one slot, wrapping at the end.
    pub fn push(&mut self, sample: T)
        requires
            old(self).well_formed(),
        ensures
            final(self).well_formed(),
            final(self).samples() == old(self).samples().update(old(self).cursor() as int, sample),
            final(self).cursor() == (old(self).cursor() + 1) % (MAX_DELAY as nat),
    {
        let slot = self.write;
        self.line.set(slot, sample);
        self.write = (slot + 1) % MAX_DELAY;
    }
}

/// What a write gives back: right after a push, one step back reads the pushed sample, and
/// every longer delay reads what one step shorter read before the push.
pub proof fn lemma_push_then_tap<T>(samples: Seq<T>, cursor: nat, sample: T, delay: nat)
    requires
        samples.len() == MAX_DELAY,
        cursor < MAX_DELAY,
        1 <= delay <= MAX_DELAY,
    ensures
        tap_of(samples.update(cursor as int, sample), (cursor + 1) % (MAX_DELAY as nat), delay)
            == if delay == 1 {
            sample
        } else {
            tap_of(samples, cursor, (delay - 1) as nat)
        },
{
    let n = MAX_DELAY as int;
    let next = (cursor + 1) % (MAX_DELAY as nat);
    let slot = (next + n - delay) % n;
    let before = (cursor + n - (delay - 1)) % n;
    if cursor + 1 < n {
        assert(next == cursor + 1);
    } else {
        assert(next == 0);
    }
    assert(slot == before);
    if delay == 1 {
        assert(before == cursor);
    } else {
        assert(before != cursor);
    }
}

/// How many of the fade steps a body-excitation read at `position` keeps: the full
/// `BODY_FADE` away from the end, the remaining distance to the end inside the final fade,
/// and nothing past the end.
pub open spec fn fade_steps(position: nat) -> nat {
    if position >= BODY_LEN {
        0
    } else if BODY_LEN - position >= BODY_FADE {
        BODY_FADE as nat
    } else {
        (BODY_LEN - position) as nat
    }
}

/// The fade weight, in `BODY_FADE` steps, of the body excitation at sample `position`.
pub fn body_fade_steps(position: usize) -> (steps: usize)
    ensures
        steps == fade_steps(position as nat),
        steps <= BODY_FADE,
        position >= BODY_LEN ==> steps == 0,
        position + BODY_FADE <= BODY_LEN ==> steps == BODY_FADE,
        BODY_LEN - BODY_FADE <= position < BODY_LEN ==> steps == BODY_LEN - position,
{
    if position >= BODY_LEN {
        0
    } else if position + BODY_FADE > BODY_LEN {
        BODY_LEN - position
    } else {
        BODY_FADE
    }
}

/// The final fade is a linear ramp: across the last `BODY_FADE` samples the weight is the
/// distance to the end, so it drops by exactly one step per sample down to one step at the last
/// sample; before the fade the weight is full, after the end it is zero.
pub proof fn lemma_fade_is_linear_ramp(position: nat)
    ensures
        BODY_LEN - BODY_FADE <= position < BODY_LEN ==> fade_steps(position) == BODY_LEN
            - position,
        BODY_LEN - BODY_FADE <= position && position + 1 < BODY_LEN ==> fade_steps(position)
            == fade_steps(position + 1) + 1,
        position == BODY_LEN - 1 ==> fade_steps(position) == 1,
        position + BODY_FADE <= BODY_LEN ==> fade_steps(position) == BODY_FADE,
        position >= BODY_LEN ==> fade_steps(position) == 0,
{
}

/// The body excitation fades out: later positions never weigh more than earlier ones.
pub proof fn lemma_fade_never_rises(earlier: nat, later: nat)
    requires
        earlier <= later,
    ensures
        fade_steps(later) <= fade_steps(earlier),
        fade_steps(earlier) <= BODY_FADE,
{
}

} // verus!
