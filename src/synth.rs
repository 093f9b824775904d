//! The crossfading synthesizer run by the audio callback: two chunk slots,
//! one active and one trailing, summed at a fixed lag.
use vstd::prelude::*;
use crate::channel::ChunkReceiver;
use crate::chunk::{all_half_range, in_half_range, Chunk};
use vstd::arithmetic::div_mod::{
    lemma_fundamental_div_mod, lemma_fundamental_div_mod_converse, lemma_mod_add_multiples_vanish,
};

verus! {

/// `k` lies in frame `f` when frames hold `ch` samples each.
proof fn lemma_frame_of(k: int, ch: int, f: int)
    requires
        0 < ch,
        0 <= f,
        f * ch <= k < f * ch + ch,
    ensures
        k / ch == f,
{
    lemma_fundamental_div_mod_converse(k, ch, f, k - f * ch);
}

/// `frames` frames of `ch` samples, the last possibly short, cover `n` samples.
proof fn lemma_frame_count(n: int, ch: int, frames: int)
    requires
        0 < ch,
        0 <= frames,
        frames == 0 ==> n == 0,
        frames > 0 ==> (frames - 1) * ch < n <= frames * ch,
    ensures
        frame_count(n as nat, ch as nat) == frames,
{
    if frames == 0 {
        lemma_fundamental_div_mod_converse(n + ch - 1, ch, 0, n + ch - 1);
    } else {
        assert((frames - 1) * ch == frames * ch - ch) by (nonlinear_arith);
        lemma_fundamental_div_mod_converse(n + ch - 1, ch, frames, n + ch - 1 - frames * ch);
    }
}

/// A position less than two laps reduced modulo `n`.
proof fn lemma_wrap(x: int, n: int)
    requires
        0 < n,
        0 <= x < 2 * n,
    ensures
        x % n == if x < n { x } else { x - n },
{
    if x < n {
        lemma_fundamental_div_mod_converse(x, n, 0, x);
    } else {
        lemma_fundamental_div_mod_converse(x, n, 1, x - n);
    }
}

/// The state of a synthesizer as plain values.
pub struct SynthView {
    /// The two chunk slots.
    pub slots: Seq<Seq<i16>>,
    /// Index of the slot being played.
    pub active: nat,
    /// Position in the active chunk; a boundary is due when it reaches `len`.
    pub cursor: nat,
    /// Whether the trailing slot holds the chunk played before the active one.
    pub in_transition: bool,
    /// Chunk length.
    pub len: nat,
    /// Lag of the trailing chunk, reduced modulo `len`.
    pub trail: nat,
}

/// A chunk that a step may take in: one of the right length, in the
/// pre-halved range.
pub open spec fn chunk_fits(c: Seq<i16>, len: nat) -> bool {
    c.len() == len && all_half_range(c)
}

/// The contents of an optional chunk.
pub open spec fn incoming_view<const N: usize>(incoming: Option<Chunk<N>>) -> Option<Seq<i16>> {
    match incoming {
        Some(c) => Some(c@),
        None => None,
    }
}

impl SynthView {
    /// Two slots of `len` samples each in the pre-halved range, the cursor
    /// within one cycle, the lag within one chunk.
    pub open spec fn wf(self) -> bool {
        &&& self.len > 0
        &&& self.slots.len() == 2
        &&& chunk_fits(self.slots[0], self.len)
        &&& chunk_fits(self.slots[1], self.len)
        &&& self.active < 2
        &&& self.cursor <= self.len
        &&& self.trail < self.len
    }

    /// The state a synthesizer starts in: both slots silent, a boundary due.
    pub open spec fn initial(len: nat, trail: nat) -> SynthView {
        SynthView {
            slots: seq![Seq::new(len, |i: int| 0i16), Seq::new(len, |i: int| 0i16)],
            active: 1,
            cursor: len,
            in_transition: true,
            len,
            trail,
        }
    }

    /// The next sample starts a new cycle, so a chunk may be taken in.
    pub open spec fn due(self) -> bool {
        self.cursor >= self.len
    }

    /// The slot that is not active.
    pub open spec fn other(self) -> nat {
        (self.active + 1) % 2
    }

    /// A step may take in `incoming`: nothing, or a fitting chunk at a boundary.
    pub open spec fn accepts(self, incoming: Option<Seq<i16>>) -> bool {
        incoming matches Some(c) ==> self.due() && chunk_fits(c, self.len)
    }

    /// The boundary decision: at a boundary a new chunk goes into the other
    /// slot and becomes active; with none, the active chunk plays again.
    pub open spec fn receive(self, incoming: Option<Seq<i16>>) -> SynthView {
        if self.due() {
            match incoming {
                Some(c) => SynthView {
                    slots: self.slots.update(self.other() as int, c),
                    active: self.other(),
                    cursor: 0,
                    in_transition: true,
                    ..self
                },
                None => SynthView { cursor: 0, in_transition: false, ..self },
            }
        } else {
            self
        }
    }

    /// The slot whose chunk trails behind the active one.
    pub open spec fn trailing(self) -> nat {
        if self.in_transition {
            self.other()
        } else {
            self.active
        }
    }

    /// The sample at the cursor: the trailing chunk at the lag plus the
    /// active chunk.
    pub open spec fn output(self) -> int {
        self.slots[self.trailing() as int][((self.cursor + self.trail) % self.len) as int] as int
            + self.slots[self.active as int][self.cursor as int] as int
    }

    /// The state after one sample, given what the channel yielded.
    pub open spec fn step(self, incoming: Option<Seq<i16>>) -> SynthView {
        let v = self.receive(incoming);
        SynthView { cursor: v.cursor + 1, ..v }
    }

    /// The sample that one step produces.
    pub open spec fn step_output(self, incoming: Option<Seq<i16>>) -> int {
        self.receive(incoming).output()
    }

    /// The state after `k` steps that find the channel empty.
    pub open spec fn silent_state(self, k: nat) -> SynthView
        decreases k,
    {
        if k == 0 {
            self
        } else {
            self.silent_state((k - 1) as nat).step(None)
        }
    }

    /// The sample of step `k` (from zero) when the channel stays empty.
    pub open spec fn silent_output(self, k: nat) -> int {
        self.silent_state(k).step_output(None)
    }

    /// The state after one step for each entry of `incoming`, in order.
    pub open spec fn run(self, incoming: Seq<Option<Seq<i16>>>) -> SynthView
        decreases incoming.len(),
    {
        if incoming.len() == 0 {
            self
        } else {
            self.run(incoming.drop_last()).step(incoming.last())
        }
    }

    /// The samples of those steps.
    pub open spec fn run_outputs(self, incoming: Seq<Option<Seq<i16>>>) -> Seq<int>
        decreases incoming.len(),
    {
        if incoming.len() == 0 {
            seq![]
        } else {
            self.run_outputs(incoming.drop_last()).push(
                self.run(incoming.drop_last()).step_output(incoming.last()),
            )
        }
    }

    /// Each entry of `incoming` is one that its step may take in.
    pub open spec fn admits(self, incoming: Seq<Option<Seq<i16>>>) -> bool
        decreases incoming.len(),
    {
        if incoming.len() == 0 {
            true
        } else {
            self.admits(incoming.drop_last()) && self.run(incoming.drop_last()).accepts(
                incoming.last(),
            )
        }
    }
}

/// Number of frames in an interleaved buffer of `n` samples with `channels`
/// samples per frame; a short last frame counts.
pub open spec fn frame_count(n: nat, channels: nat) -> nat
    recommends
        channels > 0,
{
    ((n + channels - 1) / (channels as int)) as nat
}

/// The double-buffered crossfade synthesizer over chunks of `N` samples.
pub struct CrossfadeSynth<const N: usize> {
    slots: Vec<Chunk<N>>,
    active: usize,
    cursor: usize,
    in_transition: bool,
    trail: usize,
}

impl<const N: usize> CrossfadeSynth<N> {
    /// Two valid slots, and the indices and lag within range.
    pub closed spec fn wf(self) -> bool {
        &&& N > 0
        &&& self.slots@.len() == 2
        &&& self.slots@[0].inv()
        &&& self.slots@[1].inv()
        &&& self.active < 2
        &&& self.cursor <= N
        &&& self.trail < N
    }

    pub closed spec fn view(self) -> SynthView {
        SynthView {
            slots: seq![self.slots@[0]@, self.slots@[1]@],
            active: self.active as nat,
            cursor: self.cursor as nat,
            in_transition: self.in_transition,
            len: N as nat,
            trail: self.trail as nat,
        }
    }

    /// A well-formed synthesizer has a well-formed view.
    pub proof fn lemma_view_wf(self)
        requires
            self.wf(),
        ensures
            self@.wf(),
    {
        self.slots@[0].lemma_inv();
        self.slots@[1].lemma_inv();
    }

    /// A synthesizer with both slots silent whose trailing chunk lags by
    /// `trail_offset` samples (taken modulo `N`).
    pub fn new(trail_offset: usize) -> (r: Self)
        requires
            N > 0,
        ensures
            r.wf(),
            r@ == SynthView::initial(N as nat, (trail_offset % N) as nat),
    {
        let mut slots: Vec<Chunk<N>> = Vec::new();
        let first = Chunk::silent();
        let second = Chunk::silent();
        proof {
            use_type_invariant(&first);
            use_type_invariant(&second);
        }
        slots.push(first);
        slots.push(second);
        let r = CrossfadeSynth {
            slots,
            active: 1,
            cursor: N,
            in_transition: true,
            trail: trail_offset % N,
        };
        assert(r@.slots =~= SynthView::initial(N as nat, (trail_offset % N) as nat).slots);
        r
    }

    /// Whether the next sample starts a new cycle, so that a chunk may be
    /// taken in.
    pub fn needs_chunk(&self) -> (r: bool)
        requires
            self.wf(),
        ensures
            r == self@.due(),
    {
        self.cursor >= N
    }

    /// Produces one sample, given what the channel yielded for it. A chunk
    /// may only be offered when one is due.
    pub fn step(&mut self, incoming: Option<Chunk<N>>) -> (r: i16)
        requires
            old(self).wf(),
            incoming is Some ==> old(self)@.due(),
        ensures
            final(self).wf(),
            final(self)@ == old(self)@.step(incoming_view(incoming)),
            r as int == old(self)@.step_output(incoming_view(incoming)),
    {
        if self.cursor >= N {
            match incoming {
                Some(c) => {
                    proof {
                        use_type_invariant(&c);
                    }
                    let other: usize = (self.active + 1) % 2;
                    self.slots.set(other, c);
                    self.active = other;
                    self.in_transition = true;
                },
                None => {
                    self.in_transition = false;
                },
            }
            self.cursor = 0;
        }
        let trailing: usize = if self.in_transition {
            (self.active + 1) % 2
        } else {
            self.active
        };
        let lag: usize = if self.cursor >= N - self.trail {
            self.cursor - (N - self.trail)
        } else {
            self.cursor + self.trail
        };
        let a: i16 = self.slots[trailing].get(lag);
        let b: i16 = self.slots[self.active].get(self.cursor);
        self.cursor = self.cursor + 1;
        proof {
            let v = old(self)@.receive(incoming_view(incoming));
            lemma_wrap((v.cursor + v.trail) as int, v.len as int);
            assert(v.slots =~= seq![self.slots@[0]@, self.slots@[1]@]);
        }
        a + b
    }

    /// Produces the next sample, taking a chunk from `rx` when one is due.
    /// Whether one was waiting is up to the producer.
    pub fn next_sample(&mut self, rx: &ChunkReceiver<N>) -> (r: i16)
        requires
            old(self).wf(),
        ensures
            final(self).wf(),
            exists|c: Option<Seq<i16>>|
                #![trigger old(self)@.step(c)]
                old(self)@.accepts(c) && final(self)@ == old(self)@.step(c) && r as int
                    == old(self)@.step_output(c),
    {
        let incoming = if self.needs_chunk() {
            rx.try_receive()
        } else {
            None
        };
        proof {
            if let Some(c) = &incoming {
                use_type_invariant(c);
                c.lemma_inv();
            }
        }
        let ghost before = self@;
        let r = self.step(incoming);
        assert(before.accepts(incoming_view(incoming)));
        assert(self@ == before.step(incoming_view(incoming)));
        r
    }

    /// Fills an interleaved buffer with `channels` samples per frame: one
    /// sample is produced per frame (a short last frame included) and written
    /// to each of its slots.
    pub fn fill_buffer(&mut self, rx: &ChunkReceiver<N>, out: &mut [i16], channels: usize)
        requires
            old(self).wf(),
            channels > 0,
        ensures
            final(self).wf(),
            final(out)@.len() == old(out)@.len(),
            exists|inc: Seq<Option<Seq<i16>>>|
                #![trigger old(self)@.run(inc)]
                {
                    &&& inc.len() == frame_count(old(out)@.len(), channels as nat)
                    &&& old(self)@.admits(inc)
                    &&& final(self)@ == old(self)@.run(inc)
                    &&& forall|k: int|
                        0 <= k < old(out)@.len() ==> #[trigger] final(out)@[k] as int
                            == old(self)@.run_outputs(inc)[k / channels as int]
                },
    {
        let ghost start = self@;
        let ghost mut log: Seq<Option<Seq<i16>>> = seq![];
        let n: usize = out.len();
        let mut base: usize = 0;
        proof {
            lemma_run_outputs_len(start, log);
        }
        while base < n
            invariant
                self.wf(),
                0 < channels,
                out@.len() == n,
                base <= n,
                base < n ==> base == log.len() * channels,
                log.len() == 0 ==> base == 0,
                log.len() > 0 ==> (log.len() - 1) * channels < base && base <= log.len() * channels,
                start.admits(log),
                self@ == start.run(log),
                start.run_outputs(log).len() == log.len(),
                forall|k: int|
                    0 <= k < base ==> #[trigger] out@[k] as int == start.run_outputs(log)[k
                        / channels as int],
            decreases n - base,
        {
            let ghost before = self@;
            let v = self.next_sample(rx);
            let ghost c = choose|c: Option<Seq<i16>>|
                #![trigger before.step(c)]
                before.accepts(c) && self@ == before.step(c) && v as int == before.step_output(c);
            let end: usize = if channels <= n - base {
                base + channels
            } else {
                n
            };
            let mut j: usize = base;
            while j < end
                invariant
                    base <= j <= end,
                    end <= n,
                    out@.len() == n,
                    forall|k: int|
                        0 <= k < base ==> #[trigger] out@[k] as int == start.run_outputs(log)[k
                            / channels as int],
                    forall|k: int| base <= k < j ==> #[trigger] out@[k] == v,
                decreases end - j,
            {
                out[j] = v;
                j = j + 1;
            }
            proof {
                let f = log.len() as int;
                let next = log.push(c);
                assert(next.drop_last() =~= log);
                lemma_run_outputs_len(start, next);
                assert forall|k: int| 0 <= k < end implies #[trigger] out@[k] as int
                    == start.run_outputs(next)[k / channels as int] by {
                    if k < base {
                        assert(start.run_outputs(next)[k / channels as int]
                            == start.run_outputs(log)[k / channels as int]) by {
                            if f > 0 {
                                lemma_frame_below(k, channels as int, f);
                            }
                        }
                    } else {
                        lemma_frame_of(k, channels as int, f);
                    }
                }
                assert(f * channels + channels == (f + 1) * channels) by (nonlinear_arith);
                log = next;
            }
            base = end;
        }
        proof {
            lemma_frame_count(n as int, channels as int, log.len() as int);
        }
    }
}

/// A step keeps the state well formed, and leaves the cursor inside the
/// chunk once the boundary is decided.
pub proof fn lemma_step_wf(v: SynthView, c: Option<Seq<i16>>)
    requires
        v.wf(),
        v.accepts(c),
    ensures
        v.receive(c).wf(),
        v.receive(c).cursor < v.len,
        v.step(c).wf(),
{
}

/// With the channel empty, the slots, the active slot, the length and the
/// lag never change.
proof fn lemma_silent_keeps_slots(v: SynthView, k: nat)
    requires
        v.wf(),
    ensures
        v.silent_state(k).wf(),
        v.silent_state(k).slots == v.slots,
        v.silent_state(k).active == v.active,
        v.silent_state(k).len == v.len,
        v.silent_state(k).trail == v.trail,
    decreases k,
{
    if k > 0 {
        lemma_silent_keeps_slots(v, (k - 1) as nat);
        lemma_step_wf(v.silent_state((k - 1) as nat), None);
    }
}

/// Until the first boundary, silent steps only move the cursor.
proof fn lemma_silent_before_boundary(v: SynthView, j: nat)
    requires
        v.wf(),
        j <= v.len - v.cursor,
    ensures
        v.silent_state(j) == (SynthView { cursor: v.cursor + j, ..v }),
    decreases j,
{
    if j > 0 {
        lemma_silent_before_boundary(v, (j - 1) as nat);
    }
}

/// One more position, reduced modulo `n`.
proof fn lemma_mod_next(x: int, n: int)
    requires
        0 < n,
        0 <= x,
    ensures
        (x + 1) % n == if x % n + 1 == n { 0 } else { x % n + 1 },
{
    lemma_fundamental_div_mod(x, n);
    let q = x / n;
    let r = x % n;
    if r + 1 == n {
        assert(x + 1 == (q + 1) * n + 0) by (nonlinear_arith)
            requires
                x == n * q + r,
                r + 1 == n,
        ;
        lemma_fundamental_div_mod_converse(x + 1, n, q + 1, 0);
    } else {
        assert(x + 1 == q * n + (r + 1)) by (nonlinear_arith)
            requires
                x == n * q + r,
        ;
        lemma_fundamental_div_mod_converse(x + 1, n, q, r + 1);
    }
}

/// From the first boundary on, with the channel empty, the boundary
/// decision leaves the transition off and the cursor at `(j - d) % len`,
/// where `d` is the number of samples left in the cycle at the start.
proof fn lemma_silent_after_boundary(v: SynthView, j: nat)
    requires
        v.wf(),
        j >= v.len - v.cursor,
    ensures
        v.silent_state(j).receive(None).cursor == (j - (v.len - v.cursor)) % (v.len as int),
        !v.silent_state(j).receive(None).in_transition,
    decreases j,
{
    let d = (v.len - v.cursor) as nat;
    if j == d {
        lemma_silent_before_boundary(v, j);
        lemma_fundamental_div_mod_converse(0, v.len as int, 0, 0);
    } else {
        let i = (j - 1) as nat;
        lemma_silent_after_boundary(v, i);
        lemma_silent_keeps_slots(v, i);
        lemma_silent_keeps_slots(v, j);
        lemma_mod_next(i - d, v.len as int);
    }
}

/// Once a full cycle has gone by with the channel empty, the synthesizer
/// repeats the same cycle of `len` samples for as long as no chunk arrives.
pub proof fn lemma_hold_last(v: SynthView, k: nat)
    requires
        v.wf(),
        k >= v.len,
    ensures
        v.silent_output(k + v.len) == v.silent_output(k),
{
    let d = v.len - v.cursor;
    lemma_silent_after_boundary(v, k);
    lemma_silent_after_boundary(v, k + v.len);
    lemma_silent_keeps_slots(v, k);
    lemma_silent_keeps_slots(v, k + v.len);
    lemma_mod_add_multiples_vanish(k - d, v.len as int);
    assert(k + v.len - d == v.len + (k - d));
}

/// Until a chunk arrives, a new synthesizer outputs exact silence.
pub proof fn lemma_silence_at_start(len: nat, trail: nat, k: nat)
    requires
        len > 0,
        trail < len,
    ensures
        SynthView::initial(len, trail).silent_output(k) == 0,
{
    let v = SynthView::initial(len, trail);
    assert(all_half_range(Seq::new(len, |i: int| 0i16)));
    lemma_silent_keeps_slots(v, k);
    lemma_step_wf(v.silent_state(k), None);
}

/// The outputs of a run number its steps.
proof fn lemma_run_outputs_len(v: SynthView, inc: Seq<Option<Seq<i16>>>)
    ensures
        v.run_outputs(inc).len() == inc.len(),
    decreases inc.len(),
{
    if inc.len() > 0 {
        lemma_run_outputs_len(v, inc.drop_last());
    }
}

/// A sample before frame `f` belongs to an earlier frame.
proof fn lemma_frame_below(k: int, ch: int, f: int)
    requires
        0 < ch,
        0 < f,
        0 <= k < f * ch,
    ensures
        k / ch < f,
{
    vstd::arithmetic::div_mod::lemma_div_is_ordered(k, f * ch - 1, ch);
    assert((f - 1) * ch + ch - 1 == f * ch - 1) by (nonlinear_arith);
    lemma_fundamental_div_mod_converse(f * ch - 1, ch, f - 1, ch - 1);
}

} // verus!
