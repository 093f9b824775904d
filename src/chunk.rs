//! Fixed-length blocks of waveform samples, pre-halved so that two of them
//! can be summed without leaving the `i16` range.
use vstd::prelude::*;

verus! {

/// Smallest value a pre-halved sample may take.
pub const HALF_MIN: i16 = -16384;

/// Largest value a pre-halved sample may take.
pub const HALF_MAX: i16 = 16383;

/// A sample fits the pre-halved range.
pub open spec fn in_half_range(s: int) -> bool {
    HALF_MIN as int <= s && s <= HALF_MAX as int
}

/// Every sample of `s` fits the pre-halved range.
pub open spec fn all_half_range(s: Seq<i16>) -> bool {
    forall|i: int| 0 <= i < s.len() ==> #[trigger] in_half_range(s[i] as int)
}

/// A full-scale sample divided by two, rounding toward zero.
pub open spec fn halve(s: int) -> int {
    if s >= 0 {
        s / 2
    } else {
        -((-s) / 2)
    }
}

/// What a chunk built from the full-scale row `row` holds.
pub open spec fn halved_row(row: Seq<i16>) -> Seq<i16> {
    Seq::new(row.len(), |i: int| halve(row[i] as int) as i16)
}

/// `N` samples, each in the pre-halved range. Never changed once built.
pub struct Chunk<const N: usize> {
    samples: Vec<i16>,
}

impl<const N: usize> Chunk<N> {
    #[verifier::type_invariant]
    pub(crate) closed spec fn inv(self) -> bool {
        &&& self.samples@.len() == N
        &&& all_half_range(self.samples@)
    }

    /// The samples, in order.
    pub closed spec fn view(self) -> Seq<i16> {
        self.samples@
    }

    /// What the invariant says of the samples.
    pub(crate) proof fn lemma_inv(self)
        requires
            self.inv(),
        ensures
            self@.len() == N,
            all_half_range(self@),
    {
    }

    /// A chunk of `N` zeros.
    pub fn silent() -> (r: Self)
        ensures
            r@ == Seq::new(N as nat, |i: int| 0i16),
    {
        let mut v: Vec<i16> = Vec::new();
        let mut i: usize = 0;
        while i < N
            invariant
                i <= N,
                v@ == Seq::new(i as nat, |j: int| 0i16),
            decreases N - i,
        {
            v.push(0);
            i = i + 1;
            assert(v@ =~= Seq::new(i as nat, |j: int| 0i16));
        }
        Chunk { samples: v }
    }

    /// Builds a chunk from a full-scale row of `N` samples by halving each one.
    /// A row of any other length gives `None`.
    pub fn from_row(row: &[i16]) -> (r: Option<Self>)
        ensures
            r is Some <==> row@.len() == N,
            r is Some ==> r->0@ == halved_row(row@),
    {
        if row.len() != N {
            return None;
        }
        let mut v: Vec<i16> = Vec::new();
        let mut i: usize = 0;
        while i < row.len()
            invariant
                i <= row@.len(),
                row@.len() == N,
                v@ == halved_row(row@).take(i as int),
            decreases row@.len() - i,
        {
            let s: i32 = row[i] as i32;
            let h: i32 = if s >= 0 {
                s / 2
            } else {
                -((-s) / 2)
            };
            v.push(h as i16);
            i = i + 1;
            assert(v@ =~= halved_row(row@).take(i as int));
        }
        assert(v@ =~= halved_row(row@));
        assert forall|k: int| 0 <= k < v@.len() implies #[trigger] in_half_range(v@[k] as int) by {
            let s = row@[k] as int;
            assert(-32768 <= s <= 32767);
        }
        Some(Chunk { samples: v })
    }

    /// Takes samples that are already halved. `None` unless there are `N`
    /// of them and each lies in the pre-halved range.
    pub fn from_halved(samples: Vec<i16>) -> (r: Option<Self>)
        ensures
            r is Some <==> samples@.len() == N && all_half_range(samples@),
            r is Some ==> r->0@ == samples@,
    {
        if samples.len() != N {
            return None;
        }
        let mut i: usize = 0;
        while i < samples.len()
            invariant
                i <= samples@.len(),
                forall|k: int| 0 <= k < i ==> #[trigger] in_half_range(samples@[k] as int),
            decreases samples@.len() - i,
        {
            if samples[i] < HALF_MIN || samples[i] > HALF_MAX {
                assert(!in_half_range(samples@[i as int] as int));
                return None;
            }
            i = i + 1;
        }
        Some(Chunk { samples })
    }

    /// The sample at `i`.
    pub fn get(&self, i: usize) -> (r: i16)
        requires
            i < N,
        ensures
            r == self@[i as int],
            in_half_range(r as int),
    {
        proof {
            use_type_invariant(self);
        }
        self.samples[i]
    }

    /// A copy of the samples.
    pub fn to_vec(&self) -> (r: Vec<i16>)
        ensures
            r@ == self@,
    {
        self.samples.clone()
    }
}

} // verus!
