//! Fixed-length lookup tables of precomputed waveform amplitudes, and
//! iterators that play a table back at a requested frequency.
//!
//! A table is created empty with a positive capacity, filled exactly once by
//! a waveform generator applied at `capacity` evenly spaced points of one
//! period, and read thereafter by any number of independent iterators.
//!
//! An iterator advances a fractional index by `frequency * capacity /
//! sample_rate` table units per produced sample and wraps it modulo the
//! capacity. The fraction is kept exactly: the index is stored as an integer
//! numerator over the fixed denominator `sample_rate`, so the index after `n`
//! steps is `(n * frequency * capacity) mod (capacity * sample_rate)` over
//! `sample_rate`, and the sample produced at that step is the table entry at
//! the floor of the index, `numerator / sample_rate`.

use vstd::prelude::*;

verus! {

/// A fixed-length lookup table of one waveform period's amplitudes.
///
/// The amplitude type is generic: the table never computes on its entries,
/// it only stores and returns them.
pub struct Wavetable<T> {
    capacity: usize,
    samples: Vec<T>,
}

/// A cursor over a `Wavetable` producing an infinite sequence of amplitudes.
///
/// The fractional table index is `index_num / sample_rate` table units; it is
/// always kept in `[0, capacity)` by reducing the numerator modulo
/// `capacity * sample_rate`.
pub struct WavetableIter<'a, T> {
    pub frequency: u64,
    index_num: u64,
    sample_rate: u64,
    wavetable: &'a Wavetable<T>,
}

impl<T> View for Wavetable<T> {
    type V = Seq<T>;

    closed spec fn view(&self) -> Seq<T> {
        self.samples@
    }
}

impl<T> Wavetable<T> {
    pub closed spec fn spec_capacity(&self) -> usize {
        self.capacity
    }

    /// Every table is built with a positive capacity.
    pub open spec fn wf(&self) -> bool {
        self.spec_capacity() > 0
    }

    /// A table is filled once it holds exactly `capacity` samples.
    pub open spec fn is_filled(&self) -> bool {
        self@.len() == self.spec_capacity()
    }

    /// Creates an empty table that will hold `capacity` samples once filled.
    pub fn new(capacity: usize) -> (table: Self)
        requires
            capacity > 0,
        ensures
            table.wf(),
            table.spec_capacity() == capacity,
            table@ == Seq::<T>::empty(),
    {
        Self { capacity, samples: Vec::new() }
    }

    /// Populates the table by applying `waveform` at each of the `capacity`
    /// evenly spaced points of one period: the call `waveform(i, capacity)`
    /// is expected to evaluate the waveform at phase `2 * pi * i / capacity`.
    pub fn fill<F: Fn(usize, usize) -> T>(&mut self, waveform: F)
        requires
            old(self)@.len() == 0,
            forall|i: usize|
                i < old(self).spec_capacity() ==> call_requires(
                    waveform,
                    (i, old(self).spec_capacity()),
                ),
        ensures
            final(self).spec_capacity() == old(self).spec_capacity(),
            final(self).is_filled(),
            forall|i: int|
                0 <= i < old(self).spec_capacity() ==> call_ensures(
                    waveform,
                    (i as usize, old(self).spec_capacity()),
                    #[trigger] final(self)@[i],
                ),
    {
        let capacity = self.capacity;
        let mut i: usize = 0;
        while i < capacity
            invariant
                capacity == self.spec_capacity(),
                i == self@.len(),
                i <= capacity,
                forall|j: usize| j < capacity ==> call_requires(waveform, (j, capacity)),
                forall|j: int|
                    0 <= j < i ==> call_ensures(
                        waveform,
                        (j as usize, capacity),
                        #[trigger] self@[j],
                    ),
            decreases capacity - i,
        {
            let sample = waveform(i, capacity);
            self.samples.push(sample);
            i += 1;
        }
    }

    /// Returns the sample at a populated table slot.
    pub fn get(&self, index: usize) -> (sample: T) where T: Copy
        requires
            index < self@.len(),
        ensures
            sample == self@[index as int],
    {
        self.samples[index]
    }

    /// Returns the number of samples the table currently holds.
    pub fn len(&self) -> (n: usize)
        ensures
            n == self@.len(),
    {
        self.samples.len()
    }

    /// Creates a fresh, independent iterator over this filled table, starting
    /// at index zero.
    ///
    /// The bound on `capacity * sample_rate + frequency * capacity` keeps the
    /// iterator's index numerator arithmetic within machine range.
    pub fn iter(&self, frequency: u64, sample_rate: u64) -> (it: WavetableIter<'_, T>)
        requires
            self.wf(),
            frequency > 0,
            sample_rate > 0,
            self.is_filled(),
            self.spec_capacity() * sample_rate + frequency * self.spec_capacity()
                <= u64::MAX,
        ensures
            it.wf(),
            it.table() == self@,
            it.spec_frequency() == frequency,
            it.spec_sample_rate() == sample_rate,
            it.spec_index_num() == 0,
    {
        proof {
            assert((self.spec_capacity() as int) * (sample_rate as int) > 0)
                by (nonlinear_arith)
                requires
                    self.spec_capacity() > 0,
                    sample_rate > 0,
            ;
        }
        WavetableIter { frequency, index_num: 0, sample_rate, wavetable: self }
    }
}

impl<'a, T> WavetableIter<'a, T> {
    pub closed spec fn spec_frequency(&self) -> u64 {
        self.frequency
    }

    pub closed spec fn spec_index_num(&self) -> u64 {
        self.index_num
    }

    pub closed spec fn spec_sample_rate(&self) -> u64 {
        self.sample_rate
    }

    /// The contents of the table the iterator reads.
    pub closed spec fn table(&self) -> Seq<T> {
        self.wavetable@
    }

    pub closed spec fn spec_capacity(&self) -> usize {
        self.wavetable.spec_capacity()
    }

    /// The iterator's invariant: its table is filled, its parameters are
    /// positive, its index numerator is reduced modulo one table length, and
    /// one step of numerator arithmetic cannot overflow.
    pub open spec fn wf(&self) -> bool {
        &&& self.spec_frequency() > 0
        &&& self.spec_sample_rate() > 0
        &&& self.table().len() == self.spec_capacity()
        &&& self.spec_capacity() > 0
        &&& self.spec_index_num() < self.spec_capacity() * self.spec_sample_rate()
        &&& self.spec_capacity() * self.spec_sample_rate() + self.spec_frequency()
            * self.spec_capacity() <= u64::MAX
    }

    /// The table index (in `[0, capacity)`) whose floor the next call to
    /// `next` reads.
    pub open spec fn current_slot(&self) -> int {
        self.spec_index_num() as int / self.spec_sample_rate() as int
    }

    /// Produces the next sample: reads the table at the floor of the current
    /// index, then advances the index by `frequency * capacity / sample_rate`
    /// table units, wrapping modulo the capacity. Never signals completion.
    pub fn next(&mut self) -> (sample: Option<T>) where T: Copy
        requires
            old(self).wf(),
        ensures
            final(self).wf(),
            sample == Some(old(self).table()[old(self).current_slot()]),
            final(self).spec_index_num() == (old(self).spec_index_num()
                + old(self).spec_frequency() * old(self).spec_capacity()) % (
            old(self).spec_capacity() * old(self).spec_sample_rate()),
            final(self).spec_frequency() == old(self).spec_frequency(),
            final(self).spec_sample_rate() == old(self).spec_sample_rate(),
            final(self).table() == old(self).table(),
            final(self).spec_capacity() == old(self).spec_capacity(),
    {
        let capacity_u64: u64 = self.wavetable.capacity as u64;
        proof {
            assert((self.wavetable.capacity as int) * (self.sample_rate as int) == (
            self.sample_rate as int) * (self.wavetable.capacity as int)) by (nonlinear_arith);
            vstd::arithmetic::div_mod::lemma_multiply_divide_lt(
                self.index_num as int,
                self.sample_rate as int,
                self.wavetable.capacity as int,
            );
        }
        let slot: usize = (self.index_num / self.sample_rate) as usize;
        let sample = self.wavetable.samples[slot];

        let modulus: u64 = capacity_u64 * self.sample_rate;
        self.index_num = (self.index_num + self.frequency * capacity_u64) % modulus;
        proof {
            vstd::arithmetic::div_mod::lemma_mod_bound(
                (old(self).index_num + old(self).frequency * capacity_u64) as int,
                modulus as int,
            );
        }

        Some(sample)
    }

    /// Produces the next `n` samples in order.
    ///
    /// Starting from a fresh iterator, the `k`-th produced value is the table
    /// entry at the floor of `(k * frequency * capacity / sample_rate) mod
    /// capacity`: with the index kept as a numerator over `sample_rate`, that
    /// floor is `index_num_after(k, ..) / sample_rate`.
    pub fn take_samples(&mut self, n: usize) -> (out: Vec<T>) where T: Copy
        requires
            old(self).wf(),
            old(self).spec_index_num() == 0,
        ensures
            final(self).wf(),
            out@.len() == n,
            forall|k: int|
                0 <= k < n ==> #[trigger] out@[k] == old(self).table()[
                    index_num_after(
                        k as nat,
                        old(self).spec_frequency() as int,
                        old(self).spec_capacity() as int,
                        old(self).spec_sample_rate() as int,
                    ) / old(self).spec_sample_rate() as int
                ],
    {
        let ghost f = self.spec_frequency() as int;
        let ghost cap = self.spec_capacity() as int;
        let ghost sr = self.spec_sample_rate() as int;
        let ghost table = self.table();
        let mut out: Vec<T> = Vec::new();
        let mut k: usize = 0;
        proof {
            assert(cap * sr > 0) by (nonlinear_arith)
                requires
                    cap > 0,
                    sr > 0,
            ;
            assert((0 as nat) * f * cap == 0) by (nonlinear_arith);
            vstd::arithmetic::div_mod::lemma_small_mod(0, (cap * sr) as nat);
            assert(index_num_after(0, f, cap, sr) == 0);
        }
        while k < n
            invariant
                self.wf(),
                self.spec_frequency() as int == f,
                self.spec_capacity() as int == cap,
                self.spec_sample_rate() as int == sr,
                self.table() == table,
                k <= n,
                out@.len() == k,
                self.spec_index_num() == index_num_after(k as nat, f, cap, sr),
                forall|j: int|
                    0 <= j < k ==> #[trigger] out@[j] == table[
                        index_num_after(j as nat, f, cap, sr) / sr
                    ],
            decreases n - k,
        {
            proof {
                lemma_index_num_after_step(k as nat, f, cap, sr);
            }
            let sample = self.next();
            match sample {
                Some(value) => out.push(value),
                None => (),
            }
            k += 1;
        }
        out
    }
}

/// The iterator's index numerator after `n` steps from a fresh iterator:
/// `n` steps of `frequency * capacity`, reduced modulo one table length of
/// `capacity * sample_rate`. The table index after `n` steps is this value
/// over `sample_rate`.
pub open spec fn index_num_after(n: nat, frequency: int, capacity: int, sample_rate: int) -> int {
    (n * frequency * capacity) % (capacity * sample_rate)
}

/// One step of the phase accumulator in closed form: adding one increment of
/// `frequency * capacity` to the reduced numerator after `n` steps and
/// reducing again yields the reduced numerator after `n + 1` steps; the
/// numerator stays within one table length, so the table index it denotes
/// stays below `capacity`.
pub proof fn lemma_index_num_after_step(n: nat, frequency: int, capacity: int, sample_rate: int)
    requires
        capacity > 0,
        sample_rate > 0,
    ensures
        0 <= index_num_after(n, frequency, capacity, sample_rate) < capacity * sample_rate,
        index_num_after(n + 1, frequency, capacity, sample_rate) == (index_num_after(
            n,
            frequency,
            capacity,
            sample_rate,
        ) + frequency * capacity) % (capacity * sample_rate),
        index_num_after(n, frequency, capacity, sample_rate) / sample_rate < capacity,
{
    let m = capacity * sample_rate;
    assert(capacity * sample_rate > 0) by (nonlinear_arith)
        requires
            capacity > 0,
            sample_rate > 0,
    ;
    vstd::arithmetic::div_mod::lemma_mod_bound(n * frequency * capacity, m);
    assert((n + 1) * frequency * capacity == n * frequency * capacity + frequency * capacity)
        by (nonlinear_arith);
    vstd::arithmetic::div_mod::lemma_add_mod_noop_right(
        frequency * capacity,
        n * frequency * capacity,
        m,
    );
    assert(capacity * sample_rate == sample_rate * capacity) by (nonlinear_arith);
    vstd::arithmetic::div_mod::lemma_multiply_divide_lt(
        index_num_after(n, frequency, capacity, sample_rate),
        sample_rate,
        capacity,
    );
}

/// Determinism of playback: two sample sequences whose entries are both
/// pinned to the table entry at the phase-accumulator index — as
/// `take_samples` ensures for iterators built with identical `(frequency,
/// sample_rate)` on the same table — are equal, for any number of steps.
pub proof fn lemma_iteration_deterministic<T>(
    table: Seq<T>,
    frequency: int,
    capacity: int,
    sample_rate: int,
    a: Seq<T>,
    b: Seq<T>,
)
    requires
        a.len() == b.len(),
        forall|k: int|
            0 <= k < a.len() ==> #[trigger] a[k] == table[index_num_after(
                k as nat,
                frequency,
                capacity,
                sample_rate,
            ) / sample_rate],
        forall|k: int|
            0 <= k < b.len() ==> #[trigger] b[k] == table[index_num_after(
                k as nat,
                frequency,
                capacity,
                sample_rate,
            ) / sample_rate],
    ensures
        a == b,
{
    assert(a =~= b);
}

} // verus!
