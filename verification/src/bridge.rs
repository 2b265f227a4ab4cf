//! The message protocol between the real-time render callback and the
//! control thread that owns the oscillator.
//!
//! The two sides are connected by a pair of bounded, unidirectional queues.
//! The protocol is strictly synchronous: for every output sample the render
//! side enqueues one `RequestSample`, then blocks until exactly one `Sample`
//! reply arrives; the control side answers each request with one oscillator
//! step, attenuated by a fixed gain. The blocking queue operations themselves
//! are performed by the host program; this module holds the decisions taken
//! at each end and the pairing they guarantee: the `n`-th sample the render
//! side receives is the `n`-th sample the control side computed, however the
//! two sides are scheduled.

use vstd::prelude::*;

use crate::wavetable::WavetableIter;
use crate::wavetable::index_num_after;
use crate::wavetable::lemma_index_num_after_step;

verus! {

/// Sent render -> control; carries no payload and asks for exactly one
/// sample.
pub enum AudioThreadMessage {
    RequestSample,
}

/// Sent control -> render; carries one amplitude.
pub enum MainThreadMessage<T> {
    Sample(T),
}

/// Number of slots in each of the two bridge queues: a generous shock
/// absorber, not a buffering cache, since the strict request/response pairing
/// keeps steady-state occupancy near zero.
pub const QUEUE_CAPACITY: usize = 1000;

/// The control side's answer to one request: advance the oscillator by one
/// step, apply the fixed attenuation `gain`, and wrap the result as the
/// `Sample` reply to send back.
pub fn handle_request<T: Copy, F: Fn(T) -> T>(
    request: AudioThreadMessage,
    oscillator: &mut WavetableIter<'_, T>,
    gain: &F,
) -> (reply: MainThreadMessage<T>)
    requires
        old(oscillator).wf(),
        forall|x: T| call_requires(*gain, (x,)),
    ensures
        final(oscillator).wf(),
        final(oscillator).spec_index_num() == (old(oscillator).spec_index_num() + old(
            oscillator,
        ).spec_frequency() * old(oscillator).spec_capacity()) % (old(
            oscillator,
        ).spec_capacity() * old(oscillator).spec_sample_rate()),
        final(oscillator).spec_frequency() == old(oscillator).spec_frequency(),
        final(oscillator).spec_sample_rate() == old(oscillator).spec_sample_rate(),
        final(oscillator).table() == old(oscillator).table(),
        final(oscillator).spec_capacity() == old(oscillator).spec_capacity(),
        reply matches MainThreadMessage::Sample(v) && call_ensures(
            *gain,
            (old(oscillator).table()[old(oscillator).current_slot()],),
            v,
        ),
{
    match request {
        AudioThreadMessage::RequestSample => {
            let raw = oscillator.next();
            match raw {
                Some(sample) => MainThreadMessage::Sample((*gain)(sample)),
                None => vstd::pervasive::unreached(),
            }
        },
    }
}

/// One strict request/response session of `rounds` samples, as the render
/// side's loop performs it: enqueue one request, have the control side answer
/// it, dequeue the one reply, and only then move to the next sample slot.
///
/// The ensures clause is the bridge's pairing guarantee: the `k`-th value the
/// render side receives is the gain applied to the control side's `k`-th
/// oscillator step — no sample is dropped, duplicated or reordered, no matter
/// how long either side of the bridge holds a message.
pub fn run_session<T: Copy, F: Fn(T) -> T>(
    oscillator: &mut WavetableIter<'_, T>,
    gain: &F,
    rounds: usize,
) -> (received: Vec<T>)
    requires
        old(oscillator).wf(),
        old(oscillator).spec_index_num() == 0,
        forall|x: T| call_requires(*gain, (x,)),
    ensures
        final(oscillator).wf(),
        received@.len() == rounds,
        forall|k: int|
            0 <= k < rounds ==> call_ensures(
                *gain,
                (old(oscillator).table()[index_num_after(
                    k as nat,
                    old(oscillator).spec_frequency() as int,
                    old(oscillator).spec_capacity() as int,
                    old(oscillator).spec_sample_rate() as int,
                ) / old(oscillator).spec_sample_rate() as int],),
                #[trigger] received@[k],
            ),
{
    let ghost f = oscillator.spec_frequency() as int;
    let ghost cap = oscillator.spec_capacity() as int;
    let ghost sr = oscillator.spec_sample_rate() as int;
    let ghost table = oscillator.table();

    let mut requests: Vec<AudioThreadMessage> = Vec::new();
    let mut replies: Vec<MainThreadMessage<T>> = Vec::new();
    let mut received: Vec<T> = Vec::new();
    let mut k: usize = 0;
    proof {
        assert(cap * sr > 0) by (nonlinear_arith)
            requires
                cap > 0,
                sr > 0,
        ;
        assert((0 as nat) * f * cap == 0) by (nonlinear_arith);
        vstd::arithmetic::div_mod::lemma_small_mod(0, (cap * sr) as nat);
    }
    while k < rounds
        invariant
            oscillator.wf(),
            oscillator.spec_frequency() as int == f,
            oscillator.spec_capacity() as int == cap,
            oscillator.spec_sample_rate() as int == sr,
            oscillator.table() == table,
            forall|x: T| call_requires(*gain, (x,)),
            k <= rounds,
            requests@.len() == 0,
            replies@.len() == 0,
            received@.len() == k,
            oscillator.spec_index_num() == index_num_after(k as nat, f, cap, sr),
            forall|j: int|
                0 <= j < k ==> call_ensures(
                    *gain,
                    (table[index_num_after(j as nat, f, cap, sr) / sr],),
                    #[trigger] received@[j],
                ),
        decreases rounds - k,
    {
        proof {
            lemma_index_num_after_step(k as nat, f, cap, sr);
        }
        // Render side: issue exactly one request for this sample slot.
        requests.push(AudioThreadMessage::RequestSample);
        // Control side: take the one pending request and answer it.
        let request = requests.remove(0);
        let reply = handle_request(request, oscillator, gain);
        replies.push(reply);
        // Render side: block until the one reply for this slot has arrived.
        let message = replies.remove(0);
        match message {
            MainThreadMessage::Sample(value) => received.push(value),
        }
        k += 1;
    }
    received
}

/// The fan-out half of the sample format adapter: each converted amplitude is
/// written identically into every channel slot of its frame — the signal is
/// monophonic, duplicated without panning across however many channels the
/// device reports.
pub fn fill_frames<T: Copy>(samples: &Vec<T>, channels: usize) -> (out: Vec<T>)
    requires
        channels > 0,
    ensures
        out@.len() == samples@.len() * channels,
        forall|fr: int, ch: int|
            0 <= fr < samples@.len() && 0 <= ch < channels ==> #[trigger] out@[fr * channels
                + ch] == samples@[fr],
{
    let mut out: Vec<T> = Vec::new();
    let mut fr: usize = 0;
    while fr < samples.len()
        invariant
            channels > 0,
            fr <= samples@.len(),
            out@.len() == fr * channels,
            forall|j: int, ch: int|
                0 <= j < fr && 0 <= ch < channels ==> #[trigger] out@[j * channels + ch]
                    == samples@[j],
        decreases samples@.len() - fr,
    {
        let value = samples[fr];
        let mut ch: usize = 0;
        while ch < channels
            invariant
                channels > 0,
                fr < samples@.len(),
                ch <= channels,
                value == samples@[fr as int],
                out@.len() == fr * channels + ch,
                forall|j: int, c: int|
                    0 <= j < fr && 0 <= c < channels ==> #[trigger] out@[j * channels + c]
                        == samples@[j],
                forall|c: int|
                    0 <= c < ch ==> #[trigger] out@[fr * channels + c] == samples@[fr as int],
            decreases channels - ch,
        {
            out.push(value);
            ch += 1;
            proof {
                assert forall|j: int, c: int|
                    0 <= j < fr && 0 <= c < channels implies #[trigger] out@[j * channels + c]
                    == samples@[j] by {
                    assert(j * channels + channels == (j + 1) * channels) by (nonlinear_arith);
                    assert((j + 1) * channels <= fr as int * channels) by (nonlinear_arith)
                        requires
                            0 <= j + 1 <= fr as int,
                            channels >= 0,
                    ;
                }
            }
        }
        fr += 1;
        proof {
            assert((fr - 1) * channels + channels == fr as int * channels) by (nonlinear_arith);
        }
    }
    out
}

} // verus!
