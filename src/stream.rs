use vstd::prelude::*;
use crate::synth::{SampleFormat, Synth, sample_produced};

verus! {

/// What the audio callback tells the backend after filling a buffer.
#[derive(Clone, Copy, PartialEq, Eq, Debug, Structural)]
pub enum StreamStatus {
    Continue,
    Complete,
}

/// Events the stream control loop waits for.
#[derive(Clone, Copy, PartialEq, Eq, Debug, Structural)]
pub enum SynthUIEvent {
    /// The synthesizer started playing after silence.
    NewNotes,
    /// The audio callback found the synthesizer silent and completed the stream.
    StreamFinished,
    /// The window closed, or the channel of events was dropped.
    WindowClosed,
}

/// State of the output stream as the control loop sees it.
#[derive(Clone, Copy, PartialEq, Eq, Debug, Structural)]
pub enum StreamState {
    Idle,
    Active,
    Closed,
}

/// What the control loop does with the output stream.
#[derive(Clone, Copy, PartialEq, Eq, Debug, Structural)]
pub enum StreamAction {
    /// Start the stream unless it is already active.
    Start,
    /// Stop the stream if it is active.
    Stop,
    /// Stop the stream if it is active and end the loop.
    Shutdown,
    Nothing,
}

/// The control loop's rule: new notes start an idle stream, a finished stream is
/// stopped, and a closed window stops the stream and ends the loop for good.
pub open spec fn spec_stream_step(state: StreamState, event: SynthUIEvent) -> (StreamState, StreamAction) {
    match state {
        StreamState::Closed => (StreamState::Closed, StreamAction::Nothing),
        _ => match event {
            SynthUIEvent::WindowClosed => (StreamState::Closed, StreamAction::Shutdown),
            SynthUIEvent::NewNotes => match state {
                StreamState::Idle => (StreamState::Active, StreamAction::Start),
                _ => (StreamState::Active, StreamAction::Nothing),
            },
            SynthUIEvent::StreamFinished => match state {
                StreamState::Active => (StreamState::Idle, StreamAction::Stop),
                _ => (StreamState::Idle, StreamAction::Nothing),
            },
        },
    }
}

/// The next state of the stream control loop on `event`, and what to do.
pub fn stream_step(state: StreamState, event: SynthUIEvent) -> (r: (StreamState, StreamAction))
    ensures
        r == spec_stream_step(state, event),
{
    match state {
        StreamState::Closed => (StreamState::Closed, StreamAction::Nothing),
        _ => match event {
            SynthUIEvent::WindowClosed => (StreamState::Closed, StreamAction::Shutdown),
            SynthUIEvent::NewNotes => match state {
                StreamState::Idle => (StreamState::Active, StreamAction::Start),
                _ => (StreamState::Active, StreamAction::Nothing),
            },
            SynthUIEvent::StreamFinished => match state {
                StreamState::Active => (StreamState::Idle, StreamAction::Stop),
                _ => (StreamState::Idle, StreamAction::Nothing),
            },
        },
    }
}

/// Once closed, the control loop stays closed and does nothing more.
pub proof fn lemma_closed_is_final(event: SynthUIEvent)
    ensures
        spec_stream_step(StreamState::Closed, event) == (StreamState::Closed, StreamAction::Nothing),
{
}

/// Whether slot `q` of `out`, in frames of `ch` slots, holds the sample that took
/// `states` from the state of its frame to the next.
pub open spec fn produced_at<S: SampleFormat>(states: Seq<Synth<S>>, out: Seq<S>, q: int, ch: int) -> bool {
    &&& q / ch + 1 < states.len()
    &&& sample_produced(states[q / ch], states[q / ch + 1], out[q])
}

impl<S: SampleFormat> Synth<S> {
    /// Fills `output`, `channels` slots per frame, with successive samples, the same
    /// sample in every slot of a frame; when nothing is playing it leaves the buffer
    /// and the synthesizer alone and asks the backend to complete the stream.
    pub fn fill_buffer(&mut self, output: &mut Vec<S>, channels: usize) -> (r: StreamStatus)
        requires
            old(self).wf(),
            channels >= 1,
        ensures
            final(self).wf(),
            final(output)@.len() == old(output)@.len(),
            (r == StreamStatus::Complete) <==> !(exists|i: int| 0 <= i < old(self).oscillators@.len()
                && (#[trigger] old(self).oscillators@[i]).voices@.len() > 0),
            r == StreamStatus::Complete ==> *final(self) == *old(self) && final(output)@ == old(output)@,
            r == StreamStatus::Continue ==> exists|states: Seq<Synth<S>>| {
                &&& states.len() >= 1
                &&& states[0] == *old(self)
                &&& states.last() == *final(self)
                &&& forall|k: int| 0 <= k < final(output)@.len() ==> #[trigger] produced_at(states, final(output)@, k, channels as int)
            },
    {
        if !self.playing() {
            return StreamStatus::Complete;
        }
        let len = output.len();
        let ghost mut states: Seq<Synth<S>> = seq![*self];
        let ghost mut f: int = 0;
        let mut k: usize = 0;
        while k < len
            invariant
                self.wf(),
                channels >= 1,
                len == output@.len(),
                len == old(output)@.len(),
                k <= len,
                k < len ==> k == f * channels,
                0 <= f,
                states.len() == f + 1,
                states[0] == *old(self),
                states.last() == *self,
                forall|q: int| 0 <= q < k ==> #[trigger] produced_at(states, output@, q, channels as int),
            decreases len - k,
        {
            let ghost before = *self;
            let sample = self.next_sample();
            let mut c: usize = 0;
            while c < channels && k < len
                invariant
                    channels >= 1,
                    len == output@.len(),
                    k == f * channels + c,
                    c <= channels,
                    k <= len,
                    0 <= f,
                    states.len() == f + 1,
                    states.last() == before,
                    sample_produced(before, *self, sample),
                    forall|q: int| 0 <= q < f * channels ==> #[trigger] produced_at(states, output@, q, channels as int),
                    forall|q: int| f * channels <= q < k ==> #[trigger] output@[q] == sample,
                decreases len - k,
            {
                let ghost written = output@;
                output.set(k, sample);
                proof {
                    assert forall|q: int| 0 <= q < f * channels implies #[trigger] produced_at(states, output@, q, channels as int) by {
                        assert(produced_at(states, written, q, channels as int));
                        assert(output@[q] == written[q]);
                    }
                }
                k = k + 1;
                c = c + 1;
            }
            proof {
                let prefix = states;
                states = states.push(*self);
                assert forall|q: int| 0 <= q < k implies #[trigger] produced_at(states, output@, q, channels as int) by {
                    if q < f * channels {
                        lemma_frame_index(q, channels as int, f);
                        assert(produced_at(prefix, output@, q, channels as int));
                        assert(states[q / channels as int] == prefix[q / channels as int]);
                        assert(states[q / channels as int + 1] == prefix[q / channels as int + 1]);
                    } else {
                        vstd::arithmetic::div_mod::lemma_fundamental_div_mod_converse(q, channels as int, f, q - f * channels);
                        assert(q / channels as int == f);
                        assert(states[f] == before);
                        assert(states[f + 1] == *self);
                        assert(output@[q] == sample);
                    }
                }
                f = f + 1;
                assert(k < len ==> k == f * channels) by (nonlinear_arith)
                    requires
                        k < len ==> c == channels,
                        k == (f - 1) * channels + c,
                ;
            }
        }
        proof {
            assert(states.len() >= 1);
        }
        StreamStatus::Continue
    }
}

proof fn lemma_frame_index(q: int, ch: int, f: int)
    requires
        0 <= q < f * ch,
        ch >= 1,
    ensures
        0 <= q / ch < f,
{
    vstd::arithmetic::div_mod::lemma_fundamental_div_mod(q, ch);
    vstd::arithmetic::div_mod::lemma_mod_bound(q, ch);
    vstd::arithmetic::div_mod::lemma_div_pos_is_pos(q, ch);
    assert(q / ch < f) by (nonlinear_arith)
        requires
            q == ch * (q / ch) + q % ch,
            0 <= q % ch < ch,
            q < f * ch,
            ch >= 1,
    ;
}

} // verus!
