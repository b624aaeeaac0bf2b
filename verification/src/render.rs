//! The audio render loop.
//!
//! The audio backend asks for a block of interleaved frames. For each frame
//! the graph renders one sample, the sample is taken from the audio output
//! endpoint, and it is written to every channel of the frame. Nothing here
//! blocks or allocates.

use vstd::prelude::*;
use crate::fixed::Fixed;
use crate::graph::{lemma_stepped_shape, GraphView, SignalGraph};
use crate::processor::Processor;
use crate::stream::nth_dequeued;

verus! {

/// The sample that the next frame gets: what the graph puts on output
/// endpoint `output` when it renders one sample, or silence if it puts nothing
/// there.
pub open spec fn frame_value<P: Processor>(graph: GraphView<P>, output: int) -> Fixed {
    match nth_dequeued(graph.stepped().rendered[output], 0) {
        Some(value) => value,
        None => Fixed { raw: 0 },
    }
}

/// The graph after `frames` frames were rendered and taken from output
/// endpoint `output`.
pub open spec fn after_frames<P: Processor>(graph: GraphView<P>, output: int, frames: nat) -> GraphView<
    P,
>
    decreases frames,
{
    if frames == 0 {
        graph
    } else {
        after_frames(graph, output, (frames - 1) as nat).stepped().with_dequeued(output)
    }
}

/// The number of frames in a block of `len` interleaved samples; the last
/// frame may be a short one.
pub open spec fn frames_in(len: nat, channels: nat) -> nat {
    ((len + channels - 1) / (channels as int)) as nat
}

/// Renders one sample and takes it from output endpoint `output`.
pub fn next_value<P: Processor>(graph: &mut SignalGraph<P>, output: usize) -> (r: Fixed)
    requires
        old(graph).wf(),
        output < old(graph)@.rendered.len(),
    ensures
        final(graph).wf(),
        final(graph)@ == after_frames(old(graph)@, output as int, 1),
        old(graph)@.same_shape(final(graph)@),
        r == frame_value(old(graph)@, output as int),
{
    proof {
        graph.lemma_view_wf();
        lemma_stepped_shape(old(graph)@);
        assert(after_frames(old(graph)@, output as int, 0) == old(graph)@);
    }
    graph.render_one();
    match graph.dequeue(output) {
        Some(value) => value,
        None => Fixed::zero(),
    }
}

/// Fills a block of interleaved frames of `channels` channels: every frame
/// gets the next sample of the graph, the same on each of its channels.
pub fn write_data<P: Processor>(
    data: &mut [Fixed],
    channels: usize,
    graph: &mut SignalGraph<P>,
    output: usize,
)
    requires
        channels > 0,
        old(graph).wf(),
        output < old(graph)@.rendered.len(),
    ensures
        final(graph).wf(),
        old(graph)@.same_shape(final(graph)@),
        final(data)@.len() == old(data)@.len(),
        forall|i: int|
            0 <= i < final(data)@.len() ==> #[trigger] final(data)@[i] == frame_value(
                after_frames(old(graph)@, output as int, (i / (channels as int)) as nat),
                output as int,
            ),
        final(graph)@ == after_frames(
            old(graph)@,
            output as int,
            frames_in(old(data)@.len(), channels as nat),
        ),
{
    let len: usize = data.len();
    let mut at: usize = 0;
    let mut frames: usize = 0;
    proof {
        vstd::arithmetic::div_mod::lemma_basic_div(channels - 1, channels as int);
    }
    while at < len
        invariant
            channels > 0,
            at <= len,
            len == data@.len(),
            data@.len() == old(data)@.len(),
            graph.wf(),
            output < graph@.rendered.len(),
            old(graph)@.same_shape(graph@),
            frames <= at,
            at < len ==> at == frames * channels,
            at == len ==> frames == frames_in(len as nat, channels as nat),
            graph@ == after_frames(old(graph)@, output as int, frames as nat),
            forall|i: int|
                0 <= i < at ==> #[trigger] data@[i] == frame_value(
                    after_frames(old(graph)@, output as int, (i / (channels as int)) as nat),
                    output as int,
                ),
        decreases len - at,
    {
        let ghost before = graph@;
        proof {
            graph.lemma_view_wf();
            lemma_stepped_shape(before);
        }
        let value = next_value(graph, output);
        proof {
            assert(after_frames(before, output as int, 0) == before);
            assert(graph@ == before.stepped().with_dequeued(output as int));
            assert(graph@ == after_frames(old(graph)@, output as int, (frames + 1) as nat));
            assert(frames * channels >= frames) by (nonlinear_arith)
                requires
                    channels >= 1,
                    frames >= 0,
            ;
        }
        let ghost frame_start = at;
        let mut channel: usize = 0;
        while channel < channels && at < len
            invariant
                channels > 0,
                channel <= channels,
                at <= len,
                len == data@.len(),
                data@.len() == old(data)@.len(),
                at == frame_start + channel,
                frame_start == frames * channels,
                value == frame_value(
                    after_frames(old(graph)@, output as int, frames as nat),
                    output as int,
                ),
                forall|i: int|
                    0 <= i < at ==> #[trigger] data@[i] == frame_value(
                        after_frames(old(graph)@, output as int, (i / (channels as int)) as nat),
                        output as int,
                    ),
            decreases channels - channel,
        {
            data[at] = value;
            proof {
                lemma_frame_of(at as int, frames as int, channels as int);
            }
            at = at + 1;
            channel = channel + 1;
        }
        proof {
            if at == len {
                lemma_last_frame(len as int, frames as int, channels as int);
            } else {
                assert(at == (frames + 1) * channels) by (nonlinear_arith)
                    requires
                        at == frames * channels + channels,
                ;
            }
        }
        frames = frames + 1;
    }
}

/// A sample that lies in frame `frame` has that frame's number as the
/// quotient of its place by the number of channels.
proof fn lemma_frame_of(at: int, frame: int, channels: int)
    requires
        channels > 0,
        frame >= 0,
        frame * channels <= at < frame * channels + channels,
    ensures
        at / channels == frame,
{
    vstd::arithmetic::div_mod::lemma_fundamental_div_mod_converse(
        at,
        channels,
        frame,
        at - frame * channels,
    );
}

/// A block that ends within frame `frame` has `frame + 1` frames.
proof fn lemma_last_frame(len: int, frame: int, channels: int)
    requires
        channels > 0,
        frame >= 0,
        frame * channels < len <= frame * channels + channels,
    ensures
        frames_in(len as nat, channels as nat) == frame + 1,
{
    let top = len + channels - 1;
    assert((frame + 1) * channels == frame * channels + channels) by (nonlinear_arith);
    lemma_frame_of(top, frame + 1, channels);
}

} // verus!
