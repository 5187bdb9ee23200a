//! The display's size and the handoff of the two frame buffers between the
//! task that draws and the task that flushes.
//!
//! Two mailboxes of depth one carry the buffers: `next` takes a drawn frame
//! from the producer to the consumer, `ready` takes a frame that is free
//! again back to the producer. The producer takes a buffer from `ready`,
//! draws, and signals it on `next`. The consumer takes it from `next`, sends
//! it to the display, and signals the buffer that was on display before back
//! on `ready`. A signal overwrites what the mailbox holds; the protocol is
//! right because that never happens once the consumer has taken its first
//! buffer.
//!
//! At start each mailbox holds one blank buffer. The consumer begins by
//! taking the one in `next` as the frame on display. A producer that signals
//! before that overwrites it, and the signal says so.

use crate::frame::FrameBuffer;
use crate::gray4::lemma_row_range;
use vstd::prelude::*;

verus! {

/// Width of the display in pixels.
pub const SCREEN_WIDTH: usize = 256;

/// Height of the display in pixels.
pub const SCREEN_HEIGHT: usize = 64;

/// What the two mailboxes hold.
pub struct PipelineView {
    /// A buffer that is free to be drawn on, on its way to the producer.
    pub ready: Option<FrameBuffer>,
    /// A drawn frame, on its way to the consumer.
    pub next: Option<FrameBuffer>,
}

/// The two mailboxes between the producer and the consumer.
pub struct FramePipeline {
    ready: Option<FrameBuffer>,
    next: Option<FrameBuffer>,
}

impl View for FramePipeline {
    type V = PipelineView;

    closed spec fn view(&self) -> PipelineView {
        PipelineView { ready: self.ready, next: self.next }
    }
}

impl FramePipeline {
    /// The pipeline with a buffer in each mailbox: `ready` waits for the
    /// producer, `next` for the consumer.
    pub fn new(ready: FrameBuffer, next: FrameBuffer) -> (r: FramePipeline)
        ensures
            r@ == (PipelineView { ready: Some(ready), next: Some(next) }),
    {
        FramePipeline { ready: Some(ready), next: Some(next) }
    }

    /// The producer's wait, without the waiting: takes the free buffer out of
    /// `ready`, or returns `None` where there is none yet.
    pub fn take_ready(&mut self) -> (r: Option<FrameBuffer>)
        ensures
            r == old(self)@.ready,
            final(self)@ == (PipelineView { ready: None, ..old(self)@ }),
    {
        self.ready.take()
    }

    /// The producer's signal: puts a drawn frame into `next` and returns what
    /// it overwrote there.
    pub fn signal_next(&mut self, frame: FrameBuffer) -> (displaced: Option<FrameBuffer>)
        ensures
            displaced == old(self)@.next,
            final(self)@ == (PipelineView { next: Some(frame), ..old(self)@ }),
    {
        let displaced = self.next.take();
        self.next = Some(frame);
        displaced
    }

    /// The consumer's wait, without the waiting: takes the drawn frame out of
    /// `next`, or returns `None` where there is none yet.
    pub fn take_next(&mut self) -> (r: Option<FrameBuffer>)
        ensures
            r == old(self)@.next,
            final(self)@ == (PipelineView { next: None, ..old(self)@ }),
    {
        self.next.take()
    }

    /// The consumer's signal: puts a free buffer into `ready` and returns
    /// what it overwrote there.
    pub fn signal_ready(&mut self, frame: FrameBuffer) -> (displaced: Option<FrameBuffer>)
        ensures
            displaced == old(self)@.ready,
            final(self)@ == (PipelineView { ready: Some(frame), ..old(self)@ }),
    {
        let displaced = self.ready.take();
        self.ready = Some(frame);
        displaced
    }
}

/// The consumer's side: the buffer that is on display.
pub struct FrameConsumer {
    displayed: FrameBuffer,
}

impl View for FrameConsumer {
    type V = FrameBuffer;

    closed spec fn view(&self) -> FrameBuffer {
        self.displayed
    }
}

impl FrameConsumer {
    /// A consumer that starts with `initial` on display.
    pub fn new(initial: FrameBuffer) -> (r: FrameConsumer)
        ensures
            r@ == initial,
    {
        FrameConsumer { displayed: initial }
    }

    /// The consumer's first move: takes the buffer that waits in `next` as
    /// the frame on display. `None` where `next` holds nothing, because the
    /// consumer has started before or the buffer was taken otherwise.
    pub fn start(pipeline: &mut FramePipeline) -> (r: Option<FrameConsumer>)
        ensures
            r is Some <==> old(pipeline)@.next is Some,
            r is Some ==> r->0@ == old(pipeline)@.next->0,
            final(pipeline)@ == (PipelineView { next: None, ..old(pipeline)@ }),
    {
        match pipeline.take_next() {
            Some(first) => Some(FrameConsumer { displayed: first }),
            None => None,
        }
    }

    /// The buffer that is on display.
    pub fn displayed(&self) -> (r: &FrameBuffer)
        ensures
            *r == self@,
    {
        &self.displayed
    }

    /// Puts `incoming` on display and signals the buffer that was on display
    /// before back on `ready`. Returns what the signal overwrote.
    pub fn show(&mut self, incoming: FrameBuffer, pipeline: &mut FramePipeline) -> (displaced:
        Option<FrameBuffer>)
        ensures
            final(self)@ == incoming,
            displaced == old(pipeline)@.ready,
            final(pipeline)@ == (PipelineView { ready: Some(old(self)@), ..old(pipeline)@ }),
    {
        let mut previous = incoming;
        core::mem::swap(&mut self.displayed, &mut previous);
        pipeline.signal_ready(previous)
    }
}

/// The two buffers of the display at start, one in each mailbox: buffer 0
/// waits in `ready` for the producer, buffer 1 in `next` for the consumer.
/// Both are black and of the display's size.
pub fn init_display_buffers() -> (r: FramePipeline)
    ensures
        r@.ready is Some,
        r@.next is Some,
        r@.ready->0.id_spec() == 0,
        r@.next->0.id_spec() == 1,
        r@.ready->0.width_spec() == SCREEN_WIDTH,
        r@.ready->0.height_spec() == SCREEN_HEIGHT,
        r@.next->0.width_spec() == SCREEN_WIDTH,
        r@.next->0.height_spec() == SCREEN_HEIGHT,
        r@.ready->0.is_black(),
        r@.next->0.is_black(),
{
    assert(crate::gray4::row_bytes_spec(SCREEN_WIDTH as int) * SCREEN_HEIGHT == 8192);
    let frame_a = FrameBuffer::new(0, SCREEN_WIDTH, SCREEN_HEIGHT);
    let frame_b = FrameBuffer::new(1, SCREEN_WIDTH, SCREEN_HEIGHT);
    FramePipeline::new(frame_a.unwrap(), frame_b.unwrap())
}

/// Where the two buffers are, each named by its tag.
pub struct HandoffView {
    /// In the mailbox to the producer.
    pub ready: Option<u8>,
    /// In the producer's hands, being drawn on.
    pub producer: Option<u8>,
    /// In the mailbox to the consumer.
    pub next: Option<u8>,
    /// In the consumer's hands, being sent to the display.
    pub incoming: Option<u8>,
    /// On display, kept by the consumer until the next frame is sent; none
    /// before the consumer has taken its first buffer.
    pub displayed: Option<u8>,
}

/// The four moves of the protocol.
pub enum HandoffStep {
    /// The producer takes the free buffer out of `ready`.
    ProducerTake,
    /// The producer signals the frame it drew on `next`.
    ProducerSignal,
    /// The consumer takes the drawn frame out of `next`.
    ConsumerTake,
    /// The consumer has sent the frame and signals the one that was on
    /// display before on `ready`; its first frame it only keeps.
    ConsumerShow,
}

/// The tag of the buffer in a place, if one is there.
pub open spec fn tag_of(place: Option<FrameBuffer>) -> Option<u8> {
    match place {
        Some(frame) => Some(frame.id_spec()),
        None => None,
    }
}

/// Where the buffers are, given the two mailboxes and what the two tasks
/// hold: the producer a buffer it draws on, the consumer a frame it sends
/// and the buffer that is on display.
pub open spec fn handoff_of(
    pipeline: PipelineView,
    producer: Option<FrameBuffer>,
    incoming: Option<FrameBuffer>,
    displayed: Option<FrameBuffer>,
) -> HandoffView {
    HandoffView {
        ready: tag_of(pipeline.ready),
        producer: tag_of(producer),
        next: tag_of(pipeline.next),
        incoming: tag_of(incoming),
        displayed: tag_of(displayed),
    }
}

/// What a move makes of the handoff. A move that cannot be made, such as a
/// take from an empty mailbox, changes nothing.
pub open spec fn handoff_step(s: HandoffView, step: HandoffStep) -> HandoffView {
    match step {
        HandoffStep::ProducerTake => if s.producer is None && s.ready is Some {
            HandoffView { producer: s.ready, ready: None, ..s }
        } else {
            s
        },
        HandoffStep::ProducerSignal => if s.producer is Some {
            HandoffView { next: s.producer, producer: None, ..s }
        } else {
            s
        },
        HandoffStep::ConsumerTake => if s.incoming is None && s.next is Some {
            HandoffView { incoming: s.next, next: None, ..s }
        } else {
            s
        },
        HandoffStep::ConsumerShow => if s.incoming is Some {
            HandoffView {
                ready: if s.displayed is Some {
                    s.displayed
                } else {
                    s.ready
                },
                displayed: s.incoming,
                incoming: None,
                ..s
            }
        } else {
            s
        },
    }
}

/// Whether a move overwrites a buffer that waits in a mailbox, which would
/// be lost.
pub open spec fn step_displaces(s: HandoffView, step: HandoffStep) -> bool {
    match step {
        HandoffStep::ProducerSignal => s.producer is Some && s.next is Some,
        HandoffStep::ConsumerShow => s.incoming is Some && s.displayed is Some && s.ready is Some,
        _ => false,
    }
}

/// What a run of moves makes of the handoff.
pub open spec fn handoff_run(s: HandoffView, steps: Seq<HandoffStep>) -> HandoffView
    decreases steps.len(),
{
    if steps.len() == 0 {
        s
    } else {
        handoff_step(handoff_run(s, steps.drop_last()), steps.last())
    }
}

/// How many of the four places between the hands hold a buffer.
pub open spec fn in_transit(s: HandoffView) -> int {
    (if s.ready is Some {
        1int
    } else {
        0int
    }) + (if s.producer is Some {
        1int
    } else {
        0int
    }) + (if s.next is Some {
        1int
    } else {
        0int
    }) + (if s.incoming is Some {
        1int
    } else {
        0int
    })
}

/// The buffer that is not on display, wherever it is.
pub open spec fn travelling(s: HandoffView) -> u8 {
    if s.ready is Some {
        s.ready->0
    } else if s.producer is Some {
        s.producer->0
    } else if s.next is Some {
        s.next->0
    } else {
        s.incoming->0
    }
}

/// What holds of the handoff from the consumer's start on: buffer `a` and
/// buffer `b` are two buffers, one of them is on display and the other is in
/// exactly one of the four places on the way round.
pub open spec fn handoff_inv(s: HandoffView, a: u8, b: u8) -> bool {
    &&& a != b
    &&& in_transit(s) == 1
    &&& (s.displayed == Some(a) && travelling(s) == b) || (s.displayed == Some(b) && travelling(s)
        == a)
}

/// The handoff as `init_display_buffers` leaves it: buffer `a` waits in
/// `ready`, buffer `b` in `next`, and nothing is on display yet.
pub open spec fn handoff_boot(a: u8, b: u8) -> HandoffView {
    HandoffView { ready: Some(a), producer: None, next: Some(b), incoming: None, displayed: None }
}

/// The handoff once the consumer has started: buffer `a` waits in `ready`,
/// buffer `b` is on display.
pub open spec fn handoff_start(a: u8, b: u8) -> HandoffView {
    HandoffView { ready: Some(a), producer: None, next: None, incoming: None, displayed: Some(b) }
}

/// The consumer's start, which is a take and a show of its first buffer,
/// leads from the state at boot to the state that the protocol runs from.
pub proof fn lemma_consumer_start(a: u8, b: u8)
    ensures
        handoff_step(
            handoff_step(handoff_boot(a, b), HandoffStep::ConsumerTake),
            HandoffStep::ConsumerShow,
        ) == handoff_start(a, b),
        !step_displaces(handoff_boot(a, b), HandoffStep::ConsumerTake),
        !step_displaces(
            handoff_step(handoff_boot(a, b), HandoffStep::ConsumerTake),
            HandoffStep::ConsumerShow,
        ),
{
}

/// A producer that takes and signals before the consumer has started
/// overwrites the buffer that waits in `next`: that buffer is lost.
pub proof fn lemma_early_signal_displaces(a: u8, b: u8)
    ensures
        step_displaces(
            handoff_step(handoff_boot(a, b), HandoffStep::ProducerTake),
            HandoffStep::ProducerSignal,
        ),
{
}

/// One whole round: the producer takes and signals, the consumer takes and
/// shows.
pub open spec fn handoff_round() -> Seq<HandoffStep> {
    seq![
        HandoffStep::ProducerTake,
        HandoffStep::ProducerSignal,
        HandoffStep::ConsumerTake,
        HandoffStep::ConsumerShow,
    ]
}

/// The operations on the pipeline are the moves: `take_ready` by a producer
/// with empty hands, `signal_next` of the buffer the producer holds,
/// `take_next` by a consumer that sends nothing, `show` of the frame the
/// consumer has sent, and `start`, which is a take and a show by a consumer
/// that has nothing on display.
pub proof fn lemma_operations_are_moves(
    pipeline: PipelineView,
    held: FrameBuffer,
    incoming: Option<FrameBuffer>,
    displayed: Option<FrameBuffer>,
    shown: FrameBuffer,
)
    ensures
        handoff_of(PipelineView { ready: None, ..pipeline }, pipeline.ready, incoming, displayed)
            == handoff_step(
            handoff_of(pipeline, None, incoming, displayed),
            HandoffStep::ProducerTake,
        ),
        handoff_of(PipelineView { next: Some(held), ..pipeline }, None, incoming, displayed)
            == handoff_step(
            handoff_of(pipeline, Some(held), incoming, displayed),
            HandoffStep::ProducerSignal,
        ),
        handoff_of(PipelineView { next: None, ..pipeline }, None, pipeline.next, displayed)
            == handoff_step(handoff_of(pipeline, None, None, displayed), HandoffStep::ConsumerTake),
        handoff_of(PipelineView { ready: Some(shown), ..pipeline }, None, None, Some(held))
            == handoff_step(
            handoff_of(pipeline, None, Some(held), Some(shown)),
            HandoffStep::ConsumerShow,
        ),
        handoff_of(PipelineView { next: None, ..pipeline }, None, None, pipeline.next)
            == handoff_step(
            handoff_step(handoff_of(pipeline, None, None, None), HandoffStep::ConsumerTake),
            HandoffStep::ConsumerShow,
        ),
{
}

/// A move keeps the two buffers apart and loses none: after it each buffer is
/// still in one place only, and it overwrote nothing.
pub proof fn lemma_step_keeps_buffers_apart(s: HandoffView, a: u8, b: u8, step: HandoffStep)
    requires
        handoff_inv(s, a, b),
    ensures
        handoff_inv(handoff_step(s, step), a, b),
        !step_displaces(s, step),
        !(s.ready is Some && s.next is Some),
{
}

/// Whatever the order of the moves, from the consumer's start on no buffer is
/// ever in two places, the two mailboxes never both hold one, and no move overwrites
/// a buffer.
pub proof fn lemma_handoff_never_aliases(a: u8, b: u8, steps: Seq<HandoffStep>)
    requires
        a != b,
    ensures
        handoff_inv(handoff_run(handoff_start(a, b), steps), a, b),
        !(handoff_run(handoff_start(a, b), steps).ready is Some && handoff_run(
            handoff_start(a, b),
            steps,
        ).next is Some),
        forall|k: int|
            0 <= k < steps.len() ==> !step_displaces(
                #[trigger] handoff_run(handoff_start(a, b), steps.take(k)),
                steps[k],
            ),
    decreases steps.len(),
{
    let start = handoff_start(a, b);
    if steps.len() > 0 {
        let head = steps.drop_last();
        lemma_handoff_never_aliases(a, b, head);
        lemma_step_keeps_buffers_apart(handoff_run(start, head), a, b, steps.last());
        assert forall|k: int| 0 <= k < steps.len() implies !step_displaces(
            #[trigger] handoff_run(start, steps.take(k)),
            steps[k],
        ) by {
            if k < head.len() {
                assert(steps.take(k) =~= head.take(k));
                assert(steps[k] == head[k]);
            } else {
                assert(steps.take(k) =~= head);
            }
        }
    }
    lemma_step_keeps_buffers_apart(handoff_run(start, steps), a, b, HandoffStep::ProducerTake);
}

/// What one round makes of a handoff in which a buffer waits in `ready`: the
/// consumer has received the very buffer that the producer signalled, and
/// the buffer that was on display waits in `ready` for the next round.
pub proof fn lemma_round_delivers(s: HandoffView)
    requires
        s.ready is Some,
        s.producer is None,
        s.next is None,
        s.incoming is None,
        s.displayed is Some,
    ensures
        handoff_run(s, handoff_round()) == (HandoffView {
            ready: s.displayed,
            displayed: s.ready,
            ..s
        }),
{
    let r = handoff_round();
    let r3 = r.drop_last();
    let r2 = r3.drop_last();
    let r1 = r2.drop_last();
    let r0 = r1.drop_last();
    assert(r0.len() == 0);
    assert(handoff_run(s, r0) == s);
    assert(r1.last() == HandoffStep::ProducerTake);
    assert(r2.last() == HandoffStep::ProducerSignal);
    assert(r3.last() == HandoffStep::ConsumerTake);
    assert(r.last() == HandoffStep::ConsumerShow);
    assert(handoff_run(s, r1) == handoff_step(s, HandoffStep::ProducerTake));
    assert(handoff_run(s, r2) == handoff_step(handoff_run(s, r1), HandoffStep::ProducerSignal));
    assert(handoff_run(s, r3) == handoff_step(handoff_run(s, r2), HandoffStep::ConsumerTake));
}

/// The handoff after `n` rounds from the consumer's start.
pub open spec fn after_rounds(a: u8, b: u8, n: nat) -> HandoffView
    decreases n,
{
    if n == 0 {
        handoff_start(a, b)
    } else {
        handoff_run(after_rounds(a, b, (n - 1) as nat), handoff_round())
    }
}

/// Through any number of rounds the two buffers take turns: every frame that
/// the producer signals reaches the display in the same round, in the order
/// in which the frames were signalled, and the other buffer is free for the
/// next round.
pub proof fn lemma_rounds_alternate(a: u8, b: u8, n: nat)
    ensures
        after_rounds(a, b, n) == if n % 2 == 0 {
            handoff_start(a, b)
        } else {
            handoff_start(b, a)
        },
    decreases n,
{
    if n > 0 {
        lemma_rounds_alternate(a, b, (n - 1) as nat);
        lemma_round_delivers(after_rounds(a, b, (n - 1) as nat));
    }
}

/// `ssd1322_rs::Frame`: the frame that the display driver flushes, of which
/// nothing is seen but through `wire_bytes`, `wire_width` and `wire_height`.
#[verifier::external_type_specification]
#[verifier::external_body]
pub struct ExWireFrame<const N: usize>(ssd1322_rs::Frame<N>);

/// The bytes of the display driver's frame, as they go over the wire.
pub uninterp spec fn wire_bytes(frame: ssd1322_rs::Frame<8192>) -> Seq<u8>;

/// The width in pixels that the display driver's frame was made for.
pub uninterp spec fn wire_width(frame: ssd1322_rs::Frame<8192>) -> int;

/// The height in pixels that the display driver's frame was made for.
pub uninterp spec fn wire_height(frame: ssd1322_rs::Frame<8192>) -> int;

/// The bytes of the driver's frame after one pixel was set: two pixels share
/// a byte, the one at the even x-coordinate in the high nibble, and a pixel
/// off the frame changes nothing.
pub open spec fn wire_put(bytes: Seq<u8>, width: int, height: int, x: u8, y: u8, v: u8) -> Seq<
    u8,
> {
    let idx = (y * width + x) / 2;
    if x >= width || y >= height || idx >= bytes.len() {
        bytes
    } else if x % 2 == 0 {
        bytes.update(idx, (bytes[idx] & 0x0F) | ((v & 0x0F) << 4))
    } else {
        bytes.update(idx, (bytes[idx] & 0xF0) | (v & 0x0F))
    }
}

/// Pixel `(x, y)` of the driver's frame.
pub open spec fn wire_pixel(bytes: Seq<u8>, width: int, x: int, y: int) -> u8 {
    let b = bytes[(y * width + x) / 2];
    if x % 2 == 0 {
        (b >> 4) & 0x0F
    } else {
        b & 0x0F
    }
}

/// `Default::default` of `ssd1322_rs::Frame`: a frame of 256 by 64 pixels
/// whose bytes are all zero.
#[verifier::external_body]
fn wire_frame_default() -> (frame: ssd1322_rs::Frame<8192>)
    ensures
        wire_width(frame) == 256,
        wire_height(frame) == 64,
        wire_bytes(frame) == Seq::new(8192, |i: int| 0u8),
{
    Default::default()
}

/// The fields `width` and `height` of `ssd1322_rs::Frame`, and the length of
/// its field `buffer`.
#[verifier::external_body]
fn wire_frame_size(frame: &ssd1322_rs::Frame<8192>) -> (size: (u16, u16, usize))
    ensures
        size.0 == wire_width(*frame),
        size.1 == wire_height(*frame),
        size.2 == wire_bytes(*frame).len(),
{
    (frame.width, frame.height, frame.buffer.len())
}

/// `ssd1322_rs::Frame::set_pixel` with the gray level `v`: the nibble of the
/// pixel is replaced by the low four bits of `v`, and nothing else changes.
#[verifier::external_body]
fn wire_set_pixel(frame: &mut ssd1322_rs::Frame<8192>, x: u8, y: u8, v: u8)
    ensures
        wire_width(*final(frame)) == wire_width(*old(frame)),
        wire_height(*final(frame)) == wire_height(*old(frame)),
        wire_bytes(*final(frame)) == wire_put(
            wire_bytes(*old(frame)),
            wire_width(*old(frame)),
            wire_height(*old(frame)),
            x,
            y,
            v,
        ),
{
    frame.set_pixel(x, y, embedded_graphics::pixelcolor::Gray4::new(v));
}

/// A frame of the display driver, black, of the display's size.
pub fn new_wire_frame() -> (frame: ssd1322_rs::Frame<8192>)
    ensures
        wire_width(frame) == SCREEN_WIDTH,
        wire_height(frame) == SCREEN_HEIGHT,
        wire_bytes(frame) == Seq::new(8192, |i: int| 0u8),
{
    wire_frame_default()
}

/// Whether a canvas can be copied to a driver's frame of the given size and
/// length in bytes: both have the same size, the width is even, every
/// coordinate fits the driver's eight bits, and the frame has a nibble for
/// every pixel.
pub open spec fn wire_fits(canvas: FrameBuffer, width: int, height: int, len: int) -> bool {
    &&& canvas.width_spec() == width
    &&& canvas.height_spec() == height
    &&& width % 2 == 0
    &&& width <= 256
    &&& height <= 256
    &&& width * height <= 2 * len
}

/// In a frame of even width a pixel's byte is found row by row.
pub proof fn lemma_wire_index(width: int, x: int, y: int)
    requires
        width % 2 == 0,
        0 <= x < width,
        0 <= y,
    ensures
        (y * width + x) / 2 == y * (width / 2) + x / 2,
        0 <= x / 2 < width / 2,
{
    let hw = width / 2;
    assert(y * width == 2 * (y * hw)) by (nonlinear_arith)
        requires
            width == 2 * hw,
    ;
    assert(0 <= y * hw) by (nonlinear_arith)
        requires
            0 <= y,
            0 <= hw,
    ;
    vstd::arithmetic::div_mod::lemma_fundamental_div_mod_converse(
        y * width + x,
        2,
        y * hw + x / 2,
        x % 2,
    );
}

/// Copies a canvas to a frame of the display driver, pixel by pixel, so that
/// the driver's frame shows what the canvas shows. Returns whether the
/// canvas fits the frame; where it does not, the frame is left as it is.
#[verifier::rlimit(50)]
pub fn copy_to_display(canvas: &FrameBuffer, frame: &mut ssd1322_rs::Frame<8192>) -> (done: bool)
    ensures
        done == wire_fits(
            *canvas,
            wire_width(*old(frame)),
            wire_height(*old(frame)),
            wire_bytes(*old(frame)).len() as int,
        ),
        wire_width(*final(frame)) == wire_width(*old(frame)),
        wire_height(*final(frame)) == wire_height(*old(frame)),
        wire_bytes(*final(frame)).len() == wire_bytes(*old(frame)).len(),
        !done ==> wire_bytes(*final(frame)) == wire_bytes(*old(frame)),
        done ==> forall|x: int, y: int|
            canvas.contains(x, y) ==> wire_pixel(
                wire_bytes(*final(frame)),
                canvas.width_spec(),
                x,
                y,
            ) == canvas.pixel(x, y),
        done ==> forall|i: int|
            canvas.width_spec() * canvas.height_spec() <= 2 * i && i < wire_bytes(
                *old(frame),
            ).len() ==> wire_bytes(*final(frame))[i] == wire_bytes(*old(frame))[i],
{
    let ghost before = wire_bytes(*frame);
    let size = wire_frame_size(frame);
    let w = canvas.width();
    let h = canvas.height();
    if !(w == size.0 as usize && h == size.1 as usize && w % 2 == 0 && w <= 256 && h <= 256) {
        return false;
    }
    let len = size.2;
    let ghost hw = (w / 2) as int;
    assert((w / 2) * h <= 128 * 256 && w * h == 2 * ((w / 2) * h)) by (nonlinear_arith)
        requires
            w <= 256,
            h <= 256,
            w % 2 == 0,
    ;
    if (w / 2) * h > len {
        return false;
    }
    let mut y: usize = 0;
    while y < h
        invariant
            y <= h,
            w == canvas.width_spec(),
            h == canvas.height_spec(),
            w == wire_width(*frame),
            h == wire_height(*frame),
            wire_width(*frame) == wire_width(*old(frame)),
            wire_height(*frame) == wire_height(*old(frame)),
            w % 2 == 0,
            w <= 256,
            h <= 256,
            w * h <= 2 * len,
            hw == w / 2,
            before.len() == len,
            wire_bytes(*frame).len() == len,
            forall|px: int, py: int|
                0 <= px < w && 0 <= py < y ==> wire_pixel(wire_bytes(*frame), w as int, px, py)
                    == canvas.pixel(px, py),
            forall|i: int| y * hw <= i < len ==> wire_bytes(*frame)[i] == before[i],
        decreases h - y,
    {
        let mut x: usize = 0;
        while x < w
            invariant
                x <= w,
                y < h,
                w == canvas.width_spec(),
                h == canvas.height_spec(),
                w == wire_width(*frame),
                h == wire_height(*frame),
                wire_width(*frame) == wire_width(*old(frame)),
                wire_height(*frame) == wire_height(*old(frame)),
                w % 2 == 0,
                w <= 256,
                h <= 256,
                w * h <= 2 * len,
                hw == w / 2,
                before.len() == len,
                wire_bytes(*frame).len() == len,
                forall|px: int, py: int|
                    0 <= px < w && 0 <= py < y ==> wire_pixel(
                        wire_bytes(*frame),
                        w as int,
                        px,
                        py,
                    ) == canvas.pixel(px, py),
                forall|px: int|
                    0 <= px < x ==> wire_pixel(wire_bytes(*frame), w as int, px, y as int)
                        == canvas.pixel(px, y as int),
                forall|i: int|
                    y * hw + (x + 1) / 2 <= i < len ==> wire_bytes(*frame)[i] == before[i],
            decreases w - x,
        {
            let v = canvas.get_pixel(x, y);
            let ghost mid = wire_bytes(*frame);
            wire_set_pixel(frame, x as u8, y as u8, v);
            proof {
                let now = wire_bytes(*frame);
                let idx = y * hw + x / 2;
                lemma_wire_index(w as int, x as int, y as int);
                lemma_row_range(y as int, h as int, hw);
                assert(h * hw <= len) by (nonlinear_arith)
                    requires
                        w * h <= 2 * len,
                        w == 2 * hw,
                        0 <= h,
                ;
                assert(now == mid.update(
                    idx,
                    if x % 2 == 0 {
                        (mid[idx] & 0x0F) | ((v & 0x0F) << 4)
                    } else {
                        (mid[idx] & 0xF0) | (v & 0x0F)
                    },
                ));
                lemma_wire_nibbles(mid[idx], v);
                assert forall|px: int, py: int| 0 <= px < w && 0 <= py < y implies wire_pixel(
                    now,
                    w as int,
                    px,
                    py,
                ) == canvas.pixel(px, py) by {
                    lemma_wire_index(w as int, px, py);
                    lemma_row_range(py, y as int, hw);
                    assert(wire_pixel(mid, w as int, px, py) == canvas.pixel(px, py));
                }
                assert forall|px: int| 0 <= px < x + 1 implies wire_pixel(
                    now,
                    w as int,
                    px,
                    y as int,
                ) == canvas.pixel(px, y as int) by {
                    lemma_wire_index(w as int, px, y as int);
                    if px < x {
                        assert(wire_pixel(mid, w as int, px, y as int) == canvas.pixel(
                            px,
                            y as int,
                        ));
                    }
                }
            }
            x += 1;
        }
        proof {
            lemma_row_range(y as int, h as int, hw);
        }
        y += 1;
    }
    proof {
        assert(h * hw * 2 == w * h) by (nonlinear_arith)
            requires
                w == 2 * hw,
        ;
    }
    true
}

/// Setting one nibble of a byte leaves the other as it is.
pub proof fn lemma_wire_nibbles(b: u8, v: u8)
    requires
        v <= 15,
    ensures
        ((((b & 0x0F) | ((v & 0x0F) << 4)) >> 4) & 0x0F) == v,
        (((b & 0x0F) | ((v & 0x0F) << 4)) & 0x0F) == b & 0x0F,
        (((b & 0xF0) | (v & 0x0F)) & 0x0F) == v,
        ((((b & 0xF0) | (v & 0x0F)) >> 4) & 0x0F) == (b >> 4) & 0x0F,
{
    assert(v <= 15 ==> ((((b & 0x0F) | ((v & 0x0F) << 4)) >> 4) & 0x0F) == v) by (bit_vector);
    assert((((b & 0x0F) | ((v & 0x0F) << 4)) & 0x0F) == b & 0x0F) by (bit_vector);
    assert(v <= 15 ==> (((b & 0xF0) | (v & 0x0F)) & 0x0F) == v) by (bit_vector);
    assert(((((b & 0xF0) | (v & 0x0F)) >> 4) & 0x0F) == (b >> 4) & 0x0F) by (bit_vector);
}

} // verus!
