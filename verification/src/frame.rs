//! The wire frame, stated over a mathematical model of the display.
//!
//! A frame is the start byte, the hexadecimal expansion of the address byte,
//! of the resolution byte and of the packed pixels, the end byte, and the
//! hexadecimal expansion of a checksum. The checksum is taken over the address
//! byte, the resolution byte, the packed pixels and the end byte, as they are
//! before they are expanded.

use crate::hex::hex_high;
use crate::hex::hex_low;
use crate::packing::pack;
use crate::packing::packed_len;
use vstd::prelude::*;

verus! {

/// The byte that opens a frame. It is sent as it is.
pub const START_OF_FRAME: u8 = 0x02;

/// The byte that closes the hexadecimal part of a frame. It is sent as it is.
pub const END_OF_FRAME: u8 = 0x03;

/// What is added to the address selected on the controller to get the address
/// byte of a frame.
pub const ADDRESS_OFFSET: u8 = 17;

/// The controller's address switch has sixteen positions, 0 to 15.
pub const ADDRESS_LIMIT: u8 = 16;

/// One pixel to be drawn: a position, which may lie off the display, and
/// whether the dot there is to show.
#[derive(Clone, Copy, Debug, PartialEq, Eq)]
pub struct Dot {
    pub x: i32,
    pub y: i32,
    pub on: bool,
}

/// Every byte of `raw` replaced by its two hexadecimal characters.
pub open spec fn hex_expand(raw: Seq<u8>) -> Seq<u8> {
    Seq::new(
        2 * raw.len(),
        |i: int|
            if i % 2 == 0 {
                hex_high(raw[i / 2])
            } else {
                hex_low(raw[i / 2])
            },
    )
}

/// The sum of the bytes of a sequence.
pub open spec fn byte_sum(bytes: Seq<u8>) -> int
    decreases bytes.len(),
{
    if bytes.len() == 0 {
        0
    } else {
        byte_sum(bytes.drop_last()) + bytes.last()
    }
}

/// The complement of `sum`, plus one, within a byte.
pub open spec fn negated(sum: u8) -> u8 {
    (((sum ^ 0xFFu8) + 1) % 256) as u8
}

/// The checksum of the bytes it covers: their sum modulo 256, negated.
pub open spec fn checksum(covered: Seq<u8>) -> u8 {
    negated((byte_sum(covered) % 256) as u8)
}

/// The model of a display: its address, its extent and its pixels. The pixel
/// at column `x` and row `y` has index `x * height + y`.
pub struct Panel {
    pub address: nat,
    pub width: nat,
    pub height: nat,
    pub pixels: Seq<bool>,
}

impl Panel {
    /// The address is one that the switch can select, and there is one pixel
    /// for each position.
    pub open spec fn wf(self) -> bool {
        &&& self.address < ADDRESS_LIMIT
        &&& self.pixels.len() == self.width * self.height
    }

    /// The display with every pixel off.
    pub open spec fn blank(width: nat, height: nat, address: nat) -> Panel {
        Panel { address, width, height, pixels: Seq::new(width * height, |i: int| false) }
    }

    /// The position lies on the display.
    pub open spec fn contains(self, x: int, y: int) -> bool {
        0 <= x < self.width && 0 <= y < self.height
    }

    /// The index of the pixel at column `x` and row `y`.
    pub open spec fn index(self, x: int, y: int) -> int {
        x * self.height + y
    }

    /// The display after the pixel at (`x`, `y`) is written. A position off
    /// the display changes nothing.
    pub open spec fn plot(self, x: int, y: int, on: bool) -> Panel {
        if self.contains(x, y) {
            Panel { pixels: self.pixels.update(self.index(x, y), on), ..self }
        } else {
            self
        }
    }

    /// The display after the dots are drawn one after the other.
    pub open spec fn draw(self, dots: Seq<Dot>) -> Panel
        decreases dots.len(),
    {
        if dots.len() == 0 {
            self
        } else {
            let last = dots.last();
            self.draw(dots.drop_last()).plot(last.x as int, last.y as int, last.on)
        }
    }

    /// The address byte of the frame.
    pub open spec fn header(self) -> u8 {
        (self.address + ADDRESS_OFFSET) as u8
    }

    /// The resolution byte of the frame: an eighth of the number of pixels,
    /// rounded down, and of that the lowest eight bits.
    pub open spec fn resolution(self) -> u8 {
        (((self.width * self.height) / 8) % 256) as u8
    }

    /// The bytes that are sent in hexadecimal: address, resolution, pixels.
    pub open spec fn fields(self) -> Seq<u8> {
        seq![self.header(), self.resolution()] + pack(self.pixels)
    }

    /// What the checksum covers: address, resolution and pixels as they are
    /// before they are expanded, and the end byte.
    pub open spec fn covered(self) -> Seq<u8> {
        self.fields().push(END_OF_FRAME)
    }

    /// The frame.
    pub open spec fn frame(self) -> Seq<u8> {
        seq![START_OF_FRAME] + hex_expand(self.fields()).push(END_OF_FRAME) + hex_expand(
            seq![checksum(self.covered())],
        )
    }

    /// The length of the frame: start and end byte, and two characters each
    /// for address, resolution, checksum and every byte of pixels.
    pub open spec fn frame_len(self) -> nat {
        2 * (3 + packed_len(self.width * self.height)) + 2
    }

    /// `after` is `before` with the frame written over its beginning.
    pub open spec fn fills(self, before: Seq<u8>, after: Seq<u8>) -> bool {
        after == self.frame() + before.skip(self.frame_len() as int)
    }
}

/// Expanding one byte more appends its two characters.
pub proof fn lemma_hex_expand_push(raw: Seq<u8>, b: u8)
    ensures
        hex_expand(raw.push(b)) == hex_expand(raw).push(hex_high(b)).push(hex_low(b)),
{
    assert(hex_expand(raw.push(b)) =~= hex_expand(raw).push(hex_high(b)).push(hex_low(b)));
}

/// The sum of a sequence with one byte more.
pub proof fn lemma_byte_sum_push(bytes: Seq<u8>, b: u8)
    ensures
        byte_sum(bytes.push(b)) == byte_sum(bytes) + b,
{
    assert(bytes.push(b).drop_last() =~= bytes);
}

/// The sum of two sequences joined is the sum of their sums.
pub proof fn lemma_byte_sum_concat(front: Seq<u8>, back: Seq<u8>)
    ensures
        byte_sum(front + back) == byte_sum(front) + byte_sum(back),
    decreases back.len(),
{
    if back.len() == 0 {
        assert(front + back =~= front);
    } else {
        lemma_byte_sum_concat(front, back.drop_last());
        assert((front + back).drop_last() =~= front + back.drop_last());
    }
}

/// The checksum of a frame is taken over the address byte, the resolution
/// byte, the packed pixels and the end byte as they are before expansion: the
/// start byte and the hexadecimal characters have no part in it. It is what
/// 256 lacks over the sum modulo 256 of those bytes.
pub proof fn lemma_frame_checksum(panel: Panel)
    requires
        panel.wf(),
    ensures
        panel.header() == panel.address + ADDRESS_OFFSET,
        byte_sum(panel.covered()) == panel.header() + panel.resolution() + byte_sum(
            pack(panel.pixels),
        ) + END_OF_FRAME,
        checksum(panel.covered()) == (256 - byte_sum(panel.covered()) % 256) % 256,
{
    let front = seq![panel.header(), panel.resolution()];
    assert(front =~= Seq::<u8>::empty().push(panel.header()).push(panel.resolution()));
    lemma_byte_sum_push(Seq::<u8>::empty(), panel.header());
    lemma_byte_sum_push(Seq::<u8>::empty().push(panel.header()), panel.resolution());
    lemma_byte_sum_concat(front, pack(panel.pixels));
    lemma_byte_sum_push(panel.fields(), END_OF_FRAME);
    let sum = (byte_sum(panel.covered()) % 256) as u8;
    assert((sum ^ 0xFFu8) == 255 - sum) by (bit_vector);
}

/// A checksum makes up for the bytes it covers: together they sum to a
/// multiple of 256.
pub proof fn lemma_checksum_balances(covered: Seq<u8>)
    ensures
        (byte_sum(covered) + checksum(covered)) % 256 == 0,
{
    let sum = (byte_sum(covered) % 256) as u8;
    assert(negated(sum) == (256 - sum) % 256) by {
        assert((sum ^ 0xFFu8) == 255 - sum) by (bit_vector);
    }
}

/// The frame of a well-formed display has the length that `frame_len` gives.
pub proof fn lemma_frame_len(panel: Panel)
    requires
        panel.wf(),
    ensures
        panel.frame().len() == panel.frame_len(),
{
}

/// Where each part of the frame stands.
pub proof fn lemma_frame_layout(panel: Panel)
    requires
        panel.wf(),
    ensures
        panel.frame().len() == panel.frame_len(),
        panel.frame()[0] == START_OF_FRAME,
        panel.frame()[1] == hex_high(panel.header()),
        panel.frame()[2] == hex_low(panel.header()),
        panel.frame()[3] == hex_high(panel.resolution()),
        panel.frame()[4] == hex_low(panel.resolution()),
        forall|k: int|
            0 <= k < pack(panel.pixels).len() ==> {
                &&& #[trigger] panel.frame()[5 + 2 * k] == hex_high(pack(panel.pixels)[k])
                &&& panel.frame()[6 + 2 * k] == hex_low(pack(panel.pixels)[k])
            },
        panel.frame()[panel.frame_len() - 3] == END_OF_FRAME,
        panel.frame()[panel.frame_len() - 2] == hex_high(checksum(panel.covered())),
        panel.frame()[panel.frame_len() - 1] == hex_low(checksum(panel.covered())),
{
    let fields = panel.fields();
    let frame = panel.frame();
    assert forall|k: int| 0 <= k < pack(panel.pixels).len() implies {
        &&& #[trigger] frame[5 + 2 * k] == hex_high(pack(panel.pixels)[k])
        &&& frame[6 + 2 * k] == hex_low(pack(panel.pixels)[k])
    } by {
        assert(fields[k + 2] == pack(panel.pixels)[k]);
        assert(frame[5 + 2 * k] == hex_expand(fields)[4 + 2 * k]);
        assert(frame[6 + 2 * k] == hex_expand(fields)[5 + 2 * k]);
    }
    assert(frame[1] == hex_expand(fields)[0]);
    assert(frame[2] == hex_expand(fields)[1]);
    assert(frame[3] == hex_expand(fields)[2]);
    assert(frame[4] == hex_expand(fields)[3]);
}

/// A buffer that the frame was written into starts with the frame, keeps
/// its length, and keeps what stood behind the frame.
pub proof fn lemma_filled_buffer(panel: Panel, before: Seq<u8>, after: Seq<u8>)
    requires
        panel.wf(),
        before.len() >= panel.frame_len(),
        panel.fills(before, after),
    ensures
        after.len() == before.len(),
        after.subrange(0, panel.frame_len() as int) == panel.frame(),
        after.skip(panel.frame_len() as int) == before.skip(panel.frame_len() as int),
{
    let n = panel.frame_len() as int;
    assert(after.subrange(0, n) =~= panel.frame());
    assert(after.skip(n) =~= before.skip(n));
}

/// Both ways of encoding agree: the beginning of a filled buffer is the frame
/// that is built on its own, whatever the buffer held before.
pub proof fn lemma_buffer_agrees_with_built(
    panel: Panel,
    before: Seq<u8>,
    after: Seq<u8>,
    built: Seq<u8>,
)
    requires
        panel.wf(),
        before.len() >= panel.frame_len(),
        panel.fills(before, after),
        built == panel.frame(),
    ensures
        built.len() == panel.frame_len(),
        after.subrange(0, panel.frame_len() as int) == built,
{
    lemma_filled_buffer(panel, before, after);
}

/// Encoding again, with no pixel written in between, gives the same bytes:
/// two frames built of one display are equal, and a buffer that already holds
/// the frame is not changed by writing the frame into it once more.
pub proof fn lemma_encoding_repeats(
    panel: Panel,
    first: Seq<u8>,
    second: Seq<u8>,
    before: Seq<u8>,
    once: Seq<u8>,
    twice: Seq<u8>,
)
    requires
        panel.wf(),
        first == panel.frame(),
        second == panel.frame(),
        before.len() >= panel.frame_len(),
        panel.fills(before, once),
        panel.fills(once, twice),
    ensures
        first == second,
        twice == once,
{
    lemma_filled_buffer(panel, before, once);
    lemma_filled_buffer(panel, once, twice);
    assert(twice =~= once);
}

/// Dots that all lie off the display leave it as it is, whether a coordinate
/// is too large or negative.
pub proof fn lemma_draw_clips(panel: Panel, dots: Seq<Dot>)
    requires
        forall|i: int| 0 <= i < dots.len() ==> !panel.contains(dots[i].x as int, dots[i].y as int),
    ensures
        panel.draw(dots) == panel,
    decreases dots.len(),
{
    if dots.len() > 0 {
        lemma_draw_clips(panel, dots.drop_last());
    }
}

/// Drawing keeps the address and the extent, and the display well-formed.
pub proof fn lemma_draw_keeps_shape(panel: Panel, dots: Seq<Dot>)
    requires
        panel.wf(),
    ensures
        panel.draw(dots).wf(),
        panel.draw(dots).address == panel.address,
        panel.draw(dots).width == panel.width,
        panel.draw(dots).height == panel.height,
    decreases dots.len(),
{
    if dots.len() > 0 {
        lemma_draw_keeps_shape(panel, dots.drop_last());
        let drawn = panel.draw(dots.drop_last());
        let last = dots.last();
        if drawn.contains(last.x as int, last.y as int) {
            lemma_index_in_range(drawn.width, drawn.height, last.x as int, last.y as int);
        }
    }
}

/// A position off the display is clipped: plotting it changes nothing.
pub proof fn lemma_plot_clips(panel: Panel, x: int, y: int, on: bool)
    requires
        !panel.contains(x, y),
    ensures
        panel.plot(x, y, on) == panel,
{
}

/// Plotting a position on the display writes that pixel and no other.
pub proof fn lemma_plot_writes_one(panel: Panel, x: int, y: int, on: bool)
    requires
        panel.wf(),
        panel.contains(x, y),
    ensures
        panel.plot(x, y, on).wf(),
        0 <= panel.index(x, y) < panel.pixels.len(),
        panel.plot(x, y, on).pixels[panel.index(x, y)] == on,
        forall|i: int|
            0 <= i < panel.pixels.len() && i != panel.index(x, y) ==> panel.plot(
                x,
                y,
                on,
            ).pixels[i] == panel.pixels[i],
{
    lemma_index_in_range(panel.width, panel.height, x, y);
}

/// The index of a position on the display is below the number of pixels.
pub proof fn lemma_index_in_range(width: nat, height: nat, x: int, y: int)
    requires
        0 <= x < width,
        0 <= y < height,
    ensures
        0 <= x * height + y < width * height,
{
    assert(x * height + y < width * height) by (nonlinear_arith)
        requires
            0 <= x < width,
            0 <= y < height,
    ;
    assert(0 <= x * height) by (nonlinear_arith)
        requires
            0 <= x,
            0 <= height,
    ;
}

/// Different positions on the display have different indices.
pub proof fn lemma_index_injective(height: nat, x1: int, y1: int, x2: int, y2: int)
    requires
        0 <= y1 < height,
        0 <= y2 < height,
        x1 * height + y1 == x2 * height + y2,
    ensures
        x1 == x2,
        y1 == y2,
{
    assert(x1 == x2) by (nonlinear_arith)
        requires
            0 <= y1 < height,
            0 <= y2 < height,
            x1 * height + y1 == x2 * height + y2,
    ;
}

/// Computes the checksum that closes a frame with the given address byte,
/// resolution byte and packed pixels.
pub(crate) fn checksum_of(header: u8, resolution: u8, payload: &[u8]) -> (sum: u8)
    ensures
        sum == checksum((seq![header, resolution] + payload@).push(END_OF_FRAME)),
{
    let ghost front = seq![header, resolution];
    let mut total: u8 = header.wrapping_add(resolution);
    proof {
        assert(front =~= Seq::<u8>::empty().push(header).push(resolution));
        lemma_byte_sum_push(Seq::<u8>::empty(), header);
        lemma_byte_sum_push(Seq::<u8>::empty().push(header), resolution);
        assert(front + payload@.subrange(0, 0) =~= front);
    }
    let mut i: usize = 0;
    while i < payload.len()
        invariant
            i <= payload@.len(),
            front == seq![header, resolution],
            total == byte_sum(front + payload@.subrange(0, i as int)) % 256,
        decreases payload@.len() - i,
    {
        proof {
            let summed = front + payload@.subrange(0, i as int);
            assert(front + payload@.subrange(0, i + 1) =~= summed.push(payload@[i as int]));
            lemma_byte_sum_push(summed, payload@[i as int]);
        }
        total = total.wrapping_add(payload[i]);
        i += 1;
    }
    proof {
        assert(payload@.subrange(0, i as int) =~= payload@);
        lemma_byte_sum_push(front + payload@, END_OF_FRAME);
    }
    total = total.wrapping_add(END_OF_FRAME);
    (total ^ 0xFF).wrapping_add(1)
}

} // verus!
