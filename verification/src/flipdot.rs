//! The display itself: a pixel grid that is written dot by dot and encoded
//! into a frame on request.

use crate::frame::checksum_of;
use crate::frame::lemma_hex_expand_push;
use crate::frame::lemma_index_in_range;
use crate::frame::Dot;
use crate::frame::Panel;
use crate::frame::ADDRESS_LIMIT;
use crate::frame::ADDRESS_OFFSET;
use crate::frame::END_OF_FRAME;
use crate::frame::START_OF_FRAME;
use crate::frame::hex_expand;
use crate::hex::byte_to_hex;
use crate::hex::hex_high;
use crate::hex::hex_low;
use crate::packing::lemma_pack_all_off;
use crate::packing::lemma_pack_update;
use crate::packing::pack;
use crate::storage::head_offset;
use crate::storage::raw_bytes;
use crate::storage::raw_slice;
use crate::storage::set_bit;
use crate::storage::stored_bits;
use crate::storage::zeroed_bits;
use crate::storage::PixelBits;
use vstd::prelude::*;

verus! {

/// Why a display could not be made, or a frame not written.
#[derive(Clone, Copy, Debug, PartialEq, Eq)]
pub enum FlipdotError {
    /// The address is not one of the sixteen that the switch can select.
    InvalidAddress,
    /// The buffer is shorter than the frame.
    BufferTooSmall,
}

/// A flip-dot display of fixed extent, behind a controller with a fixed
/// address.
pub struct HanoverFlipdot {
    addr: u8,
    w: u32,
    h: u32,
    framebuffer: PixelBits,
}

impl View for HanoverFlipdot {
    type V = Panel;

    closed spec fn view(&self) -> Panel {
        Panel {
            address: self.addr as nat,
            width: self.w as nat,
            height: self.h as nat,
            pixels: stored_bits(self.framebuffer),
        }
    }
}

impl HanoverFlipdot {
    /// The stored bytes are the packed pixels, the first pixel in the least
    /// significant bit of the first byte.
    pub closed spec fn packed(&self) -> bool {
        &&& head_offset(self.framebuffer) == 0
        &&& raw_bytes(self.framebuffer) == pack(stored_bits(self.framebuffer))
    }

    /// The display is one that `new` made and `set_pixel` and `draw_iter`
    /// wrote to.
    pub open spec fn wf(&self) -> bool {
        &&& self@.wf()
        &&& self@.width * self@.height <= u32::MAX
        &&& self@.width * self@.height <= usize::MAX / 8
        &&& self.packed()
    }

    /// Makes a display of `w` columns and `h` rows with every pixel off.
    /// `addr` is the value selected on the address switch of the controller.
    pub fn new(w: u32, h: u32, addr: u8) -> (made: Result<Self, FlipdotError>)
        requires
            addr < ADDRESS_LIMIT ==> w * h <= u32::MAX,
            addr < ADDRESS_LIMIT ==> w * h <= usize::MAX / 8,
        ensures
            addr >= ADDRESS_LIMIT <==> made == Err::<Self, FlipdotError>(
                FlipdotError::InvalidAddress,
            ),
            addr < ADDRESS_LIMIT <==> made is Ok,
            made matches Ok(display) ==> display.wf() && display@ == Panel::blank(
                w as nat,
                h as nat,
                addr as nat,
            ),
    {
        if addr >= ADDRESS_LIMIT {
            return Err(FlipdotError::InvalidAddress);
        }
        let count: u32 = w * h;
        let framebuffer = zeroed_bits(count as usize);
        proof {
            lemma_pack_all_off(count as nat);
        }
        Ok(Self { addr, w, h, framebuffer })
    }

    /// The extent of the display: columns, then rows.
    pub fn size(&self) -> (extent: (u32, u32))
        ensures
            extent.0 == self@.width,
            extent.1 == self@.height,
    {
        (self.w, self.h)
    }

    /// The length of the frame in bytes.
    pub fn get_packet_size(&self) -> (size: usize)
        requires
            self.wf(),
        ensures
            size == self@.frame_len(),
    {
        let count: u32 = self.w * self.h;
        let partial: u32 = if count % 8 == 0 {
            0
        } else {
            1
        };
        // One bit per pixel, plus address, resolution and checksum bytes,
        // each sent as two characters, plus start and end byte.
        let size: u32 = (count / 8 + partial + 3) * 2 + 2;
        size as usize
    }

    /// Encodes the pixels as they are now into a frame at the beginning of
    /// `buf`. A buffer shorter than `get_packet_size()` is refused and left
    /// as it was; of a longer one, what follows the frame is left as it was.
    pub fn make_packet(&self, buf: &mut [u8]) -> (written: Result<(), FlipdotError>)
        requires
            self.wf(),
        ensures
            old(buf)@.len() < self@.frame_len() <==> written == Err::<(), FlipdotError>(
                FlipdotError::BufferTooSmall,
            ),
            old(buf)@.len() >= self@.frame_len() <==> written is Ok,
            written is Err ==> final(buf)@ == old(buf)@,
            written is Ok ==> self@.fills(old(buf)@, final(buf)@),
    {
        let size = self.get_packet_size();
        if buf.len() < size {
            return Err(FlipdotError::BufferTooSmall);
        }
        let ghost before = buf@;
        let ghost fields = self@.fields();
        let count: u32 = self.w * self.h;
        let raw = raw_slice(&self.framebuffer);
        let header: u8 = self.addr + ADDRESS_OFFSET;
        let resolution: u8 = ((count / 8) % 256) as u8;
        buf[0] = START_OF_FRAME;
        let pair = byte_to_hex(&header);
        buf[1] = pair[0];
        buf[2] = pair[1];
        let pair = byte_to_hex(&resolution);
        buf[3] = pair[0];
        buf[4] = pair[1];
        let mut i: usize = 5;
        let mut k: usize = 0;
        while k < raw.len()
            invariant
                buf@.len() == before.len(),
                fields == seq![self@.header(), self@.resolution()] + raw@,
                size == 2 * (3 + raw@.len()) + 2,
                size <= buf@.len(),
                k <= raw@.len(),
                i == 5 + 2 * k,
                buf@[0] == START_OF_FRAME,
                forall|j: int|
                    0 <= j < 2 + k ==> buf@[1 + 2 * j] == hex_high(#[trigger] fields[j]) && buf@[2
                        + 2 * j] == hex_low(fields[j]),
                forall|j: int| i <= j < buf@.len() ==> buf@[j] == before[j],
            decreases raw@.len() - k,
        {
            let pair = byte_to_hex(&raw[k]);
            buf[i] = pair[0];
            buf[i + 1] = pair[1];
            i += 2;
            k += 1;
        }
        buf[i] = END_OF_FRAME;
        let sum = checksum_of(header, resolution, raw);
        let pair = byte_to_hex(&sum);
        buf[i + 1] = pair[0];
        buf[i + 2] = pair[1];
        proof {
            assert(buf@ =~= self@.frame() + before.skip(size as int));
        }
        Ok(())
    }

    /// Encodes the pixels as they are now into a frame of its own.
    pub fn write_vec(&self) -> (data: Vec<u8>)
        requires
            self.wf(),
        ensures
            data@ == self@.frame(),
            data@.len() == self@.frame_len(),
    {
        let ghost fields = self@.fields();
        let count: u32 = self.w * self.h;
        let raw = raw_slice(&self.framebuffer);
        let mut data: Vec<u8> = Vec::new();
        let header: u8 = self.addr + ADDRESS_OFFSET;
        let resolution: u8 = ((count / 8) % 256) as u8;
        data.push(START_OF_FRAME);
        let pair = byte_to_hex(&header);
        data.push(pair[0]);
        data.push(pair[1]);
        let pair = byte_to_hex(&resolution);
        data.push(pair[0]);
        data.push(pair[1]);
        proof {
            assert(data@ =~= seq![START_OF_FRAME] + hex_expand(fields.subrange(0, 2)));
        }
        let mut k: usize = 0;
        while k < raw.len()
            invariant
                fields == seq![self@.header(), self@.resolution()] + raw@,
                k <= raw@.len(),
                data@ == seq![START_OF_FRAME] + hex_expand(fields.subrange(0, 2 + k)),
            decreases raw@.len() - k,
        {
            let pair = byte_to_hex(&raw[k]);
            data.push(pair[0]);
            data.push(pair[1]);
            proof {
                let sent = fields.subrange(0, 2 + k);
                lemma_hex_expand_push(sent, raw@[k as int]);
                assert(fields.subrange(0, 2 + k + 1) =~= sent.push(raw@[k as int]));
                assert(data@ =~= seq![START_OF_FRAME] + hex_expand(sent.push(raw@[k as int])));
            }
            k += 1;
        }
        data.push(END_OF_FRAME);
        proof {
            assert(fields.subrange(0, 2 + k) =~= fields);
        }
        let sum = checksum_of(header, resolution, raw);
        let pair = byte_to_hex(&sum);
        data.push(pair[0]);
        data.push(pair[1]);
        proof {
            assert(data@ =~= self@.frame());
        }
        data
    }

    /// Writes the pixel at column `x` and row `y`. A position off the display
    /// is clipped: nothing is written.
    pub fn set_pixel(&mut self, x: u32, y: u32, on: bool)
        requires
            old(self).wf(),
        ensures
            final(self).wf(),
            final(self)@ == old(self)@.plot(x as int, y as int, on),
    {
        if x < self.w && y < self.h {
            proof {
                lemma_index_in_range(self.w as nat, self.h as nat, x as int, y as int);
            }
            let index: u32 = x * self.h + y;
            proof {
                lemma_pack_update(stored_bits(self.framebuffer), index as int, on);
            }
            set_bit(&mut self.framebuffer, index as usize, on);
        }
    }

    /// Draws the dots one after the other, each clipped to the display.
    pub fn draw_iter(&mut self, pixels: &[Dot])
        requires
            old(self).wf(),
        ensures
            final(self).wf(),
            final(self)@ == old(self)@.draw(pixels@),
    {
        let mut i: usize = 0;
        while i < pixels.len()
            invariant
                self.wf(),
                i <= pixels@.len(),
                self@ == old(self)@.draw(pixels@.subrange(0, i as int)),
            decreases pixels@.len() - i,
        {
            let dot = pixels[i];
            proof {
                assert(pixels@.subrange(0, i + 1).drop_last() =~= pixels@.subrange(0, i as int));
            }
            if dot.x >= 0 && dot.y >= 0 {
                self.set_pixel(dot.x as u32, dot.y as u32, dot.on);
            }
            i += 1;
        }
        proof {
            assert(pixels@.subrange(0, i as int) =~= pixels@);
        }
    }
}

} // verus!
