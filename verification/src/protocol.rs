//! The preview protocol: the layout of the shared memory that rendered frames
//! travel through, and the commands and events that go along with it.

use crate::text::{decimal_text, joined};
use vstd::prelude::*;

verus! {

/// The bytes `GMAN`, read as a little-endian number.
pub const PREVIEW_SHM_MAGIC: u32 = 0x4E41_4D47;

pub const PREVIEW_SHM_VERSION: u32 = 3;

pub const PREVIEW_SHM_ALIGNMENT: usize = 64;

pub const PREVIEW_SLOT_COUNT: u32 = 16;

pub const PREVIEW_MAX_SLOT_COUNT: usize = 16;

/// What the header takes up in shared memory: eight 32-bit words, then a
/// 64-bit request id and a 64-bit frame number for each slot.
pub const PREVIEW_SHM_HEADER_SIZE: usize = 288;

/// The frame word of a slot that nothing has been published in.
pub const UNPUBLISHED_FRAME: u64 = 0xFFFF_FFFF_FFFF_FFFF;

#[derive(Clone, Copy, Debug, Eq, PartialEq, Structural)]
pub enum PreviewPixelFormat {
    Rgba8Unorm,
}

impl PreviewPixelFormat {
    /// The number that stands for the format in the header.
    pub open spec fn raw(self) -> u32 {
        match self {
            PreviewPixelFormat::Rgba8Unorm => 1,
        }
    }

    /// The size of one pixel.
    pub open spec fn pixel_bytes(self) -> u32 {
        match self {
            PreviewPixelFormat::Rgba8Unorm => 4,
        }
    }

    pub fn from_raw(value: u32) -> (format: Option<Self>)
        ensures
            format matches Some(f) ==> f.raw() == value,
            format is None ==> forall|f: PreviewPixelFormat| #[trigger] f.raw() != value,
    {
        match value {
            1 => Some(PreviewPixelFormat::Rgba8Unorm),
            _ => None,
        }
    }

    pub fn to_raw(self) -> (value: u32)
        ensures
            value == self.raw(),
    {
        match self {
            PreviewPixelFormat::Rgba8Unorm => 1,
        }
    }

    pub fn bytes_per_pixel(self) -> (bytes: u32)
        ensures
            bytes == self.pixel_bytes(),
    {
        match self {
            PreviewPixelFormat::Rgba8Unorm => 4,
        }
    }
}

#[derive(Clone, Copy, Debug, Eq, PartialEq, Structural)]
pub enum PreviewLayoutError {
    ZeroDimension,
    Overflow,
    InvalidMagic,
    UnsupportedVersion(u32),
    InvalidHeaderSize,
    InvalidStride,
    UnsupportedPixelFormat(u32),
}

impl PreviewLayoutError {
    /// The text that a person is shown for the error.
    pub open spec fn description(self) -> Seq<char> {
        match self {
            PreviewLayoutError::ZeroDimension => "preview dimensions and capacity must be non-zero"@,
            PreviewLayoutError::Overflow => "preview shared-memory size overflow"@,
            PreviewLayoutError::InvalidMagic => "invalid preview shared-memory magic"@,
            PreviewLayoutError::UnsupportedVersion(version) => {
                "unsupported preview protocol version "@ + crate::text::decimal(version as nat)
            },
            PreviewLayoutError::InvalidHeaderSize => "invalid preview shared-memory header size"@,
            PreviewLayoutError::InvalidStride => "preview stride is smaller than a packed row"@,
            PreviewLayoutError::UnsupportedPixelFormat(format) => {
                "unsupported preview pixel format "@ + crate::text::decimal(format as nat)
            },
        }
    }

    pub fn message(&self) -> (message: String)
        ensures
            message@ == self.description(),
    {
        match *self {
            PreviewLayoutError::ZeroDimension => {
                "preview dimensions and capacity must be non-zero".to_owned()
            },
            PreviewLayoutError::Overflow => "preview shared-memory size overflow".to_owned(),
            PreviewLayoutError::InvalidMagic => "invalid preview shared-memory magic".to_owned(),
            PreviewLayoutError::UnsupportedVersion(version) => {
                joined("unsupported preview protocol version ", decimal_text(version as u128).as_str())
            },
            PreviewLayoutError::InvalidHeaderSize => {
                "invalid preview shared-memory header size".to_owned()
            },
            PreviewLayoutError::InvalidStride => {
                "preview stride is smaller than a packed row".to_owned()
            },
            PreviewLayoutError::UnsupportedPixelFormat(format) => {
                joined("unsupported preview pixel format ", decimal_text(format as u128).as_str())
            },
        }
    }
}

/// Where the first frame starts: the end of the header, rounded up to the
/// alignment.
pub open spec fn data_offset() -> nat {
    ((PREVIEW_SHM_HEADER_SIZE + PREVIEW_SHM_ALIGNMENT - 1) / (PREVIEW_SHM_ALIGNMENT as int)
        * PREVIEW_SHM_ALIGNMENT) as nat
}

pub fn preview_data_offset() -> (offset: usize)
    ensures
        offset == data_offset(),
        offset % PREVIEW_SHM_ALIGNMENT == 0,
        PREVIEW_SHM_HEADER_SIZE <= offset < PREVIEW_SHM_HEADER_SIZE + PREVIEW_SHM_ALIGNMENT,
{
    let past: usize = PREVIEW_SHM_HEADER_SIZE % PREVIEW_SHM_ALIGNMENT;
    if past == 0 {
        PREVIEW_SHM_HEADER_SIZE
    } else {
        PREVIEW_SHM_HEADER_SIZE + (PREVIEW_SHM_ALIGNMENT - past)
    }
}

#[derive(Clone, Copy, Debug, Eq, PartialEq, Structural)]
pub struct PreviewLayout {
    pub width: u32,
    pub height: u32,
    pub stride: u32,
    pub capacity: u32,
    pub pixel_format: PreviewPixelFormat,
    pub frame_size: usize,
    pub total_size: usize,
}

/// There is no picture, or no slot for it, or there are more slots than the
/// header has room for.
pub open spec fn has_zero_dimension(width: u32, height: u32, capacity: u32) -> bool {
    width == 0 || height == 0 || capacity == 0 || capacity > PREVIEW_MAX_SLOT_COUNT
}

/// The bytes of a row without padding.
pub open spec fn packed_row(width: u32, pixel_format: PreviewPixelFormat) -> int {
    width * pixel_format.pixel_bytes()
}

/// The header and all frames taken together.
pub open spec fn memory_size(height: u32, stride: u32, capacity: u32) -> int {
    data_offset() + (stride * height) * capacity
}

/// The layout of a preview with these dimensions, or what is wrong with them.
pub open spec fn layout_of(
    width: u32,
    height: u32,
    stride: u32,
    capacity: u32,
    pixel_format: PreviewPixelFormat,
) -> Result<PreviewLayout, PreviewLayoutError> {
    if has_zero_dimension(width, height, capacity) {
        Err(PreviewLayoutError::ZeroDimension)
    } else if packed_row(width, pixel_format) > u32::MAX {
        Err(PreviewLayoutError::Overflow)
    } else if stride < packed_row(width, pixel_format) {
        Err(PreviewLayoutError::InvalidStride)
    } else if memory_size(height, stride, capacity) > usize::MAX {
        Err(PreviewLayoutError::Overflow)
    } else {
        Ok(
            PreviewLayout {
                width,
                height,
                stride,
                capacity,
                pixel_format,
                frame_size: (stride * height) as usize,
                total_size: memory_size(height, stride, capacity) as usize,
            },
        )
    }
}

/// The layout of a preview whose rows are packed: like `layout_of`, but a row
/// that cannot be measured is reported before anything else.
pub open spec fn packed_layout_of(
    width: u32,
    height: u32,
    capacity: u32,
    pixel_format: PreviewPixelFormat,
) -> Result<PreviewLayout, PreviewLayoutError> {
    if packed_row(width, pixel_format) > u32::MAX {
        Err(PreviewLayoutError::Overflow)
    } else {
        layout_of(width, height, packed_row(width, pixel_format) as u32, capacity, pixel_format)
    }
}

impl PreviewLayout {
    pub fn packed_rgba(width: u32, height: u32, capacity: u32) -> (result: Result<
        Self,
        PreviewLayoutError,
    >)
        ensures
            result == packed_layout_of(width, height, capacity, PreviewPixelFormat::Rgba8Unorm),
    {
        match width.checked_mul(4) {
            Some(stride) => Self::new(
                width,
                height,
                stride,
                capacity,
                PreviewPixelFormat::Rgba8Unorm,
            ),
            None => Err(PreviewLayoutError::Overflow),
        }
    }

    pub fn new(
        width: u32,
        height: u32,
        stride: u32,
        capacity: u32,
        pixel_format: PreviewPixelFormat,
    ) -> (result: Result<Self, PreviewLayoutError>)
        ensures
            result == layout_of(width, height, stride, capacity, pixel_format),
    {
        if width == 0 || height == 0 || capacity == 0 || capacity as usize > PREVIEW_MAX_SLOT_COUNT {
            return Err(PreviewLayoutError::ZeroDimension);
        }
        let packed_stride = match width.checked_mul(pixel_format.bytes_per_pixel()) {
            Some(packed_stride) => packed_stride,
            None => return Err(PreviewLayoutError::Overflow),
        };
        if stride < packed_stride {
            return Err(PreviewLayoutError::InvalidStride);
        }
        let ghost frame = stride * height;
        assert(0 <= frame <= frame * capacity) by (nonlinear_arith)
            requires
                frame == stride * height,
                capacity >= 1,
        ;
        let frame_size = match (stride as usize).checked_mul(height as usize) {
            Some(frame_size) => frame_size,
            None => return Err(PreviewLayoutError::Overflow),
        };
        let frames_size = match frame_size.checked_mul(capacity as usize) {
            Some(frames_size) => frames_size,
            None => return Err(PreviewLayoutError::Overflow),
        };
        let total_size = match preview_data_offset().checked_add(frames_size) {
            Some(total_size) => total_size,
            None => return Err(PreviewLayoutError::Overflow),
        };
        Ok(
            PreviewLayout {
                width,
                height,
                stride,
                capacity,
                pixel_format,
                frame_size,
                total_size,
            },
        )
    }

    /// The slot that a frame index falls in.
    pub open spec fn slot_of(self, frame_index: u64) -> int {
        (frame_index as usize) as int % self.capacity as int
    }

    /// The first byte of a slot.
    pub open spec fn slot_start(self, slot: int) -> int {
        data_offset() + slot * self.frame_size
    }

    pub fn frame_offset(self, frame_index: u64) -> (offset: usize)
        requires
            self.capacity > 0,
            self.slot_start(self.slot_of(frame_index)) <= usize::MAX,
        ensures
            offset == self.slot_start(self.slot_of(frame_index)),
    {
        let slot: usize = frame_index as usize % self.capacity as usize;
        proof {
            assert(0 <= slot * self.frame_size) by (nonlinear_arith);
        }
        preview_data_offset() + slot * self.frame_size
    }

    /// The layout is one that `PreviewLayout::new` gives.
    pub open spec fn wf(self) -> bool {
        layout_of(self.width, self.height, self.stride, self.capacity, self.pixel_format) == Ok::<
            PreviewLayout,
            PreviewLayoutError,
        >(self)
    }
}

/// The low 32 bits of a number.
pub open spec fn low_word(n: u64) -> u32 {
    (n % 0x1_0000_0000) as u32
}

/// The low 32 bits of a number.
pub fn truncated(n: u64) -> (word: u32)
    ensures
        word == low_word(n),
{
    let word: u32 = #[verifier::truncate] (n as u32);
    assert(word == (n % 0x1_0000_0000) as u32) by (bit_vector)
        requires
            word == n as u32,
    ;
    word
}

/// What stands at the front of the shared memory, as one process sees it at one
/// moment. The renderer publishes a slot by storing the frame word first and
/// the request id behind it.
#[derive(Debug)]
pub struct PreviewShmHeader {
    pub magic: u32,
    pub version: u32,
    pub header_size: u32,
    pub capacity: u32,
    pub width: u32,
    pub height: u32,
    pub stride: u32,
    pub pixel_format: u32,
    pub published_request_ids: [u64; PREVIEW_MAX_SLOT_COUNT],
    pub published_frames: [u64; PREVIEW_MAX_SLOT_COUNT],
}

impl PreviewShmHeader {
    /// Everything but the publications is the same.
    pub open spec fn same_geometry(self, other: Self) -> bool {
        &&& self.magic == other.magic
        &&& self.version == other.version
        &&& self.header_size == other.header_size
        &&& self.capacity == other.capacity
        &&& self.width == other.width
        &&& self.height == other.height
        &&& self.stride == other.stride
        &&& self.pixel_format == other.pixel_format
    }

    /// The header describes `layout`, and nothing has been published yet.
    pub open spec fn is_new(self, layout: PreviewLayout) -> bool {
        &&& self.magic == PREVIEW_SHM_MAGIC
        &&& self.version == PREVIEW_SHM_VERSION
        &&& self.header_size == data_offset()
        &&& self.capacity == layout.capacity
        &&& self.width == layout.width
        &&& self.height == layout.height
        &&& self.stride == layout.stride
        &&& self.pixel_format == layout.pixel_format.raw()
        &&& self.published_request_ids@ == Seq::new(
            PREVIEW_MAX_SLOT_COUNT as nat,
            |slot: int| 0u64,
        )
        &&& self.published_frames@ == Seq::new(
            PREVIEW_MAX_SLOT_COUNT as nat,
            |slot: int| UNPUBLISHED_FRAME,
        )
    }

    /// The header after a publication in `slot`.
    pub open spec fn is_published(
        self,
        before: Self,
        slot: int,
        request_id: u64,
        frame: u32,
    ) -> bool {
        &&& self.same_geometry(before)
        &&& self.published_request_ids@ == before.published_request_ids@.update(slot, request_id)
        &&& self.published_frames@ == before.published_frames@.update(slot, frame as u64)
    }

    /// The request and the frame that were last published in a slot.
    pub open spec fn publication(self, slot: int) -> Option<(u64, u32)> {
        if 0 <= slot < self.capacity && self.published_frames@[slot] != UNPUBLISHED_FRAME {
            Some((self.published_request_ids@[slot], low_word(self.published_frames@[slot])))
        } else {
            None
        }
    }

    /// The layout that the header describes, or what is wrong with the header.
    pub open spec fn described_layout(self) -> Result<PreviewLayout, PreviewLayoutError> {
        if self.magic != PREVIEW_SHM_MAGIC {
            Err(PreviewLayoutError::InvalidMagic)
        } else if self.version != PREVIEW_SHM_VERSION {
            Err(PreviewLayoutError::UnsupportedVersion(self.version))
        } else if self.header_size != data_offset() {
            Err(PreviewLayoutError::InvalidHeaderSize)
        } else if self.pixel_format != PreviewPixelFormat::Rgba8Unorm.raw() {
            Err(PreviewLayoutError::UnsupportedPixelFormat(self.pixel_format))
        } else {
            layout_of(
                self.width,
                self.height,
                self.stride,
                self.capacity,
                PreviewPixelFormat::Rgba8Unorm,
            )
        }
    }

    pub fn new(width: u32, height: u32, capacity: u32, pixel_format: PreviewPixelFormat) -> (result:
        Result<Self, PreviewLayoutError>)
        ensures
            match (result, packed_layout_of(width, height, capacity, pixel_format)) {
                (Ok(header), Ok(layout)) => header.is_new(layout),
                (Err(error), Err(expected)) => error == expected,
                _ => false,
            },
    {
        let stride = match width.checked_mul(pixel_format.bytes_per_pixel()) {
            Some(stride) => stride,
            None => return Err(PreviewLayoutError::Overflow),
        };
        match PreviewLayout::new(width, height, stride, capacity, pixel_format) {
            Ok(_) => {
                let header = PreviewShmHeader {
                    magic: PREVIEW_SHM_MAGIC,
                    version: PREVIEW_SHM_VERSION,
                    header_size: preview_data_offset() as u32,
                    capacity,
                    width,
                    height,
                    stride,
                    pixel_format: pixel_format.to_raw(),
                    published_request_ids: [0u64; PREVIEW_MAX_SLOT_COUNT],
                    published_frames: [UNPUBLISHED_FRAME; PREVIEW_MAX_SLOT_COUNT],
                };
                assert(header.published_request_ids@ =~= Seq::new(
                    PREVIEW_MAX_SLOT_COUNT as nat,
                    |slot: int| 0u64,
                ));
                assert(header.published_frames@ =~= Seq::new(
                    PREVIEW_MAX_SLOT_COUNT as nat,
                    |slot: int| UNPUBLISHED_FRAME,
                ));
                Ok(header)
            },
            Err(error) => Err(error),
        }
    }

    pub fn layout(&self) -> (result: Result<PreviewLayout, PreviewLayoutError>)
        ensures
            result == self.described_layout(),
    {
        if self.magic != PREVIEW_SHM_MAGIC {
            return Err(PreviewLayoutError::InvalidMagic);
        }
        if self.version != PREVIEW_SHM_VERSION {
            return Err(PreviewLayoutError::UnsupportedVersion(self.version));
        }
        if self.header_size as usize != preview_data_offset() {
            return Err(PreviewLayoutError::InvalidHeaderSize);
        }
        match PreviewPixelFormat::from_raw(self.pixel_format) {
            Some(pixel_format) => PreviewLayout::new(
                self.width,
                self.height,
                self.stride,
                self.capacity,
                pixel_format,
            ),
            None => {
                assert(PreviewPixelFormat::Rgba8Unorm.raw() != self.pixel_format);
                Err(PreviewLayoutError::UnsupportedPixelFormat(self.pixel_format))
            },
        }
    }

    pub fn publish(&mut self, slot: u32, request_id: u64, frame: u32)
        requires
            slot < old(self).capacity,
            slot < PREVIEW_MAX_SLOT_COUNT,
        ensures
            final(self).is_published(*old(self), slot as int, request_id, frame),
            final(self).publication(slot as int) == Some((request_id, frame)),
    {
        let index: usize = slot as usize;
        self.published_frames[index] = frame as u64;
        self.published_request_ids[index] = request_id;
    }

    pub fn published(&self, slot: u32) -> (publication: Option<(u64, u32)>)
        requires
            slot < self.capacity ==> slot < PREVIEW_MAX_SLOT_COUNT,
        ensures
            publication == self.publication(slot as int),
    {
        let index: usize = slot as usize;
        if index >= self.capacity as usize {
            return None;
        }
        let request_id = self.published_request_ids[index];
        let frame = self.published_frames[index];
        if frame != UNPUBLISHED_FRAME {
            Some((request_id, truncated(frame)))
        } else {
            None
        }
    }
}

/// What the editor asks of the renderer.
#[derive(Debug)]
pub enum EditorCommand {
    LoadScene { name: String },
    OpenPreview { shm_id: String },
    RenderFrame { request_id: u64, frame: u32, slot: u32 },
    Quit,
}

/// What the renderer reports to the editor.
#[derive(Debug)]
pub enum EditorEvent {
    ScenesInfo { scenes: Vec<String> },
    SceneReady { total_frames: u64, width: u32, height: u32, framerate: u32 },
    PreviewOpened,
    FrameReady { request_id: u64, frame: u32, slot: u32 },
    Error { message: String },
}

/// The first frame is aligned and lies behind the header.
pub proof fn data_follows_the_header_aligned()
    ensures
        data_offset() % (PREVIEW_SHM_ALIGNMENT as nat) == 0,
        data_offset() >= PREVIEW_SHM_HEADER_SIZE,
{
}

/// A new header gives back the layout that it was made for.
pub proof fn new_header_describes_its_layout(header: PreviewShmHeader, layout: PreviewLayout)
    requires
        layout.wf(),
        header.is_new(layout),
    ensures
        header.described_layout() == Ok::<PreviewLayout, PreviewLayoutError>(layout),
{
}

/// Packed dimensions that are accepted give a well-formed layout.
pub proof fn packed_layout_is_well_formed(
    width: u32,
    height: u32,
    capacity: u32,
    pixel_format: PreviewPixelFormat,
)
    ensures
        packed_layout_of(width, height, capacity, pixel_format) matches Ok(layout) ==> layout.wf(),
{
}

/// Nothing is published in a new header.
pub proof fn new_header_has_no_publication(
    header: PreviewShmHeader,
    layout: PreviewLayout,
    slot: int,
)
    requires
        layout.wf(),
        header.is_new(layout),
    ensures
        header.publication(slot) is None,
{
}

/// A publication is read back from its own slot, every other slot reads as
/// before, and the described layout does not change.
pub proof fn publication_is_read_back(
    before: PreviewShmHeader,
    after: PreviewShmHeader,
    slot: int,
    request_id: u64,
    frame: u32,
)
    requires
        0 <= slot < before.capacity,
        slot < PREVIEW_MAX_SLOT_COUNT,
        after.is_published(before, slot, request_id, frame),
    ensures
        after.publication(slot) == Some((request_id, frame)),
        forall|other: int|
            other != slot && other < PREVIEW_MAX_SLOT_COUNT ==> #[trigger] after.publication(other)
                == before.publication(other),
        after.described_layout() == before.described_layout(),
{
}

/// Every slot lies behind the header and inside the memory, and every row that
/// is read of a slot lies inside the slot.
pub proof fn slot_lies_in_memory(layout: PreviewLayout, slot: int, row: int)
    requires
        layout.wf(),
        0 <= slot < layout.capacity,
        0 <= row < layout.height,
    ensures
        data_offset() <= layout.slot_start(slot),
        layout.slot_start(slot) + layout.frame_size <= layout.total_size,
        0 <= row * layout.stride,
        row * layout.stride + packed_row(layout.width, layout.pixel_format) <= layout.frame_size,
{
    let size = layout.stride * layout.height;
    let capacity = layout.capacity as int;
    let stride = layout.stride as int;
    let height = layout.height as int;
    assert(0 <= size <= size * capacity) by (nonlinear_arith)
        requires
            size == layout.stride * layout.height,
            capacity >= 1,
    ;
    assert(layout.frame_size == size);
    assert(0 <= slot * size && slot * size + size <= size * capacity) by (nonlinear_arith)
        requires
            0 <= slot < capacity,
            size >= 0,
    ;
    assert(0 <= row * stride && row * stride + stride <= stride * height) by (nonlinear_arith)
        requires
            0 <= row < height,
            stride >= 0,
    ;
}

/// The slots lie one behind the other: no two share a byte.
pub proof fn slots_do_not_overlap(layout: PreviewLayout, a: int, b: int)
    requires
        layout.wf(),
        0 <= a < b < layout.capacity,
    ensures
        layout.slot_start(a) + layout.frame_size <= layout.slot_start(b),
{
    let size = layout.frame_size as int;
    assert(a * size + size <= b * size) by (nonlinear_arith)
        requires
            0 <= a < b,
            size >= 0,
    ;
}

/// The packed picture of a well-formed layout can be measured.
pub proof fn picture_fits(layout: PreviewLayout)
    requires
        layout.wf(),
    ensures
        layout.width * layout.height * 4 <= usize::MAX,
{
    let w = layout.width as int;
    let h = layout.height as int;
    let s = layout.stride as int;
    let c = layout.capacity as int;
    assert(w * h * 4 <= (s * h) * c) by (nonlinear_arith)
        requires
            w * 4 <= s,
            0 <= w,
            0 <= h,
            1 <= c,
    ;
}

/// Every frame index falls in a slot. One below the capacity is the number of its
/// slot, and one capacity later the same slot is used again, as long as that index
/// fits in a machine word.
pub proof fn frame_index_wraps_over_the_slots(layout: PreviewLayout, frame_index: u64)
    requires
        layout.wf(),
    ensures
        0 <= layout.slot_of(frame_index) < layout.capacity,
        frame_index < layout.capacity ==> layout.slot_of(frame_index) == frame_index,
        frame_index + layout.capacity <= usize::MAX ==> layout.slot_of(
            (frame_index + layout.capacity) as u64,
        ) == layout.slot_of(frame_index),
{
    let n = frame_index as int;
    let c = layout.capacity as int;
    vstd::arithmetic::div_mod::lemma_mod_bound((frame_index as usize) as int, c);
    if n < c {
        assert((frame_index as usize) as int == n);
        vstd::arithmetic::div_mod::lemma_small_mod(n as nat, c as nat);
    }
    if n + c <= usize::MAX {
        assert((frame_index as usize) as int == n);
        assert((((n + c) as u64) as usize) as int == n + c);
        vstd::arithmetic::div_mod::lemma_mod_add_multiples_vanish(n, c);
    }
}

/// The data starts 320 bytes behind the start of the memory, and each slot one frame
/// behind the one before.
pub proof fn slots_lie_one_frame_apart(layout: PreviewLayout, slot: int)
    ensures
        data_offset() == 320,
        layout.slot_start(0) == 320,
        layout.slot_start(slot + 1) == layout.slot_start(slot) + layout.frame_size,
{
    let size = layout.frame_size as int;
    assert((slot + 1) * size == slot * size + size) by (nonlinear_arith);
}

/// A layout is accepted exactly where there are pixels and slots, not more than 16 of
/// them, a row of four bytes to a pixel can be measured and fits in the stride, and
/// the header and all frames fit in memory. It has the dimensions that were asked for,
/// and its sizes are those of one frame and of all of the memory.
pub proof fn accepted_layouts_fit(
    width: u32,
    height: u32,
    stride: u32,
    capacity: u32,
    pixel_format: PreviewPixelFormat,
)
    ensures
        ({
            let result = layout_of(width, height, stride, capacity, pixel_format);
            let empty = width == 0 || height == 0 || capacity == 0 || capacity > 16;
            let needed = 320 + stride * height * capacity;
            &&& result is Ok <==> !empty && 4 * width <= u32::MAX && 4 * width <= stride && needed
                <= usize::MAX
            &&& result matches Ok(layout) ==> {
                &&& layout.width == width && layout.height == height && layout.stride == stride
                &&& layout.capacity == capacity && layout.pixel_format == pixel_format
                &&& layout.frame_size == stride * height
                &&& layout.total_size == needed
            }
            &&& result == Err::<PreviewLayout, PreviewLayoutError>(
                PreviewLayoutError::ZeroDimension,
            ) <==> empty
            &&& result == Err::<PreviewLayout, PreviewLayoutError>(
                PreviewLayoutError::InvalidStride,
            ) <==> !empty && stride < 4 * width <= u32::MAX
            &&& result matches Err(error) ==> error == PreviewLayoutError::ZeroDimension || error
                == PreviewLayoutError::InvalidStride || error == PreviewLayoutError::Overflow
        }),
{
    let frame = stride * height;
    assert(0 <= frame <= frame * capacity || capacity == 0) by (nonlinear_arith)
        requires
            frame == stride * height,
            0 <= stride,
            0 <= height,
            0 <= capacity,
    ;
}

/// A packed layout has rows without padding. A row that cannot be measured is an
/// overflow, whatever else is wrong.
pub proof fn packed_layouts_have_no_padding(
    width: u32,
    height: u32,
    capacity: u32,
    pixel_format: PreviewPixelFormat,
)
    ensures
        ({
            let result = packed_layout_of(width, height, capacity, pixel_format);
            &&& 4 * width > u32::MAX ==> result == Err::<PreviewLayout, PreviewLayoutError>(
                PreviewLayoutError::Overflow,
            )
            &&& 4 * width <= u32::MAX ==> result == layout_of(
                width,
                height,
                (4 * width) as u32,
                capacity,
                pixel_format,
            )
        }),
{
}

/// A header is understood exactly where it bears the magic `GMAN`, version 3, the size
/// that the data starts at and the one pixel format, and its dimensions are accepted.
/// What is looked at first is told first.
pub proof fn only_known_headers_are_understood(header: PreviewShmHeader)
    ensures
        ({
            let known = header.magic == 0x4E41_4D47 && header.version == 3 && header.header_size
                == 320 && header.pixel_format == 1;
            let geometry = layout_of(
                header.width,
                header.height,
                header.stride,
                header.capacity,
                PreviewPixelFormat::Rgba8Unorm,
            );
            let refused = |error: PreviewLayoutError|
                header.described_layout() == Err::<PreviewLayout, PreviewLayoutError>(error);
            &&& known ==> header.described_layout() == geometry
            &&& !known ==> header.described_layout() is Err
            &&& header.magic != 0x4E41_4D47 ==> refused(PreviewLayoutError::InvalidMagic)
            &&& header.magic == 0x4E41_4D47 && header.version != 3 ==> refused(
                PreviewLayoutError::UnsupportedVersion(header.version),
            )
            &&& header.magic == 0x4E41_4D47 && header.version == 3 && header.header_size != 320
                ==> refused(PreviewLayoutError::InvalidHeaderSize)
            &&& header.magic == 0x4E41_4D47 && header.version == 3 && header.header_size == 320
                && header.pixel_format != 1 ==> refused(
                PreviewLayoutError::UnsupportedPixelFormat(header.pixel_format),
            )
        }),
{
}

/// A slot shows what was last stored in it, unless it lies behind the capacity or
/// nothing was stored.
pub proof fn slots_show_what_was_stored(header: PreviewShmHeader, slot: int)
    requires
        0 <= slot,
    ensures
        header.publication(slot) is None <==> slot >= header.capacity
            || header.published_frames@[slot] == u64::MAX,
        header.publication(slot) matches Some((request_id, frame)) ==> request_id
            == header.published_request_ids@[slot] && frame == header.published_frames@[slot]
            % 0x1_0000_0000,
{
}

/// A number that fits in 32 bits stays, and what lies above them is cut off.
pub proof fn low_words_repeat(n: u64)
    ensures
        n <= u32::MAX ==> low_word(n) == n,
        n >= 0x1_0000_0000 ==> low_word(n) == low_word((n - 0x1_0000_0000) as u64),
{
}

/// A new header bears the marks of the format and the dimensions of its layout, and
/// every slot waits for its first frame, with the id that no request has.
pub proof fn new_headers_are_marked(header: PreviewShmHeader, layout: PreviewLayout, slot: int)
    requires
        header.is_new(layout),
        0 <= slot < 16,
    ensures
        header.magic == 0x4E41_4D47 && header.version == 3 && header.header_size == 320,
        header.pixel_format == 1,
        header.width == layout.width && header.height == layout.height,
        header.stride == layout.stride && header.capacity == layout.capacity,
        header.published_request_ids@[slot] == 0,
        header.published_frames@[slot] == u64::MAX,
{
}

} // verus!
