//! Preview pictures: how a rendered frame is read out of shared memory.

use crate::protocol::{PreviewLayout, PreviewShmHeader};
use std::sync::Arc;
use vstd::prelude::*;

verus! {

/// The image type of `egui`. Nothing is known of its inside here; what an image
/// holds is spoken of through `image_size` and `image_pixels`.
#[verifier::external_type_specification]
#[verifier::external_body]
pub struct ExColorImage(egui::ColorImage);

/// The pixels of an image, row by row from the top, each as its red, green, blue
/// and alpha with the colors multiplied by alpha.
pub uninterp spec fn image_pixels(image: egui::ColorImage) -> Seq<(u8, u8, u8, u8)>;

/// The width and the height of an image in pixels.
pub uninterp spec fn image_size(image: egui::ColorImage) -> (usize, usize);

/// A color channel multiplied by alpha, where 255 stands for one, rounded to the
/// nearest number.
pub open spec fn scaled(channel: u8, alpha: u8) -> u8 {
    ((2 * channel * alpha + 255) / 510) as u8
}

/// A color with its channels multiplied by alpha.
pub open spec fn premultiplied(r: u8, g: u8, b: u8, a: u8) -> (u8, u8, u8, u8) {
    (scaled(r, a), scaled(g, a), scaled(b, a), a)
}

/// Calls `egui::Color32::from_rgba_unmultiplied` and takes the four channels of the
/// color that it makes: red, green and blue, each multiplied by alpha and rounded to
/// the nearest number, and alpha. The product never lies halfway between two
/// numbers, so rounding leaves no choice.
#[verifier::external_body]
fn premultiplied_color(r: u8, g: u8, b: u8, a: u8) -> (color: (u8, u8, u8, u8))
    ensures
        color == premultiplied(r, g, b, a),
{
    egui::Color32::from_rgba_unmultiplied(r, g, b, a).to_tuple()
}

/// An opaque color is not changed, a fully transparent one is black, and multiplying
/// makes no channel brighter.
pub proof fn alpha_darkens(r: u8, g: u8, b: u8, a: u8)
    ensures
        premultiplied(r, g, b, 255) == (r, g, b, 255u8),
        premultiplied(r, g, b, 0) == (0u8, 0u8, 0u8, 0u8),
        scaled(r, a) <= r,
        scaled(r, a) <= a,
{
    assert(0 <= r * a <= 255 * r && r * a <= 255 * a) by (nonlinear_arith)
        requires
            0 <= r <= 255,
            0 <= a <= 255,
    ;
    assert(2 * r * a == 2 * (r * a)) by (nonlinear_arith);
    extreme_alphas(r);
    extreme_alphas(g);
    extreme_alphas(b);
}

proof fn extreme_alphas(channel: u8)
    ensures
        scaled(channel, 255) == channel,
        scaled(channel, 0) == 0,
{
    let one: u8 = 255;
    let none: u8 = 0;
    assert(2 * channel * one == 510 * channel) by (nonlinear_arith)
        requires
            one == 255,
    ;
    assert(2 * channel * none == 0) by (nonlinear_arith)
        requires
            none == 0,
    ;
    assert((510 * channel + 255) / 510 == channel as int);
}

/// The four bytes of pixel `i` in packed rows.
pub open spec fn packed_pixel(rgba: Seq<u8>, i: int) -> (u8, u8, u8, u8) {
    (rgba[4 * i], rgba[4 * i + 1], rgba[4 * i + 2], rgba[4 * i + 3])
}

/// Calls `egui::ColorImage::from_rgba_premultiplied`, which makes an image of the
/// given size out of packed rows of premultiplied colors.
#[verifier::external_body]
fn color_image(width: usize, height: usize, rgba: &Vec<u8>) -> (image: egui::ColorImage)
    requires
        width * height * 4 == rgba@.len(),
    ensures
        image_size(image) == (width, height),
        image_pixels(image) == Seq::new(
            (rgba@.len() / 4) as nat,
            |i: int| packed_pixel(rgba@, i),
        ),
{
    egui::ColorImage::from_rgba_premultiplied([width, height], rgba)
}

/// The four bytes of the pixel at `row` and `column` of a picture whose rows
/// begin `stride` bytes apart, the first at `start`.
pub open spec fn source_pixel(
    memory: Seq<u8>,
    start: int,
    stride: int,
    row: int,
    column: int,
) -> (u8, u8, u8, u8) {
    let at = start + row * stride + 4 * column;
    (memory[at], memory[at + 1], memory[at + 2], memory[at + 3])
}

/// A pixel as the renderer wrote it, with the colors multiplied by alpha.
pub open spec fn shown_pixel(pixel: (u8, u8, u8, u8)) -> (u8, u8, u8, u8) {
    premultiplied(pixel.0, pixel.1, pixel.2, pixel.3)
}

/// The pixels of the picture in a slot of shared memory, as an image shows them.
pub open spec fn slot_pixels(memory: Seq<u8>, layout: PreviewLayout, slot: int) -> Seq<
    (u8, u8, u8, u8),
> {
    Seq::new(
        (layout.width * layout.height) as nat,
        |i: int|
            shown_pixel(
                source_pixel(
                    memory,
                    layout.slot_start(slot),
                    layout.stride as int,
                    i / (layout.width as int),
                    i % (layout.width as int),
                ),
            ),
    )
}

/// The last row of the slot lies inside the memory.
pub open spec fn slot_in_memory(memory: Seq<u8>, layout: PreviewLayout, slot: int) -> bool {
    layout.slot_start(slot) + (layout.height - 1) * layout.stride + 4 * layout.width
        <= memory.len()
}

/// The last byte that a pixel takes lies in front of the end of the picture.
proof fn pixel_in_bounds(start: int, stride: int, width: int, height: int, row: int, column: int)
    requires
        0 <= row < height,
        0 <= column < width,
        0 <= start,
        0 <= stride,
    ensures
        0 <= row * stride,
        start + row * stride + 4 * column + 4 <= start + (height - 1) * stride + 4 * width,
{
    assert(0 <= row * stride <= (height - 1) * stride) by (nonlinear_arith)
        requires
            0 <= row <= height - 1,
            0 <= stride,
    ;
}

/// Row and column of a pixel from its number.
proof fn row_and_column(row: int, column: int, width: int)
    requires
        0 <= column < width,
    ensures
        (row * width + column) / width == row,
        (row * width + column) % width == column,
{
    vstd::arithmetic::div_mod::lemma_fundamental_div_mod_converse(
        row * width + column,
        width,
        row,
        column,
    );
}

/// Copies the rows of a picture without their padding, and tells whether every
/// pixel is opaque.
fn copied_rows(memory: &[u8], start: usize, stride: usize, width: usize, height: usize) -> (result: (
    Vec<u8>,
    bool,
))
    requires
        0 < width,
        0 < height,
        width * height * 4 <= usize::MAX,
        start + (height - 1) * stride + 4 * width <= memory@.len(),
    ensures
        result.0@.len() == width * height * 4,
        forall|i: int|
            0 <= i < width * height ==> #[trigger] packed_pixel(result.0@, i) == source_pixel(
                memory@,
                start as int,
                stride as int,
                i / (width as int),
                i % (width as int),
            ),
        result.1 <==> forall|i: int|
            0 <= i < width * height ==> (#[trigger] packed_pixel(result.0@, i)).3 == 255,
{
    let mut rgba: Vec<u8> = Vec::new();
    let mut opaque = true;
    let size: usize = memory.len();
    let mut row: usize = 0;
    while row < height
        invariant
            0 < width,
            0 < height,
            row <= height,
            size == memory@.len(),
            start + (height - 1) * stride + 4 * width <= size,
            rgba@.len() == 4 * (row * width),
            forall|i: int|
                0 <= i < row * width ==> #[trigger] packed_pixel(rgba@, i) == source_pixel(
                    memory@,
                    start as int,
                    stride as int,
                    i / (width as int),
                    i % (width as int),
                ),
            opaque <==> forall|i: int|
                0 <= i < row * width ==> (#[trigger] packed_pixel(rgba@, i)).3 == 255,
        decreases height - row,
    {
        let mut column: usize = 0;
        while column < width
            invariant
                0 < width,
                0 <= row < height,
                column <= width,
                size == memory@.len(),
                start + (height - 1) * stride + 4 * width <= size,
                rgba@.len() == 4 * (row * width + column),
                forall|i: int|
                    0 <= i < row * width + column ==> #[trigger] packed_pixel(rgba@, i)
                        == source_pixel(
                        memory@,
                        start as int,
                        stride as int,
                        i / (width as int),
                        i % (width as int),
                    ),
                opaque <==> forall|i: int|
                    0 <= i < row * width + column ==> (#[trigger] packed_pixel(rgba@, i)).3 == 255,
            decreases width - column,
        {
            let ghost here = row * width + column;
            let ghost before = rgba@;
            let ghost was_opaque = opaque;
            proof {
                pixel_in_bounds(
                    start as int,
                    stride as int,
                    width as int,
                    height as int,
                    row as int,
                    column as int,
                );
                row_and_column(row as int, column as int, width as int);
            }
            let at: usize = start + row * stride + 4 * column;
            rgba.push(memory[at]);
            rgba.push(memory[at + 1]);
            rgba.push(memory[at + 2]);
            rgba.push(memory[at + 3]);
            if memory[at + 3] != 255 {
                opaque = false;
            }
            column = column + 1;
            proof {
                assert forall|i: int| 0 <= i < here implies #[trigger] packed_pixel(rgba@, i)
                    == packed_pixel(before, i) by {}
                assert(packed_pixel(rgba@, here) == source_pixel(
                    memory@,
                    start as int,
                    stride as int,
                    row as int,
                    column - 1,
                ));
                if opaque {
                    assert forall|i: int| 0 <= i < here + 1 implies (#[trigger] packed_pixel(
                        rgba@,
                        i,
                    )).3 == 255 by {
                        if i < here {
                            assert(packed_pixel(before, i).3 == 255);
                        }
                    }
                } else if was_opaque {
                    assert(packed_pixel(rgba@, here).3 != 255);
                } else {
                    let i = choose|i: int|
                        0 <= i < here && (#[trigger] packed_pixel(before, i)).3 != 255;
                    assert(packed_pixel(rgba@, i).3 != 255);
                }
            }
        }
        row = row + 1;
        assert(row * width == (row - 1) * width + width) by (nonlinear_arith);
    }
    assert(width * height * 4 == 4 * (height * width)) by (nonlinear_arith);
    assert(width * height == height * width) by (nonlinear_arith);
    (rgba, opaque)
}

/// Copies the rows of a picture without their padding, with the colors multiplied
/// by alpha.
fn premultiplied_rows(memory: &[u8], start: usize, stride: usize, width: usize, height: usize) -> (
    rgba: Vec<u8>)
    requires
        0 < width,
        0 < height,
        width * height * 4 <= usize::MAX,
        start + (height - 1) * stride + 4 * width <= memory@.len(),
    ensures
        rgba@.len() == width * height * 4,
        forall|i: int|
            0 <= i < width * height ==> #[trigger] packed_pixel(rgba@, i) == shown_pixel(
                source_pixel(
                    memory@,
                    start as int,
                    stride as int,
                    i / (width as int),
                    i % (width as int),
                ),
            ),
{
    let mut rgba: Vec<u8> = Vec::new();
    let size: usize = memory.len();
    let mut row: usize = 0;
    while row < height
        invariant
            0 < width,
            0 < height,
            row <= height,
            size == memory@.len(),
            start + (height - 1) * stride + 4 * width <= size,
            rgba@.len() == 4 * (row * width),
            forall|i: int|
                0 <= i < row * width ==> #[trigger] packed_pixel(rgba@, i) == shown_pixel(
                    source_pixel(
                        memory@,
                        start as int,
                        stride as int,
                        i / (width as int),
                        i % (width as int),
                    ),
                ),
        decreases height - row,
    {
        let mut column: usize = 0;
        while column < width
            invariant
                0 < width,
                0 <= row < height,
                column <= width,
                size == memory@.len(),
                start + (height - 1) * stride + 4 * width <= size,
                rgba@.len() == 4 * (row * width + column),
                forall|i: int|
                    0 <= i < row * width + column ==> #[trigger] packed_pixel(rgba@, i)
                        == shown_pixel(
                        source_pixel(
                            memory@,
                            start as int,
                            stride as int,
                            i / (width as int),
                            i % (width as int),
                        ),
                    ),
            decreases width - column,
        {
            let ghost here = row * width + column;
            let ghost before = rgba@;
            proof {
                pixel_in_bounds(
                    start as int,
                    stride as int,
                    width as int,
                    height as int,
                    row as int,
                    column as int,
                );
                row_and_column(row as int, column as int, width as int);
            }
            let at: usize = start + row * stride + 4 * column;
            let color = premultiplied_color(
                memory[at],
                memory[at + 1],
                memory[at + 2],
                memory[at + 3],
            );
            rgba.push(color.0);
            rgba.push(color.1);
            rgba.push(color.2);
            rgba.push(color.3);
            column = column + 1;
            proof {
                assert forall|i: int| 0 <= i < here implies #[trigger] packed_pixel(rgba@, i)
                    == packed_pixel(before, i) by {}
                assert(packed_pixel(rgba@, here) == shown_pixel(
                    source_pixel(
                        memory@,
                        start as int,
                        stride as int,
                        row as int,
                        column - 1,
                    ),
                ));
            }
        }
        row = row + 1;
        assert(row * width == (row - 1) * width + width) by (nonlinear_arith);
    }
    assert(width * height * 4 == 4 * (height * width)) by (nonlinear_arith);
    assert(width * height == height * width) by (nonlinear_arith);
    rgba
}

/// Why the picture of a completed request is not read, where it is not.
pub open spec fn readback_refusal(
    header: PreviewShmHeader,
    layout: PreviewLayout,
    request_id: u64,
    frame: u32,
    slot: u32,
) -> Option<Seq<char>> {
    if header.publication(slot as int) != Some((request_id, frame)) {
        Some("preview publication does not match the completed request"@)
    } else {
        match header.described_layout() {
            Err(error) => Some(error.description()),
            Ok(described) => if described != layout {
                Some("preview shared-memory layout changed unexpectedly"@)
            } else {
                None
            },
        }
    }
}

/// Reads the picture of a completed request out of its slot.
///
/// `header` is what the front of `memory` holds. The slot must hold what the
/// renderer published for the request, and the memory must still be laid out as
/// `layout` says.
pub fn read_preview_image(
    header: &PreviewShmHeader,
    memory: &[u8],
    layout: PreviewLayout,
    request_id: u64,
    frame: u32,
    slot: u32,
) -> (result: Result<Arc<egui::ColorImage>, String>)
    requires
        slot < header.capacity ==> slot < crate::protocol::PREVIEW_MAX_SLOT_COUNT,
        readback_refusal(*header, layout, request_id, frame, slot) is None ==> slot_in_memory(
            memory@,
            layout,
            slot as int,
        ),
    ensures
        match readback_refusal(*header, layout, request_id, frame, slot) {
            Some(text) => result matches Err(message) && message@ == text,
            None => {
                &&& result matches Ok(image)
                &&& image_size(*image) == (layout.width as usize, layout.height as usize)
                &&& image_pixels(*image) == slot_pixels(memory@, layout, slot as int)
            },
        },
{
    let expected = match header.published(slot) {
        Some((published_id, published_frame)) => published_id == request_id && published_frame
            == frame,
        None => false,
    };
    if !expected {
        return Err("preview publication does not match the completed request".to_owned());
    }
    match header.layout() {
        Ok(described) => if described != layout {
            return Err("preview shared-memory layout changed unexpectedly".to_owned());
        },
        Err(error) => return Err(error.message()),
    }
    proof {
        crate::protocol::slot_lies_in_memory(layout, slot as int, layout.height - 1);
        crate::protocol::frame_index_wraps_over_the_slots(layout, slot as u64);
        crate::protocol::picture_fits(layout);
    }
    let width: usize = layout.width as usize;
    let height: usize = layout.height as usize;
    let stride: usize = layout.stride as usize;
    let start: usize = layout.frame_offset(slot as u64);
    let (rgba, opaque) = copied_rows(memory, start, stride, width, height);
    let ghost pixels = slot_pixels(memory@, layout, slot as int);
    let image = if opaque {
        proof {
            assert forall|i: int| 0 <= i < width * height implies #[trigger] packed_pixel(rgba@, i)
                == pixels[i] by {
                let pixel = packed_pixel(rgba@, i);
                alpha_darkens(pixel.0, pixel.1, pixel.2, pixel.3);
            }
        }
        color_image(width, height, &rgba)
    } else {
        let shown = premultiplied_rows(memory, start, stride, width, height);
        proof {
            assert forall|i: int| 0 <= i < width * height implies #[trigger] packed_pixel(shown@, i)
                == pixels[i] by {}
        }
        color_image(width, height, &shown)
    };
    assert(image_pixels(image) =~= pixels);
    Ok(Arc::new(image))
}

/// A channel multiplied by alpha is the number closest to the product: none is closer.
pub proof fn scaled_channel_is_the_closest(channel: u8, alpha: u8)
    ensures
        -255 <= 510 * scaled(channel, alpha) - 2 * (channel * alpha) <= 255,
{
    assert(0 <= channel * alpha <= 255 * 255) by (nonlinear_arith)
        requires
            0 <= channel <= 255,
            0 <= alpha <= 255,
    ;
    assert(2 * channel * alpha == 2 * (channel * alpha)) by (nonlinear_arith);
}

/// The picture in a slot has a pixel for each row and column, row by row. Its four
/// bytes lie 320 bytes and the frames of the earlier slots behind the start of the
/// memory, then a stride further for each row and four bytes for each column. The
/// colors are multiplied by alpha.
pub proof fn pictures_are_read_pixel_by_pixel(
    memory: Seq<u8>,
    layout: PreviewLayout,
    slot: int,
    row: int,
    column: int,
)
    requires
        layout.wf(),
        0 <= row < layout.height,
        0 <= column < layout.width,
    ensures
        ({
            let pixels = slot_pixels(memory, layout, slot);
            let at = 320 + slot * (layout.stride * layout.height) + row * layout.stride + 4
                * column;
            let (r, g, b, a) = (memory[at], memory[at + 1], memory[at + 2], memory[at + 3]);
            &&& pixels.len() == layout.width * layout.height
            &&& 0 <= row * layout.width + column < pixels.len()
            &&& pixels[row * layout.width + column] == (scaled(r, a), scaled(g, a), scaled(b, a), a)
        }),
{
    let w = layout.width as int;
    let h = layout.height as int;
    row_and_column(row, column, w);
    assert(0 <= row * w + column < w * h) by (nonlinear_arith)
        requires
            0 <= row < h,
            0 <= column < w,
    ;
    let size = layout.stride * layout.height;
    let count = layout.capacity as int;
    assert(0 <= size <= size * count) by (nonlinear_arith)
        requires
            size == layout.stride * layout.height,
            count >= 1,
    ;
    assert(layout.frame_size == size);
}

/// A picture is read exactly where the slot was published for this request and this
/// frame and the header describes this layout.
pub proof fn only_the_published_picture_is_read(
    header: PreviewShmHeader,
    layout: PreviewLayout,
    request_id: u64,
    frame: u32,
    slot: u32,
)
    ensures
        readback_refusal(header, layout, request_id, frame, slot) is None <==> {
            &&& slot < header.capacity
            &&& header.published_frames@[slot as int] != u64::MAX
            &&& header.published_frames@[slot as int] % 0x1_0000_0000 == frame
            &&& header.published_request_ids@[slot as int] == request_id
            &&& header.described_layout() == Ok::<
                PreviewLayout,
                crate::protocol::PreviewLayoutError,
            >(layout)
        },
{
}

} // verus!
