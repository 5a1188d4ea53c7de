use gmanim_editor::image::read_preview_image;
use gmanim_editor::protocol::{
    preview_data_offset, PreviewLayout, PreviewPixelFormat, PreviewShmHeader,
};

/// A memory with one picture of packed rows in slot 1.
fn memory_with(layout: PreviewLayout, rgba: &[u8]) -> Vec<u8> {
    let mut memory = vec![9u8; layout.total_size];
    let start = layout.frame_offset(1);
    let row_bytes = layout.width as usize * 4;
    for row in 0..layout.height as usize {
        let at = start + row * layout.stride as usize;
        memory[at..at + row_bytes].copy_from_slice(&rgba[row * row_bytes..(row + 1) * row_bytes]);
    }
    memory
}

fn published_header(width: u32, height: u32) -> PreviewShmHeader {
    let mut header =
        PreviewShmHeader::new(width, height, 2, PreviewPixelFormat::Rgba8Unorm).unwrap();
    header.publish(1, 7, 3);
    header
}

#[test]
fn an_opaque_picture_is_read_as_it_was_written() {
    let rgba = [10, 20, 30, 255, 40, 50, 60, 255, 1, 2, 3, 255, 255, 254, 253, 255];
    let layout = PreviewLayout::packed_rgba(2, 2, 2).unwrap();
    let memory = memory_with(layout, &rgba);
    let image = read_preview_image(&published_header(2, 2), &memory, layout, 7, 3, 1).unwrap();
    assert_eq!(image.size, [2, 2]);
    assert_eq!(image.pixels[0].to_tuple(), (10, 20, 30, 255));
    assert_eq!(image.pixels[1].to_tuple(), (40, 50, 60, 255));
    assert_eq!(image.pixels[2].to_tuple(), (1, 2, 3, 255));
    assert_eq!(image.pixels[3].to_tuple(), (255, 254, 253, 255));
}

#[test]
fn transparent_pixels_are_multiplied_by_their_alpha() {
    let rgba = [200, 100, 50, 128, 10, 20, 30, 255, 77, 88, 99, 0];
    let layout = PreviewLayout::packed_rgba(3, 1, 2).unwrap();
    let memory = memory_with(layout, &rgba);
    let image = read_preview_image(&published_header(3, 1), &memory, layout, 7, 3, 1).unwrap();
    assert_eq!(image.pixels[0].to_tuple(), (100, 50, 25, 128));
    assert_eq!(image.pixels[1].to_tuple(), (10, 20, 30, 255));
    assert_eq!(image.pixels[2].to_tuple(), (0, 0, 0, 0));
}

#[test]
fn every_channel_is_rounded_to_the_nearest_number() {
    let mut rgba = Vec::new();
    for alpha in 0..=255u8 {
        for value in 0..=255u8 {
            rgba.extend_from_slice(&[value, 255 - value, 255, alpha]);
        }
    }
    let layout = PreviewLayout::packed_rgba(256, 256, 2).unwrap();
    let memory = memory_with(layout, &rgba);
    let image = read_preview_image(&published_header(256, 256), &memory, layout, 7, 3, 1).unwrap();
    for alpha in 0..=255usize {
        for value in 0..=255usize {
            let scaled = |channel: usize| ((2 * channel * alpha + 255) / 510) as u8;
            assert_eq!(
                image.pixels[alpha * 256 + value].to_tuple(),
                (scaled(value), scaled(255 - value), alpha as u8, alpha as u8)
            );
        }
    }
}

#[test]
fn padding_behind_the_rows_is_skipped() {
    let layout = PreviewLayout::new(1, 2, 12, 2, PreviewPixelFormat::Rgba8Unorm).unwrap();
    let mut header = published_header(1, 2);
    header.stride = 12;
    let memory = memory_with(layout, &[1, 2, 3, 255, 4, 5, 6, 255]);
    let image = read_preview_image(&header, &memory, layout, 7, 3, 1).unwrap();
    assert_eq!(image.size, [1, 2]);
    assert_eq!(image.pixels[0].to_tuple(), (1, 2, 3, 255));
    assert_eq!(image.pixels[1].to_tuple(), (4, 5, 6, 255));
}

#[test]
fn another_publication_is_not_read() {
    let layout = PreviewLayout::packed_rgba(1, 1, 2).unwrap();
    let memory = memory_with(layout, &[1, 2, 3, 255]);
    let header = published_header(1, 1);
    let message = "preview publication does not match the completed request";
    for (id, frame, slot) in [(8, 3, 1), (7, 4, 1), (7, 3, 0), (7, 3, 2), (7, 3, 99)] {
        assert_eq!(
            read_preview_image(&header, &memory, layout, id, frame, slot).unwrap_err(),
            message
        );
    }
}

#[test]
fn another_layout_is_not_read() {
    let layout = PreviewLayout::packed_rgba(1, 1, 2).unwrap();
    let other = PreviewLayout::packed_rgba(1, 1, 3).unwrap();
    let memory = memory_with(layout, &[1, 2, 3, 255]);
    let header = published_header(1, 1);
    assert_eq!(
        read_preview_image(&header, &memory, other, 7, 3, 1).unwrap_err(),
        "preview shared-memory layout changed unexpectedly"
    );
    let mut foreign = published_header(1, 1);
    foreign.version = 2;
    assert_eq!(
        read_preview_image(&foreign, &memory, layout, 7, 3, 1).unwrap_err(),
        "unsupported preview protocol version 2"
    );
}

#[test]
fn the_first_slot_starts_behind_the_header() {
    let layout = PreviewLayout::packed_rgba(1, 1, 1).unwrap();
    let mut header = PreviewShmHeader::new(1, 1, 1, PreviewPixelFormat::Rgba8Unorm).unwrap();
    header.publish(0, 1, 0);
    let mut memory = vec![0u8; layout.total_size];
    let start = preview_data_offset();
    memory[start..start + 4].copy_from_slice(&[5, 6, 7, 255]);
    let image = read_preview_image(&header, &memory, layout, 1, 0, 0).unwrap();
    assert_eq!(image.pixels[0].to_tuple(), (5, 6, 7, 255));
}
