use gmanim_editor::protocol::{
    preview_data_offset, PreviewLayout, PreviewLayoutError, PreviewPixelFormat, PreviewShmHeader,
    PREVIEW_SHM_ALIGNMENT, PREVIEW_SHM_HEADER_SIZE, PREVIEW_SHM_MAGIC, PREVIEW_SLOT_COUNT,
    UNPUBLISHED_FRAME,
};

#[test]
fn multi_slot_layout_is_aligned() {
    let layout = PreviewLayout::packed_rgba(1920, 1080, PREVIEW_SLOT_COUNT).unwrap();
    assert_eq!(preview_data_offset() % PREVIEW_SHM_ALIGNMENT, 0);
    assert_eq!(layout.frame_size, 1920 * 1080 * 4);
    assert_ne!(layout.frame_offset(0), layout.frame_offset(1));
    assert_eq!(
        layout.total_size,
        preview_data_offset() + PREVIEW_SLOT_COUNT as usize * layout.frame_size
    );
}

#[test]
fn header_round_trips_its_layout() {
    let header = PreviewShmHeader::new(
        1280,
        720,
        PREVIEW_SLOT_COUNT,
        PreviewPixelFormat::Rgba8Unorm,
    )
    .unwrap();
    let layout = header.layout().unwrap();
    assert_eq!(layout.width, 1280);
    assert_eq!(layout.height, 720);
    assert_eq!(layout.capacity, PREVIEW_SLOT_COUNT);
    assert_eq!(layout.stride, 1280 * 4);
}

#[test]
fn published_frame_uses_request_as_release_sequence() {
    let mut header =
        PreviewShmHeader::new(2, 1, PREVIEW_SLOT_COUNT, PreviewPixelFormat::Rgba8Unorm).unwrap();
    assert_eq!(header.published(3), None);
    header.publish(3, 17, 42);
    assert_eq!(header.published(3), Some((17, 42)));
    assert_eq!(header.published(2), None);
}

#[test]
fn the_magic_spells_gman() {
    assert_eq!(PREVIEW_SHM_MAGIC, u32::from_le_bytes(*b"GMAN"));
}

#[test]
fn frames_start_on_the_next_aligned_byte() {
    assert_eq!(PREVIEW_SHM_HEADER_SIZE, 8 * 4 + 2 * 16 * 8);
    assert_eq!(preview_data_offset(), 320);
}

#[test]
fn pixel_formats_have_numbers() {
    assert_eq!(
        PreviewPixelFormat::from_raw(1),
        Some(PreviewPixelFormat::Rgba8Unorm)
    );
    assert_eq!(PreviewPixelFormat::from_raw(0), None);
    assert_eq!(PreviewPixelFormat::from_raw(2), None);
    assert_eq!(PreviewPixelFormat::Rgba8Unorm.to_raw(), 1);
    assert_eq!(PreviewPixelFormat::Rgba8Unorm.bytes_per_pixel(), 4);
}

#[test]
fn a_padded_layout_is_measured_by_its_stride() {
    let layout =
        PreviewLayout::new(3, 2, 16, 2, PreviewPixelFormat::Rgba8Unorm).unwrap();
    assert_eq!(layout.frame_size, 32);
    assert_eq!(layout.total_size, 320 + 64);
    assert_eq!(layout.frame_offset(0), 320);
    assert_eq!(layout.frame_offset(1), 352);
    assert_eq!(layout.frame_offset(2), 320);
    assert_eq!(layout.frame_offset(5), 352);
}

#[test]
fn layouts_without_room_are_refused() {
    let format = PreviewPixelFormat::Rgba8Unorm;
    for (width, height, capacity) in [(0, 1, 1), (1, 0, 1), (1, 1, 0), (1, 1, 17)] {
        assert_eq!(
            PreviewLayout::new(width, height, 4, capacity, format),
            Err(PreviewLayoutError::ZeroDimension)
        );
    }
    assert_eq!(
        PreviewLayout::new(2, 1, 7, 1, format),
        Err(PreviewLayoutError::InvalidStride)
    );
    assert_eq!(
        PreviewLayout::new(0x4000_0000, 1, u32::MAX, 1, format),
        Err(PreviewLayoutError::Overflow)
    );
    assert_eq!(
        PreviewLayout::new(1, u32::MAX, u32::MAX, 16, format),
        Err(PreviewLayoutError::Overflow)
    );
    assert_eq!(
        PreviewLayout::packed_rgba(0x4000_0000, 0, 1),
        Err(PreviewLayoutError::Overflow)
    );
    assert!(matches!(
        PreviewShmHeader::new(0x4000_0000, 0, 1, format),
        Err(PreviewLayoutError::Overflow)
    ));
    assert!(matches!(
        PreviewShmHeader::new(1, 0, 1, format),
        Err(PreviewLayoutError::ZeroDimension)
    ));
}

fn new_header() -> PreviewShmHeader {
    PreviewShmHeader::new(2, 1, 4, PreviewPixelFormat::Rgba8Unorm).unwrap()
}

#[test]
fn foreign_headers_are_refused() {
    let mut header = new_header();
    header.magic = 1;
    assert_eq!(header.layout(), Err(PreviewLayoutError::InvalidMagic));
    let mut header = new_header();
    header.version = 2;
    assert_eq!(
        header.layout(),
        Err(PreviewLayoutError::UnsupportedVersion(2))
    );
    let mut header = new_header();
    header.header_size = 288;
    assert_eq!(header.layout(), Err(PreviewLayoutError::InvalidHeaderSize));
    let mut header = new_header();
    header.pixel_format = 9;
    assert_eq!(
        header.layout(),
        Err(PreviewLayoutError::UnsupportedPixelFormat(9))
    );
    let mut header = new_header();
    header.stride = 7;
    assert_eq!(header.layout(), Err(PreviewLayoutError::InvalidStride));
    let mut header = new_header();
    header.capacity = 17;
    assert_eq!(header.layout(), Err(PreviewLayoutError::ZeroDimension));
}

#[test]
fn publications_stay_in_their_slots() {
    let mut header = new_header();
    let layout = header.layout();
    header.publish(0, 5, 9);
    header.publish(3, 6, u32::MAX);
    header.publish(0, 7, 10);
    assert_eq!(header.published(0), Some((7, 10)));
    assert_eq!(header.published(1), None);
    assert_eq!(header.published(3), Some((6, u32::MAX)));
    assert_eq!(header.published(4), None);
    assert_eq!(header.published(400), None);
    assert_eq!(header.published_frames[1], UNPUBLISHED_FRAME);
    assert_eq!(header.layout(), layout);
}

#[test]
fn a_wide_frame_word_is_cut_to_a_frame_number() {
    let mut header = new_header();
    header.published_frames[2] = 0x1_0000_0005;
    header.published_request_ids[2] = 8;
    assert_eq!(header.published(2), Some((8, 5)));
}

#[test]
fn errors_are_described() {
    let texts = [
        (
            PreviewLayoutError::ZeroDimension,
            "preview dimensions and capacity must be non-zero",
        ),
        (
            PreviewLayoutError::Overflow,
            "preview shared-memory size overflow",
        ),
        (
            PreviewLayoutError::InvalidMagic,
            "invalid preview shared-memory magic",
        ),
        (
            PreviewLayoutError::UnsupportedVersion(4294967295),
            "unsupported preview protocol version 4294967295",
        ),
        (
            PreviewLayoutError::InvalidHeaderSize,
            "invalid preview shared-memory header size",
        ),
        (
            PreviewLayoutError::InvalidStride,
            "preview stride is smaller than a packed row",
        ),
        (
            PreviewLayoutError::UnsupportedPixelFormat(10),
            "unsupported preview pixel format 10",
        ),
    ];
    for (error, text) in texts {
        assert_eq!(error.message(), text);
    }
}

#[test]
fn every_frame_index_falls_in_a_slot() {
    let layout = PreviewLayout::packed_rgba(2, 1, 3).unwrap();
    assert_eq!(layout.frame_offset(4), layout.frame_offset(1));
    assert_eq!(layout.frame_offset(u64::MAX), layout.frame_offset(u64::MAX % 3));
}
