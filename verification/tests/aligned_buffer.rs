use raw_reader::data::aligned_buffer::AlignedBuffer;

const USIZE_LENGTH: usize = std::mem::size_of::<usize>();

/// The lengths of the three parts that a byte slice falls into when it is
/// read as words aligned to `align` bytes and `size` bytes long: the bytes
/// before the first aligned word, the words, and the bytes left over.
fn aligned_parts(bytes: &[u8], align: usize, size: usize) -> (usize, usize, usize) {
    let offset = bytes.as_ptr().align_offset(align);
    if offset > bytes.len() {
        (bytes.len(), 0, 0)
    } else {
        let rest = bytes.len() - offset;
        (offset, rest / size, rest % size)
    }
}

#[test]
fn ensure_u16_views_have_correct_lengths() {
    let buffer: AlignedBuffer<16> = AlignedBuffer::new();
    assert_eq!(buffer.view_as::<u16>().len(), 16 / 2);
    let buffer: AlignedBuffer<32> = AlignedBuffer::new();
    assert_eq!(buffer.view_as::<u16>().len(), 32 / 2);
    let buffer: AlignedBuffer<64> = AlignedBuffer::new();
    assert_eq!(buffer.view_as::<u16>().len(), 64 / 2);

    let buffer: AlignedBuffer<80> = AlignedBuffer::new();
    assert_eq!(buffer.view_as::<u16>().len(), 80 / 2);

    let buffer: AlignedBuffer<240> = AlignedBuffer::new();
    assert_eq!(buffer.view_as::<u16>().len(), 240 / 2);
    let buffer: AlignedBuffer<256> = AlignedBuffer::new();
    assert_eq!(buffer.view_as::<u16>().len(), 256 / 2);
    let buffer: AlignedBuffer<272> = AlignedBuffer::new();
    assert_eq!(buffer.view_as::<u16>().len(), 272 / 2);
    let buffer: AlignedBuffer<0x0fff0> = AlignedBuffer::new();
    assert_eq!(buffer.view_as::<u16>().len(), 0x0fff0 / 2);
    let buffer: AlignedBuffer<0x10000> = AlignedBuffer::new();
    assert_eq!(buffer.view_as::<u16>().len(), 0x10000 / 2);
    let buffer: AlignedBuffer<0x10010> = AlignedBuffer::new();
    assert_eq!(buffer.view_as::<u16>().len(), 0x10010 / 2);
}

#[test]
fn ensure_u32_views_have_correct_lengths() {
    let buffer: AlignedBuffer<16> = AlignedBuffer::new();
    assert_eq!(buffer.view_as::<u32>().len(), 16 / 4);
    let buffer: AlignedBuffer<32> = AlignedBuffer::new();
    assert_eq!(buffer.view_as::<u32>().len(), 32 / 4);
    let buffer: AlignedBuffer<64> = AlignedBuffer::new();
    assert_eq!(buffer.view_as::<u32>().len(), 64 / 4);

    let buffer: AlignedBuffer<80> = AlignedBuffer::new();
    assert_eq!(buffer.view_as::<u32>().len(), 80 / 4);

    let buffer: AlignedBuffer<240> = AlignedBuffer::new();
    assert_eq!(buffer.view_as::<u32>().len(), 240 / 4);
    let buffer: AlignedBuffer<256> = AlignedBuffer::new();
    assert_eq!(buffer.view_as::<u32>().len(), 256 / 4);
    let buffer: AlignedBuffer<272> = AlignedBuffer::new();
    assert_eq!(buffer.view_as::<u32>().len(), 272 / 4);
    let buffer: AlignedBuffer<0x0fff0> = AlignedBuffer::new();
    assert_eq!(buffer.view_as::<u32>().len(), 0x0fff0 / 4);
    let buffer: AlignedBuffer<0x10000> = AlignedBuffer::new();
    assert_eq!(buffer.view_as::<u32>().len(), 0x10000 / 4);
    let buffer: AlignedBuffer<0x10010> = AlignedBuffer::new();
    assert_eq!(buffer.view_as::<u32>().len(), 0x10010 / 4);
}

#[test]
fn ensure_u64_views_have_correct_lengths() {
    let buffer: AlignedBuffer<16> = AlignedBuffer::new();
    assert_eq!(buffer.view_as::<u64>().len(), 16 / 8);
    let buffer: AlignedBuffer<32> = AlignedBuffer::new();
    assert_eq!(buffer.view_as::<u64>().len(), 32 / 8);
    let buffer: AlignedBuffer<64> = AlignedBuffer::new();
    assert_eq!(buffer.view_as::<u64>().len(), 64 / 8);

    let buffer: AlignedBuffer<80> = AlignedBuffer::new();
    assert_eq!(buffer.view_as::<u64>().len(), 80 / 8);

    let buffer: AlignedBuffer<240> = AlignedBuffer::new();
    assert_eq!(buffer.view_as::<u64>().len(), 240 / 8);
    let buffer: AlignedBuffer<256> = AlignedBuffer::new();
    assert_eq!(buffer.view_as::<u64>().len(), 256 / 8);
    let buffer: AlignedBuffer<272> = AlignedBuffer::new();
    assert_eq!(buffer.view_as::<u64>().len(), 272 / 8);
    let buffer: AlignedBuffer<0x0fff0> = AlignedBuffer::new();
    assert_eq!(buffer.view_as::<u64>().len(), 0x0fff0 / 8);
    let buffer: AlignedBuffer<0x10000> = AlignedBuffer::new();
    assert_eq!(buffer.view_as::<u64>().len(), 0x10000 / 8);
    let buffer: AlignedBuffer<0x10010> = AlignedBuffer::new();
    assert_eq!(buffer.view_as::<u64>().len(), 0x10010 / 8);
}

#[test]
fn ensure_u128_views_have_correct_lengths() {
    let buffer: AlignedBuffer<16> = AlignedBuffer::new();
    assert_eq!(buffer.view_as::<u128>().len(), 16 / 16);
    let buffer: AlignedBuffer<32> = AlignedBuffer::new();
    assert_eq!(buffer.view_as::<u128>().len(), 32 / 16);
    let buffer: AlignedBuffer<64> = AlignedBuffer::new();
    assert_eq!(buffer.view_as::<u128>().len(), 64 / 16);

    let buffer: AlignedBuffer<80> = AlignedBuffer::new();
    assert_eq!(buffer.view_as::<u128>().len(), 80 / 16);

    let buffer: AlignedBuffer<240> = AlignedBuffer::new();
    assert_eq!(buffer.view_as::<u128>().len(), 240 / 16);
    let buffer: AlignedBuffer<256> = AlignedBuffer::new();
    assert_eq!(buffer.view_as::<u128>().len(), 256 / 16);
    let buffer: AlignedBuffer<272> = AlignedBuffer::new();
    assert_eq!(buffer.view_as::<u128>().len(), 272 / 16);
    let buffer: AlignedBuffer<0x0fff0> = AlignedBuffer::new();
    assert_eq!(buffer.view_as::<u128>().len(), 0x0fff0 / 16);
    let buffer: AlignedBuffer<0x10000> = AlignedBuffer::new();
    assert_eq!(buffer.view_as::<u128>().len(), 0x10000 / 16);
    let buffer: AlignedBuffer<0x10010> = AlignedBuffer::new();
    assert_eq!(buffer.view_as::<u128>().len(), 0x10010 / 16);
}

#[test]
fn ensure_usize_views_have_correct_lengths() {
    let buffer: AlignedBuffer<16> = AlignedBuffer::new();
    assert_eq!(buffer.view_as::<usize>().len(), 16 / USIZE_LENGTH);
    let buffer: AlignedBuffer<32> = AlignedBuffer::new();
    assert_eq!(buffer.view_as::<usize>().len(), 32 / USIZE_LENGTH);
    let buffer: AlignedBuffer<64> = AlignedBuffer::new();
    assert_eq!(buffer.view_as::<usize>().len(), 64 / USIZE_LENGTH);

    let buffer: AlignedBuffer<80> = AlignedBuffer::new();
    assert_eq!(buffer.view_as::<usize>().len(), 80 / USIZE_LENGTH);

    let buffer: AlignedBuffer<240> = AlignedBuffer::new();
    assert_eq!(buffer.view_as::<usize>().len(), 240 / USIZE_LENGTH);
    let buffer: AlignedBuffer<256> = AlignedBuffer::new();
    assert_eq!(buffer.view_as::<usize>().len(), 256 / USIZE_LENGTH);
    let buffer: AlignedBuffer<272> = AlignedBuffer::new();
    assert_eq!(buffer.view_as::<usize>().len(), 272 / USIZE_LENGTH);
    let buffer: AlignedBuffer<0x0fff0> = AlignedBuffer::new();
    assert_eq!(buffer.view_as::<usize>().len(), 0x0fff0 / USIZE_LENGTH);
    let buffer: AlignedBuffer<0x10000> = AlignedBuffer::new();
    assert_eq!(buffer.view_as::<usize>().len(), 0x10000 / USIZE_LENGTH);
    let buffer: AlignedBuffer<0x10010> = AlignedBuffer::new();
    assert_eq!(buffer.view_as::<usize>().len(), 0x10010 / USIZE_LENGTH);
}

#[test]
fn ensure_u16_slices_are_aligned() {
    let buffer: AlignedBuffer<16> = AlignedBuffer::new();
    let (prefix, aligned, suffix) = aligned_parts(
        buffer.as_slice(),
        std::mem::align_of::<u16>(),
        std::mem::size_of::<u16>(),
    );
    assert_eq!(prefix, 0);
    assert_eq!(suffix, 0);
    assert_eq!(aligned, 16 / 2);
    let buffer: AlignedBuffer<32> = AlignedBuffer::new();
    let (prefix, aligned, suffix) = aligned_parts(
        buffer.as_slice(),
        std::mem::align_of::<u16>(),
        std::mem::size_of::<u16>(),
    );
    assert_eq!(prefix, 0);
    assert_eq!(suffix, 0);
    assert_eq!(aligned, 32 / 2);
    let buffer: AlignedBuffer<64> = AlignedBuffer::new();
    let (prefix, aligned, suffix) = aligned_parts(
        buffer.as_slice(),
        std::mem::align_of::<u16>(),
        std::mem::size_of::<u16>(),
    );
    assert_eq!(prefix, 0);
    assert_eq!(suffix, 0);
    assert_eq!(aligned, 64 / 2);

    let buffer: AlignedBuffer<80> = AlignedBuffer::new();
    let (prefix, aligned, suffix) = aligned_parts(
        buffer.as_slice(),
        std::mem::align_of::<u16>(),
        std::mem::size_of::<u16>(),
    );
    assert_eq!(prefix, 0);
    assert_eq!(suffix, 0);
    assert_eq!(aligned, 80 / 2);

    let buffer: AlignedBuffer<240> = AlignedBuffer::new();
    let (prefix, aligned, suffix) = aligned_parts(
        buffer.as_slice(),
        std::mem::align_of::<u16>(),
        std::mem::size_of::<u16>(),
    );
    assert_eq!(prefix, 0);
    assert_eq!(suffix, 0);
    assert_eq!(aligned, 240 / 2);
    let buffer: AlignedBuffer<256> = AlignedBuffer::new();
    let (prefix, aligned, suffix) = aligned_parts(
        buffer.as_slice(),
        std::mem::align_of::<u16>(),
        std::mem::size_of::<u16>(),
    );
    assert_eq!(prefix, 0);
    assert_eq!(suffix, 0);
    assert_eq!(aligned, 256 / 2);
    let buffer: AlignedBuffer<272> = AlignedBuffer::new();
    let (prefix, aligned, suffix) = aligned_parts(
        buffer.as_slice(),
        std::mem::align_of::<u16>(),
        std::mem::size_of::<u16>(),
    );
    assert_eq!(prefix, 0);
    assert_eq!(suffix, 0);
    assert_eq!(aligned, 272 / 2);
    let buffer: AlignedBuffer<0x0fff0> = AlignedBuffer::new();
    let (prefix, aligned, suffix) = aligned_parts(
        buffer.as_slice(),
        std::mem::align_of::<u16>(),
        std::mem::size_of::<u16>(),
    );
    assert_eq!(prefix, 0);
    assert_eq!(suffix, 0);
    assert_eq!(aligned, 0x0fff0 / 2);
    let buffer: AlignedBuffer<0x10000> = AlignedBuffer::new();
    let (prefix, aligned, suffix) = aligned_parts(
        buffer.as_slice(),
        std::mem::align_of::<u16>(),
        std::mem::size_of::<u16>(),
    );
    assert_eq!(prefix, 0);
    assert_eq!(suffix, 0);
    assert_eq!(aligned, 0x10000 / 2);
    let buffer: AlignedBuffer<0x10010> = AlignedBuffer::new();
    let (prefix, aligned, suffix) = aligned_parts(
        buffer.as_slice(),
        std::mem::align_of::<u16>(),
        std::mem::size_of::<u16>(),
    );
    assert_eq!(prefix, 0);
    assert_eq!(suffix, 0);
    assert_eq!(aligned, 0x10010 / 2);
}

#[test]
fn ensure_u32_slices_are_aligned() {
    let buffer: AlignedBuffer<16> = AlignedBuffer::new();
    let (prefix, aligned, suffix) = aligned_parts(
        buffer.as_slice(),
        std::mem::align_of::<u32>(),
        std::mem::size_of::<u32>(),
    );
    assert_eq!(prefix, 0);
    assert_eq!(suffix, 0);
    assert_eq!(aligned, 16 / 4);
    let buffer: AlignedBuffer<32> = AlignedBuffer::new();
    let (prefix, aligned, suffix) = aligned_parts(
        buffer.as_slice(),
        std::mem::align_of::<u32>(),
        std::mem::size_of::<u32>(),
    );
    assert_eq!(prefix, 0);
    assert_eq!(suffix, 0);
    assert_eq!(aligned, 32 / 4);
    let buffer: AlignedBuffer<64> = AlignedBuffer::new();
    let (prefix, aligned, suffix) = aligned_parts(
        buffer.as_slice(),
        std::mem::align_of::<u32>(),
        std::mem::size_of::<u32>(),
    );
    assert_eq!(prefix, 0);
    assert_eq!(suffix, 0);
    assert_eq!(aligned, 64 / 4);

    let buffer: AlignedBuffer<80> = AlignedBuffer::new();
    let (prefix, aligned, suffix) = aligned_parts(
        buffer.as_slice(),
        std::mem::align_of::<u32>(),
        std::mem::size_of::<u32>(),
    );
    assert_eq!(prefix, 0);
    assert_eq!(suffix, 0);
    assert_eq!(aligned, 80 / 4);

    let buffer: AlignedBuffer<240> = AlignedBuffer::new();
    let (prefix, aligned, suffix) = aligned_parts(
        buffer.as_slice(),
        std::mem::align_of::<u32>(),
        std::mem::size_of::<u32>(),
    );
    assert_eq!(prefix, 0);
    assert_eq!(suffix, 0);
    assert_eq!(aligned, 240 / 4);
    let buffer: AlignedBuffer<256> = AlignedBuffer::new();
    let (prefix, aligned, suffix) = aligned_parts(
        buffer.as_slice(),
        std::mem::align_of::<u32>(),
        std::mem::size_of::<u32>(),
    );
    assert_eq!(prefix, 0);
    assert_eq!(suffix, 0);
    assert_eq!(aligned, 256 / 4);
    let buffer: AlignedBuffer<272> = AlignedBuffer::new();
    let (prefix, aligned, suffix) = aligned_parts(
        buffer.as_slice(),
        std::mem::align_of::<u32>(),
        std::mem::size_of::<u32>(),
    );
    assert_eq!(prefix, 0);
    assert_eq!(suffix, 0);
    assert_eq!(aligned, 272 / 4);
    let buffer: AlignedBuffer<0x0fff0> = AlignedBuffer::new();
    let (prefix, aligned, suffix) = aligned_parts(
        buffer.as_slice(),
        std::mem::align_of::<u32>(),
        std::mem::size_of::<u32>(),
    );
    assert_eq!(prefix, 0);
    assert_eq!(suffix, 0);
    assert_eq!(aligned, 0x0fff0 / 4);
    let buffer: AlignedBuffer<0x10000> = AlignedBuffer::new();
    let (prefix, aligned, suffix) = aligned_parts(
        buffer.as_slice(),
        std::mem::align_of::<u32>(),
        std::mem::size_of::<u32>(),
    );
    assert_eq!(prefix, 0);
    assert_eq!(suffix, 0);
    assert_eq!(aligned, 0x10000 / 4);
    let buffer: AlignedBuffer<0x10010> = AlignedBuffer::new();
    let (prefix, aligned, suffix) = aligned_parts(
        buffer.as_slice(),
        std::mem::align_of::<u32>(),
        std::mem::size_of::<u32>(),
    );
    assert_eq!(prefix, 0);
    assert_eq!(suffix, 0);
    assert_eq!(aligned, 0x10010 / 4);
}

#[test]
fn ensure_u64_slices_are_aligned() {
    let buffer: AlignedBuffer<16> = AlignedBuffer::new();
    let (prefix, aligned, suffix) = aligned_parts(
        buffer.as_slice(),
        std::mem::align_of::<u64>(),
        std::mem::size_of::<u64>(),
    );
    assert_eq!(prefix, 0);
    assert_eq!(suffix, 0);
    assert_eq!(aligned, 16 / 8);
    let buffer: AlignedBuffer<32> = AlignedBuffer::new();
    let (prefix, aligned, suffix) = aligned_parts(
        buffer.as_slice(),
        std::mem::align_of::<u64>(),
        std::mem::size_of::<u64>(),
    );
    assert_eq!(prefix, 0);
    assert_eq!(suffix, 0);
    assert_eq!(aligned, 32 / 8);
    let buffer: AlignedBuffer<64> = AlignedBuffer::new();
    let (prefix, aligned, suffix) = aligned_parts(
        buffer.as_slice(),
        std::mem::align_of::<u64>(),
        std::mem::size_of::<u64>(),
    );
    assert_eq!(prefix, 0);
    assert_eq!(suffix, 0);
    assert_eq!(aligned, 64 / 8);

    let buffer: AlignedBuffer<80> = AlignedBuffer::new();
    let (prefix, aligned, suffix) = aligned_parts(
        buffer.as_slice(),
        std::mem::align_of::<u64>(),
        std::mem::size_of::<u64>(),
    );
    assert_eq!(prefix, 0);
    assert_eq!(suffix, 0);
    assert_eq!(aligned, 80 / 8);

    let buffer: AlignedBuffer<240> = AlignedBuffer::new();
    let (prefix, aligned, suffix) = aligned_parts(
        buffer.as_slice(),
        std::mem::align_of::<u64>(),
        std::mem::size_of::<u64>(),
    );
    assert_eq!(prefix, 0);
    assert_eq!(suffix, 0);
    assert_eq!(aligned, 240 / 8);
    let buffer: AlignedBuffer<256> = AlignedBuffer::new();
    let (prefix, aligned, suffix) = aligned_parts(
        buffer.as_slice(),
        std::mem::align_of::<u64>(),
        std::mem::size_of::<u64>(),
    );
    assert_eq!(prefix, 0);
    assert_eq!(suffix, 0);
    assert_eq!(aligned, 256 / 8);
    let buffer: AlignedBuffer<272> = AlignedBuffer::new();
    let (prefix, aligned, suffix) = aligned_parts(
        buffer.as_slice(),
        std::mem::align_of::<u64>(),
        std::mem::size_of::<u64>(),
    );
    assert_eq!(prefix, 0);
    assert_eq!(suffix, 0);
    assert_eq!(aligned, 272 / 8);
    let buffer: AlignedBuffer<0x0fff0> = AlignedBuffer::new();
    let (prefix, aligned, suffix) = aligned_parts(
        buffer.as_slice(),
        std::mem::align_of::<u64>(),
        std::mem::size_of::<u64>(),
    );
    assert_eq!(prefix, 0);
    assert_eq!(suffix, 0);
    assert_eq!(aligned, 0x0fff0 / 8);
    let buffer: AlignedBuffer<0x10000> = AlignedBuffer::new();
    let (prefix, aligned, suffix) = aligned_parts(
        buffer.as_slice(),
        std::mem::align_of::<u64>(),
        std::mem::size_of::<u64>(),
    );
    assert_eq!(prefix, 0);
    assert_eq!(suffix, 0);
    assert_eq!(aligned, 0x10000 / 8);
    let buffer: AlignedBuffer<0x10010> = AlignedBuffer::new();
    let (prefix, aligned, suffix) = aligned_parts(
        buffer.as_slice(),
        std::mem::align_of::<u64>(),
        std::mem::size_of::<u64>(),
    );
    assert_eq!(prefix, 0);
    assert_eq!(suffix, 0);
    assert_eq!(aligned, 0x10010 / 8);
}

#[test]
fn ensure_u128_slices_are_aligned() {
    let buffer: AlignedBuffer<16> = AlignedBuffer::new();
    let (prefix, aligned, suffix) = aligned_parts(
        buffer.as_slice(),
        std::mem::align_of::<u128>(),
        std::mem::size_of::<u128>(),
    );
    assert_eq!(prefix, 0);
    assert_eq!(suffix, 0);
    assert_eq!(aligned, 16 / 16);
    let buffer: AlignedBuffer<32> = AlignedBuffer::new();
    let (prefix, aligned, suffix) = aligned_parts(
        buffer.as_slice(),
        std::mem::align_of::<u128>(),
        std::mem::size_of::<u128>(),
    );
    assert_eq!(prefix, 0);
    assert_eq!(suffix, 0);
    assert_eq!(aligned, 32 / 16);
    let buffer: AlignedBuffer<64> = AlignedBuffer::new();
    let (prefix, aligned, suffix) = aligned_parts(
        buffer.as_slice(),
        std::mem::align_of::<u128>(),
        std::mem::size_of::<u128>(),
    );
    assert_eq!(prefix, 0);
    assert_eq!(suffix, 0);
    assert_eq!(aligned, 64 / 16);

    let buffer: AlignedBuffer<80> = AlignedBuffer::new();
    let (prefix, aligned, suffix) = aligned_parts(
        buffer.as_slice(),
        std::mem::align_of::<u128>(),
        std::mem::size_of::<u128>(),
    );
    assert_eq!(prefix, 0);
    assert_eq!(suffix, 0);
    assert_eq!(aligned, 80 / 16);

    let buffer: AlignedBuffer<240> = AlignedBuffer::new();
    let (prefix, aligned, suffix) = aligned_parts(
        buffer.as_slice(),
        std::mem::align_of::<u128>(),
        std::mem::size_of::<u128>(),
    );
    assert_eq!(prefix, 0);
    assert_eq!(suffix, 0);
    assert_eq!(aligned, 240 / 16);
    let buffer: AlignedBuffer<256> = AlignedBuffer::new();
    let (prefix, aligned, suffix) = aligned_parts(
        buffer.as_slice(),
        std::mem::align_of::<u128>(),
        std::mem::size_of::<u128>(),
    );
    assert_eq!(prefix, 0);
    assert_eq!(suffix, 0);
    assert_eq!(aligned, 256 / 16);
    let buffer: AlignedBuffer<272> = AlignedBuffer::new();
    let (prefix, aligned, suffix) = aligned_parts(
        buffer.as_slice(),
        std::mem::align_of::<u128>(),
        std::mem::size_of::<u128>(),
    );
    assert_eq!(prefix, 0);
    assert_eq!(suffix, 0);
    assert_eq!(aligned, 272 / 16);
    let buffer: AlignedBuffer<0x0fff0> = AlignedBuffer::new();
    let (prefix, aligned, suffix) = aligned_parts(
        buffer.as_slice(),
        std::mem::align_of::<u128>(),
        std::mem::size_of::<u128>(),
    );
    assert_eq!(prefix, 0);
    assert_eq!(suffix, 0);
    assert_eq!(aligned, 0x0fff0 / 16);
    let buffer: AlignedBuffer<0x10000> = AlignedBuffer::new();
    let (prefix, aligned, suffix) = aligned_parts(
        buffer.as_slice(),
        std::mem::align_of::<u128>(),
        std::mem::size_of::<u128>(),
    );
    assert_eq!(prefix, 0);
    assert_eq!(suffix, 0);
    assert_eq!(aligned, 0x10000 / 16);
    let buffer: AlignedBuffer<0x10010> = AlignedBuffer::new();
    let (prefix, aligned, suffix) = aligned_parts(
        buffer.as_slice(),
        std::mem::align_of::<u128>(),
        std::mem::size_of::<u128>(),
    );
    assert_eq!(prefix, 0);
    assert_eq!(suffix, 0);
    assert_eq!(aligned, 0x10010 / 16);
}

#[test]
fn ensure_usize_slices_are_aligned() {
    let buffer: AlignedBuffer<16> = AlignedBuffer::new();
    let (prefix, aligned, suffix) = aligned_parts(
        buffer.as_slice(),
        std::mem::align_of::<usize>(),
        std::mem::size_of::<usize>(),
    );
    assert_eq!(prefix, 0);
    assert_eq!(suffix, 0);
    assert_eq!(aligned, 16 / USIZE_LENGTH);
    let buffer: AlignedBuffer<32> = AlignedBuffer::new();
    let (prefix, aligned, suffix) = aligned_parts(
        buffer.as_slice(),
        std::mem::align_of::<usize>(),
        std::mem::size_of::<usize>(),
    );
    assert_eq!(prefix, 0);
    assert_eq!(suffix, 0);
    assert_eq!(aligned, 32 / USIZE_LENGTH);
    let buffer: AlignedBuffer<64> = AlignedBuffer::new();
    let (prefix, aligned, suffix) = aligned_parts(
        buffer.as_slice(),
        std::mem::align_of::<usize>(),
        std::mem::size_of::<usize>(),
    );
    assert_eq!(prefix, 0);
    assert_eq!(suffix, 0);
    assert_eq!(aligned, 64 / USIZE_LENGTH);

    let buffer: AlignedBuffer<80> = AlignedBuffer::new();
    let (prefix, aligned, suffix) = aligned_parts(
        buffer.as_slice(),
        std::mem::align_of::<usize>(),
        std::mem::size_of::<usize>(),
    );
    assert_eq!(prefix, 0);
    assert_eq!(suffix, 0);
    assert_eq!(aligned, 80 / USIZE_LENGTH);

    let buffer: AlignedBuffer<240> = AlignedBuffer::new();
    let (prefix, aligned, suffix) = aligned_parts(
        buffer.as_slice(),
        std::mem::align_of::<usize>(),
        std::mem::size_of::<usize>(),
    );
    assert_eq!(prefix, 0);
    assert_eq!(suffix, 0);
    assert_eq!(aligned, 240 / USIZE_LENGTH);
    let buffer: AlignedBuffer<256> = AlignedBuffer::new();
    let (prefix, aligned, suffix) = aligned_parts(
        buffer.as_slice(),
        std::mem::align_of::<usize>(),
        std::mem::size_of::<usize>(),
    );
    assert_eq!(prefix, 0);
    assert_eq!(suffix, 0);
    assert_eq!(aligned, 256 / USIZE_LENGTH);
    let buffer: AlignedBuffer<272> = AlignedBuffer::new();
    let (prefix, aligned, suffix) = aligned_parts(
        buffer.as_slice(),
        std::mem::align_of::<usize>(),
        std::mem::size_of::<usize>(),
    );
    assert_eq!(prefix, 0);
    assert_eq!(suffix, 0);
    assert_eq!(aligned, 272 / USIZE_LENGTH);
    let buffer: AlignedBuffer<0x0fff0> = AlignedBuffer::new();
    let (prefix, aligned, suffix) = aligned_parts(
        buffer.as_slice(),
        std::mem::align_of::<usize>(),
        std::mem::size_of::<usize>(),
    );
    assert_eq!(prefix, 0);
    assert_eq!(suffix, 0);
    assert_eq!(aligned, 0x0fff0 / USIZE_LENGTH);
    let buffer: AlignedBuffer<0x10000> = AlignedBuffer::new();
    let (prefix, aligned, suffix) = aligned_parts(
        buffer.as_slice(),
        std::mem::align_of::<usize>(),
        std::mem::size_of::<usize>(),
    );
    assert_eq!(prefix, 0);
    assert_eq!(suffix, 0);
    assert_eq!(aligned, 0x10000 / USIZE_LENGTH);
    let buffer: AlignedBuffer<0x10010> = AlignedBuffer::new();
    let (prefix, aligned, suffix) = aligned_parts(
        buffer.as_slice(),
        std::mem::align_of::<usize>(),
        std::mem::size_of::<usize>(),
    );
    assert_eq!(prefix, 0);
    assert_eq!(suffix, 0);
    assert_eq!(aligned, 0x10010 / USIZE_LENGTH);
}

#[test]
fn ensure_primitive_types_are_correctly_aligned() {
    let buffer: AlignedBuffer<64> = AlignedBuffer::new();

    buffer.view_as::<u8>();
    buffer.view_as::<i8>();
    buffer.view_as::<u16>();
    buffer.view_as::<i16>();
    buffer.view_as::<u32>();
    buffer.view_as::<i32>();
    buffer.view_as::<u64>();
    buffer.view_as::<i64>();
    buffer.view_as::<u128>();
    buffer.view_as::<i128>();
    buffer.view_as::<usize>();
    buffer.view_as::<isize>();
}

#[test]
fn buffer_starts_at_a_sixteen_byte_boundary() {
    let buffer: AlignedBuffer<32> = AlignedBuffer::new();
    assert_eq!(std::mem::align_of::<AlignedBuffer<32>>() % 16, 0);
    assert_eq!(buffer.as_slice().as_ptr().align_offset(16), 0);
}

#[test]
fn views_read_least_significant_byte_first() {
    let mut buffer: AlignedBuffer<32> = AlignedBuffer::new();
    buffer.as_mut_slice()[16] = 5;
    buffer.as_mut_slice()[1] = 1;
    let words = buffer.view_as::<u128>();
    assert_eq!(words.len(), 2);
    assert_eq!(words[0], 256);
    assert_eq!(words[1], 5);
    let halves = buffer.view_as::<u16>();
    assert_eq!(halves[0], 256);
    assert_eq!(halves[8], 5);
    buffer.as_mut_slice()[3] = 0xff;
    let signed = buffer.view_as::<i16>();
    assert_eq!(signed[1], -256);
    assert_eq!(buffer.view_as::<i8>()[3], -1);
}
