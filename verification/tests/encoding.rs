//! Operand encoding and chunk framing behaviour.

use bada::codec::{encode_arg, encode_chunk, pad_chunk, Tag};
use bada::diag::CompileError;

#[test]
fn short_form_is_one_byte_value_shifted_over_tag() {
    // For every tag and every value below 16, one byte: (n << 4) | tag.
    let tags = [
        (Tag::U, 0u8),
        (Tag::I, 1),
        (Tag::A, 2),
        (Tag::X, 3),
        (Tag::F, 5),
    ];
    for &(tag, tag_byte) in tags.iter() {
        for n in 0..16i32 {
            let bytes = encode_arg(tag, n).unwrap();
            assert_eq!(bytes, vec![((n as u8) << 4) | tag_byte]);
        }
    }
}

#[test]
fn two_byte_form_decodes_back() {
    let tags = [
        (Tag::U, 0u8),
        (Tag::I, 1),
        (Tag::A, 2),
        (Tag::X, 3),
        (Tag::F, 5),
    ];
    for &(tag, tag_byte) in tags.iter() {
        for n in [16i32, 17, 100, 255, 256, 1000, 0x7FF] {
            let bytes = encode_arg(tag, n).unwrap();
            assert_eq!(bytes.len(), 2);
            let (b0, b1) = (bytes[0], bytes[1]);
            assert_eq!(b0 & 0x07, tag_byte);
            assert_eq!(b0 & 0x08, 0x08);
            assert_eq!(((b0 as u32 & 0xE0) << 3) | b1 as u32, n as u32);
        }
    }
}

#[test]
fn known_operand_bytes() {
    assert_eq!(encode_arg(Tag::U, 5).unwrap(), vec![0x50]);
    assert_eq!(encode_arg(Tag::I, 42).unwrap(), vec![0x09, 0x2A]);
    assert_eq!(encode_arg(Tag::X, 0).unwrap(), vec![0x03]);
    assert_eq!(encode_arg(Tag::X, 100).unwrap(), vec![0x0B, 0x64]);
}

#[test]
fn encoder_rejects_out_of_range() {
    for n in [-1i32, -100, i32::MIN, 0x800, 0x801, i32::MAX] {
        match encode_arg(Tag::U, n) {
            Err(CompileError::EncodingUnsupported(v)) => assert_eq!(v, n as i128),
            _ => panic!("expected failure for {n}"),
        }
    }
}

#[test]
fn chunk_framing_alignment() {
    // For any payload length L the frame is 8 + ((L + 3) & !3) bytes and the
    // length field records L itself.
    for l in 0usize..9 {
        let payload = vec![0xABu8; l];
        let framed = encode_chunk(*b"TsTt", payload);
        assert_eq!(framed.len(), 8 + ((l + 3) & !3usize));
        assert_eq!(&framed[0..4], b"TsTt");
        assert_eq!(&framed[4..8], (l as u32).to_be_bytes().as_slice());
        assert_eq!(&framed[8..8 + l], vec![0xABu8; l].as_slice());
        for &b in &framed[8 + l..] {
            assert_eq!(b, 0);
        }
    }
}

#[test]
fn pad_chunk_pads_to_word_multiple() {
    let mut v = vec![1u8, 2, 3, 4, 5];
    pad_chunk(4, &mut v);
    assert_eq!(v, vec![1, 2, 3, 4, 5, 0, 0, 0]);
    let mut w = vec![1u8, 2, 3, 4];
    pad_chunk(4, &mut w);
    assert_eq!(w, vec![1, 2, 3, 4]);
    let mut e: Vec<u8> = Vec::new();
    pad_chunk(4, &mut e);
    assert_eq!(e, Vec::<u8>::new());
}
