use gif::{
    deinterlace, lzw_decode, BitReader, Color, Decoder, DisposalMethod, GifError, Lzw,
};

/// The 35-byte 1x1 image: a two-color global table (white, black), no
/// extensions, one pixel of color 0.
fn one_pixel() -> Vec<u8> {
    vec![
        0x47, 0x49, 0x46, 0x38, 0x39, 0x61, // GIF89a
        0x01, 0x00, 0x01, 0x00, 0x80, 0x00, 0x00, // screen descriptor
        0xFF, 0xFF, 0xFF, 0x00, 0x00, 0x00, // global table
        0x2C, 0x00, 0x00, 0x00, 0x00, 0x01, 0x00, 0x01, 0x00, 0x00, // image descriptor
        0x02, 0x02, 0x44, 0x01, 0x00, // image data
        0x3B,
    ]
}

fn decode(bytes: &[u8]) -> Result<gif::Gif, GifError> {
    let mut d = Decoder::new();
    d.decode(bytes)
}

#[test]
fn minimal_one_pixel_gif() {
    let bytes = one_pixel();
    assert_eq!(bytes.len(), 35);
    let g = decode(&bytes).unwrap();
    assert_eq!(g.version, b"89a".to_vec());
    assert_eq!(g.lsd.width, 1);
    assert_eq!(g.lsd.height, 1);
    assert!(g.lsd.global_color_flag);
    assert_eq!(g.lsd.global_color_size, 0);
    let table = g.global_table.clone().unwrap();
    assert_eq!(table.len(), 2);
    assert_eq!(table[0], Color { red: 255, green: 255, blue: 255, alpha: 255 });
    assert_eq!(table[1], Color { red: 0, green: 0, blue: 0, alpha: 255 });
    assert_eq!(g.frames.len(), 1);
    let f = &g.frames[0];
    assert_eq!(f.pixels, vec![0u8]);
    assert_eq!(table[f.pixels[0] as usize], Color { red: 255, green: 255, blue: 255, alpha: 255 });
    assert_eq!(f.gce.disposal_method, DisposalMethod::NoAction);
    assert_eq!(f.gce.delay_time, 0);
    assert!(f.local_table.is_none());
}

#[test]
fn graphics_control_extension_is_paired_with_next_frame() {
    let mut bytes = one_pixel();
    let gce = [0x21, 0xF9, 0x04, 0x09, 0x0A, 0x00, 0x01, 0x00];
    for (k, b) in gce.iter().enumerate() {
        bytes.insert(19 + k, *b);
    }
    let g = decode(&bytes).unwrap();
    let f = &g.frames[0];
    assert_eq!(f.gce.disposal_method, DisposalMethod::RestoreToBackground);
    assert!(!f.gce.user_input_flag);
    assert!(f.gce.transparent_color_flag);
    assert_eq!(f.gce.delay_time, 10);
    assert_eq!(f.gce.transparent_color_index, 1);
}

#[test]
fn reserved_disposal_method_is_kept() {
    let mut bytes = one_pixel();
    let gce = [0x21, 0xF9, 0x04, 0x1C, 0x00, 0x00, 0x00, 0x00];
    for (k, b) in gce.iter().enumerate() {
        bytes.insert(19 + k, *b);
    }
    let g = decode(&bytes).unwrap();
    assert_eq!(g.frames[0].gce.disposal_method, DisposalMethod::Reserved(7));
}

#[test]
fn extensions_are_skipped() {
    let mut bytes = one_pixel();
    let ext = [
        0x21, 0xFE, 0x02, b'h', b'i', 0x00, // comment
        0x21, 0xFF, 0x0B, b'N', b'E', b'T', b'S', b'C', b'A', b'P', b'E', b'2', b'.', b'0', 0x03,
        0x01, 0x00, 0x00, 0x00, // application
        0x21, 0x01, 0x02, 0x00, 0x00, 0x01, 0x41, 0x00, // plain text
    ];
    for (k, b) in ext.iter().enumerate() {
        bytes.insert(19 + k, *b);
    }
    let g = decode(&bytes).unwrap();
    assert_eq!(g.frames.len(), 1);
    assert_eq!(g.frames[0].pixels, vec![0u8]);
}

#[test]
fn truncated_in_color_table_is_eof() {
    let bytes = one_pixel();
    assert_eq!(decode(&bytes[..16]).err(), Some(GifError::UnexpectedEof));
}

#[test]
fn truncated_anywhere_is_eof() {
    let bytes = one_pixel();
    for n in 3..bytes.len() {
        assert_eq!(decode(&bytes[..n]).err(), Some(GifError::UnexpectedEof), "cut at {}", n);
    }
}

#[test]
fn wrong_signature() {
    let mut bytes = one_pixel();
    bytes[0] = b'J';
    let mut d = Decoder::new();
    assert_eq!(d.decode(&bytes).err(), Some(GifError::SignatureError));
    assert_eq!(d.offset, 0);
}

#[test]
fn unknown_block_is_malformed() {
    let mut bytes = one_pixel();
    bytes[19] = 0x99;
    assert_eq!(decode(&bytes).err(), Some(GifError::MalformedBlock));
}

#[test]
fn unknown_extension_label() {
    let mut bytes = one_pixel();
    bytes.insert(19, 0x21);
    bytes.insert(20, 0x99);
    assert_eq!(decode(&bytes).err(), Some(GifError::UnknownExtension));
}

#[test]
fn bad_control_extension_terminator() {
    let mut bytes = one_pixel();
    let gce = [0x21, 0xF9, 0x04, 0x00, 0x00, 0x00, 0x00, 0x07];
    for (k, b) in gce.iter().enumerate() {
        bytes.insert(19 + k, *b);
    }
    assert_eq!(decode(&bytes).err(), Some(GifError::MalformedBlock));
}

#[test]
fn pixel_count_mismatch() {
    let mut bytes = one_pixel();
    bytes[24] = 0x02; // image width 2, one pixel of data
    assert_eq!(decode(&bytes).err(), Some(GifError::IndexStreamLengthMismatch));
}

#[test]
fn pixel_outside_table_is_rejected() {
    // codes clear, 3, end at width 3: 4 | 3 << 3 | 5 << 6 = 0x15C
    let mut bytes = one_pixel();
    bytes[31] = 0x5C;
    bytes[32] = 0x01;
    assert_eq!(decode(&bytes).err(), Some(GifError::InvalidLzwCode));
}

#[test]
fn stream_without_end_code_is_truncated() {
    let mut bytes = one_pixel();
    bytes[30] = 0x01;
    bytes[31] = 0x04; // clear code only
    bytes[32] = 0x00;
    bytes.remove(33);
    assert_eq!(decode(&bytes).err(), Some(GifError::TruncatedLzwStream));
}

/// Packs codes of the given widths least significant bit first.
fn pack(codes: &[(u32, u32)]) -> Vec<u8> {
    let mut out = Vec::new();
    let mut acc: u64 = 0;
    let mut n: u32 = 0;
    for &(c, w) in codes {
        acc |= (c as u64) << n;
        n += w;
        while n >= 8 {
            out.push((acc & 0xFF) as u8);
            acc >>= 8;
            n -= 8;
        }
    }
    if n > 0 {
        out.push(acc as u8);
    }
    out
}

#[test]
fn lzw_round_trip_small_sequence() {
    let data = pack(&[(4, 3), (1, 3), (2, 3), (1, 3), (5, 4)]);
    assert_eq!(data, vec![0x8C, 0x52]);
    assert_eq!(lzw_decode(2, &data).unwrap(), vec![1, 2, 1]);

    let mut lzw = Lzw::new(2);
    lzw.step(4).unwrap();
    assert_eq!(lzw.next_code(), 6);
    lzw.step(1).unwrap();
    assert_eq!(lzw.next_code(), 6);
    lzw.step(2).unwrap();
    assert_eq!(lzw.next_code(), 7);
    lzw.step(1).unwrap();
    assert_eq!(lzw.next_code(), 8);
    assert_eq!(lzw.code_width(), 4);
    lzw.step(5).unwrap();
    assert!(lzw.is_done());
    assert_eq!(lzw.output(), &vec![1, 2, 1]);
}

#[test]
fn lzw_kwkwk_case() {
    // clear, 1, then code 6 (not yet assigned): emits 1 1
    let data = pack(&[(4, 3), (1, 3), (6, 3), (5, 3)]);
    assert_eq!(lzw_decode(2, &data).unwrap(), vec![1, 1, 1]);
}

#[test]
fn lzw_code_past_next_is_invalid() {
    let mut lzw = Lzw::new(2);
    lzw.step(1).unwrap();
    assert_eq!(lzw.step(7), Err(GifError::InvalidLzwCode));
    let data = pack(&[(4, 3), (1, 3), (7, 3), (5, 3)]);
    assert_eq!(lzw_decode(2, &data), Err(GifError::InvalidLzwCode));
}

#[test]
fn lzw_first_code_after_clear_must_be_literal() {
    let mut lzw = Lzw::new(2);
    assert_eq!(lzw.step(6), Err(GifError::InvalidLzwCode));
}

#[test]
fn code_width_grows_at_powers_of_two() {
    let mut lzw = Lzw::new(2);
    lzw.step(4).unwrap();
    lzw.step(0).unwrap();
    assert_eq!(lzw.code_width(), 3);
    for _ in 0..5000 {
        let before = lzw.next_code();
        let width = lzw.code_width();
        lzw.step(0).unwrap();
        let after = lzw.next_code();
        if before < 4096 {
            assert_eq!(after, before + 1);
        } else {
            assert_eq!(after, 4096);
        }
        let expected = if after > before && after == 1usize << width && width < 12 { width + 1 } else { width };
        assert_eq!(lzw.code_width(), expected);
        assert!(lzw.code_width() <= 12);
        if after <= 4095 {
            let mut w = 3;
            while (1usize << w) <= after {
                w += 1;
            }
            assert_eq!(lzw.code_width(), w);
        }
    }
    assert_eq!(lzw.next_code(), 4096);
    assert_eq!(lzw.code_width(), 12);
    lzw.step(4).unwrap();
    assert_eq!(lzw.code_width(), 3);
    assert_eq!(lzw.next_code(), 6);
}

#[test]
fn bit_reader_least_significant_first() {
    let mut r = BitReader::new();
    r.push_byte(0x44);
    assert!(r.has_bits(3));
    assert_eq!(r.read_code(3), Ok(4));
    assert_eq!(r.read_code(3), Ok(0));
    assert_eq!(r.read_code(3), Err(GifError::InsufficientBits));
    r.push_byte(0x01);
    assert_eq!(r.read_code(3), Ok(5));
    assert!(!r.has_bits(8));
}

#[test]
fn interlaced_rows_follow_four_passes() {
    let h = 20usize;
    let stream: Vec<u8> = (0..h as u8).collect();
    let out = deinterlace(&stream, 1, h);
    let order: Vec<usize> = vec![0, 8, 16, 4, 12, 2, 6, 10, 14, 18, 1, 3, 5, 7, 9, 11, 13, 15, 17, 19];
    for (k, row) in order.iter().enumerate() {
        assert_eq!(out[*row], k as u8);
    }
    assert_eq!(out[0], 0);
    assert_eq!(out[4], 3);
    assert_eq!(out[1], 10);
}

#[test]
fn interlaced_frame_is_reordered() {
    // 1x4 image, interlaced, indices 0 1 0 1 in stream order
    let mut bytes = vec![
        0x47, 0x49, 0x46, 0x38, 0x37, 0x61, 0x01, 0x00, 0x04, 0x00, 0x80, 0x00, 0x00, 0xFF, 0xFF,
        0xFF, 0x00, 0x00, 0x00, 0x2C, 0x00, 0x00, 0x00, 0x00, 0x01, 0x00, 0x04, 0x00, 0x40, 0x02,
    ];
    let data = pack(&[(4, 3), (0, 3), (1, 3), (0, 3), (1, 4), (5, 4)]);
    bytes.push(data.len() as u8);
    bytes.extend_from_slice(&data);
    bytes.push(0x00);
    bytes.push(0x3B);
    let g = decode(&bytes).unwrap();
    assert_eq!(g.version, b"87a".to_vec());
    // stream rows go to rows 0, 2, 1, 3 for a height of 4... rows 0 (pass 1), 2 (pass 3), 1, 3 (pass 4)
    assert_eq!(g.frames[0].pixels, vec![0, 0, 1, 1]);
}

#[test]
fn local_table_resolves_frame() {
    let mut bytes = one_pixel();
    bytes[28] = 0x80; // local table of two entries
    let local = [1u8, 2, 3, 4, 5, 6];
    for (k, b) in local.iter().enumerate() {
        bytes.insert(29 + k, *b);
    }
    let g = decode(&bytes).unwrap();
    let t = g.frames[0].local_table.clone().unwrap();
    assert_eq!(t, vec![Color { red: 1, green: 2, blue: 3, alpha: 255 }, Color { red: 4, green: 5, blue: 6, alpha: 255 }]);
}

#[test]
fn error_messages() {
    assert_eq!(GifError::SignatureError.message(), "Signature Error");
}
