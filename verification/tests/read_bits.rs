use demoparser::read_bits::validate_decompressed_size;
use demoparser::read_bits::read_varint;
use demoparser::read_bits::BitCoordParts;
use demoparser::read_bits::Bitreader;
use demoparser::read_bits::DemoParserError;
use demoparser::read_bits::MAX_DECOMPRESSED_BYTES;
use demoparser::read_bits::MAX_MESSAGE_BYTES;

#[test]
fn length_prefixed_reads_validate_before_allocating() {
    let mut reader = Bitreader::new(&[0_u8; 4]);
    assert!(matches!(
        reader.read_n_bytes(MAX_MESSAGE_BYTES + 1),
        Err(DemoParserError::ResourceLimitExceeded(_))
    ));

    let mut reader = Bitreader::new(&[0_u8; 4]);
    assert!(matches!(
        reader.read_n_bytes(5),
        Err(DemoParserError::FailedByteRead(_))
    ));
}

#[test]
fn decompression_limits_reject_bombs() {
    assert!(validate_decompressed_size(1024, 32 * 1024).is_ok());
    assert!(matches!(
        validate_decompressed_size(8, MAX_DECOMPRESSED_BYTES),
        Err(DemoParserError::ResourceLimitExceeded(_))
    ));
    assert!(matches!(
        validate_decompressed_size(MAX_DECOMPRESSED_BYTES, MAX_DECOMPRESSED_BYTES + 1),
        Err(DemoParserError::ResourceLimitExceeded(_))
    ));
}

#[test]
fn decompression_ratio_boundary() {
    // 8 KiB may grow 256-fold to exactly 2 MiB, not one byte more.
    assert_eq!(validate_decompressed_size(8192, 2 * 1024 * 1024), Ok(()));
    assert_eq!(
        validate_decompressed_size(8192, 2 * 1024 * 1024 + 1),
        Err(DemoParserError::ResourceLimitExceeded("decompression ratio exceeds limit"))
    );
    // Tiny frames may always decompress to 1 MiB.
    assert_eq!(validate_decompressed_size(0, 1024 * 1024), Ok(()));
    assert_eq!(
        validate_decompressed_size(0, 1024 * 1024 + 1),
        Err(DemoParserError::ResourceLimitExceeded("decompression ratio exceeds limit"))
    );
    // The ratio saturates instead of overflowing.
    assert_eq!(validate_decompressed_size(usize::MAX, MAX_DECOMPRESSED_BYTES), Ok(()));
    assert_eq!(
        validate_decompressed_size(usize::MAX, MAX_DECOMPRESSED_BYTES + 1),
        Err(DemoParserError::ResourceLimitExceeded("decompressed frame exceeds limit"))
    );
}

#[test]
fn byte_varint_decodes_and_advances() {
    let bytes = [0x96_u8, 0x01, 0x7f];
    let mut ptr = 0;
    assert_eq!(read_varint(&bytes, &mut ptr), Ok(150));
    assert_eq!(ptr, 2);
    assert_eq!(read_varint(&bytes, &mut ptr), Ok(127));
    assert_eq!(ptr, 3);
}

#[test]
fn byte_varint_out_of_bytes() {
    let bytes = [0x80_u8, 0x80];
    let mut ptr = 0;
    assert_eq!(read_varint(&bytes, &mut ptr), Err(DemoParserError::OutOfBytesError));
    assert_eq!(ptr, 2);
    let mut ptr = 7;
    assert_eq!(read_varint(&bytes, &mut ptr), Err(DemoParserError::OutOfBytesError));
    assert_eq!(ptr, 7);
}

#[test]
fn byte_varint_stops_after_five_bytes() {
    let bytes = [0xff_u8, 0xff, 0xff, 0xff, 0xff, 0x01];
    let mut ptr = 0;
    assert_eq!(read_varint(&bytes, &mut ptr), Ok(u32::MAX));
    assert_eq!(ptr, 5);
}

#[test]
fn nbits_read_least_significant_first() {
    let data = [0b1010_1100_u8, 0xff, 0x12];
    let mut reader = Bitreader::new(&data);
    assert_eq!(reader.read_nbits(4), Ok(0b1100));
    assert_eq!(reader.read_nbits(4), Ok(0b1010));
    assert_eq!(reader.read_nbits(8), Ok(0xff));
    assert_eq!(reader.read_boolean(), Ok(false));
    assert_eq!(reader.read_boolean(), Ok(true));
    assert_eq!(reader.bits_remaining(), Some(6));
}

#[test]
fn nbits_span_refills() {
    let data: Vec<u8> = (0u8..16).collect();
    let mut reader = Bitreader::new(&data);
    assert_eq!(reader.read_nbits(32), Ok(0x0302_0100));
    assert_eq!(reader.read_nbits(32), Ok(0x0706_0504));
    assert_eq!(reader.read_nbits(4), Ok(0x8));
    assert_eq!(reader.read_nbits(32), Ok(0xc0b0_a090));
    assert_eq!(reader.bits_remaining(), Some(28));
}

#[test]
fn bit_varints() {
    let data = [0x96_u8, 0x01, 0x03, 0x04];
    let mut reader = Bitreader::new(&data);
    assert_eq!(reader.read_varint(), Ok(150));
    assert_eq!(reader.read_varint32(), Ok(-2));
    assert_eq!(reader.read_varint32(), Ok(2));
    assert_eq!(reader.bits_remaining(), Some(0));
}

#[test]
fn signed_varint_keeps_the_sign_of_high_values() {
    // 0x8000_0000 read as i32 is i32::MIN; shifted with its sign it stays negative.
    let data = [0x80_u8, 0x80, 0x80, 0x80, 0x08];
    let mut reader = Bitreader::new(&data);
    assert_eq!(reader.read_varint32(), Ok(-0x4000_0000));
}

#[test]
fn varint_u64_limits() {
    let mut data = vec![0x80_u8; 9];
    data.push(0x01);
    let mut reader = Bitreader::new(&data);
    assert_eq!(reader.read_varint_u_64(), Ok(1u64 << 63));

    let mut data = vec![0xff_u8; 9];
    data.push(0x02);
    let mut reader = Bitreader::new(&data);
    assert_eq!(reader.read_varint_u_64(), Err(DemoParserError::MalformedMessage));
    assert_eq!(reader.bits_remaining(), Some(0));

    let data = [0xac_u8, 0x02];
    let mut reader = Bitreader::new(&data);
    assert_eq!(reader.read_varint_u_64(), Ok(300));
}

#[test]
fn u_bit_var_header_and_extension() {
    // Header 5 has no extension.
    let mut reader = Bitreader::new(&[0x05_u8]);
    assert_eq!(reader.read_u_bit_var(), Ok(5));
    // Header 19 (0b01_0011) takes 4 more bits, here 11: 3 + 16 * 11.
    let mut reader = Bitreader::new(&[0xd3_u8, 0x02]);
    assert_eq!(reader.read_u_bit_var(), Ok(179));
    assert_eq!(reader.bits_remaining(), Some(6));
    // Header 0b11_0000 takes 28 more bits, all set here.
    let mut reader = Bitreader::new(&[0xf0_u8, 0xff, 0xff, 0xff, 0x03]);
    assert_eq!(reader.read_u_bit_var(), Ok(0xffff_fff0));
}

#[test]
fn field_path_u_bit_var_widths() {
    // First flag set: two bits follow.
    let mut reader = Bitreader::new(&[0b0000_0111_u8]);
    assert_eq!(reader.read_ubit_var_fp(), Ok(3));
    // Second flag set: four bits follow.
    let mut reader = Bitreader::new(&[0b0010_1010_u8]);
    assert_eq!(reader.read_ubit_var_fp(), Ok(0b1010));
    // No flag among four: 31 bits follow.
    let mut reader = Bitreader::new(&[0x10_u8, 0, 0, 0, 0]);
    assert_eq!(reader.read_ubit_var_fp(), Ok(1));
}

#[test]
fn bit_coord_parts() {
    let mut reader = Bitreader::new(&[0u8]);
    assert_eq!(
        reader.read_bit_coord_parts().map(|p| (p.negative, p.int_val, p.frac_val)),
        Ok((false, 0, 0))
    );
    assert_eq!(reader.bits_remaining(), Some(6));
    // Integer flag and sign set, integer bits 2 (stored as one less), no fraction.
    let mut reader = Bitreader::new(&[0b0001_0101_u8, 0, 0]);
    let p: BitCoordParts = reader.read_bit_coord_parts().unwrap();
    assert_eq!((p.negative, p.int_val, p.frac_val), (true, 3, 0));
    assert_eq!(reader.bits_remaining(), Some(24 - 17));
}

#[test]
fn n_bytes_read_and_fail() {
    let data = [1_u8, 2, 3, 4];
    let mut reader = Bitreader::new(&data);
    assert_eq!(reader.read_n_bytes(2), Ok(vec![1, 2]));
    assert_eq!(
        reader.read_n_bytes(3),
        Err(DemoParserError::FailedByteRead(
            "Failed to read message/command. bytes left in stream: 2, requested bytes: 3".to_string()
        ))
    );
    assert_eq!(reader.read_n_bytes(2), Ok(vec![3, 4]));
}

#[test]
fn n_bytes_unaligned() {
    let data = [0xab_u8, 0xcd, 0xef];
    let mut reader = Bitreader::new(&data);
    assert_eq!(reader.read_nbits(4), Ok(0xb));
    assert_eq!(reader.read_n_bytes(1), Ok(vec![0xda]));
    assert_eq!(reader.read_nbits(4), Ok(0xc));
    assert_eq!(reader.read_nbits(8), Ok(0xef));
}

#[test]
fn n_bytes_into_buffer() {
    let data = [9_u8, 8, 7];
    let mut reader = Bitreader::new(&data);
    let mut buf = [0_u8; 4];
    assert_eq!(reader.read_n_bytes_mut(2, &mut buf), Ok(()));
    assert_eq!(buf, [9, 8, 0, 0]);
    let mut short = [0_u8; 0];
    assert_eq!(reader.read_n_bytes_mut(1, &mut short), Err(DemoParserError::MalformedMessage));
    assert_eq!(
        reader.read_n_bytes_mut(MAX_MESSAGE_BYTES + 1, &mut buf),
        Err(DemoParserError::ResourceLimitExceeded("length-prefixed message exceeds limit"))
    );
    assert_eq!(reader.read_n_bytes_mut(1, &mut buf), Ok(()));
    assert_eq!(buf, [7, 8, 0, 0]);
}

#[test]
fn ensure_bytes_remaining_counts_whole_bytes() {
    let data = [0_u8; 3];
    let mut reader = Bitreader::new(&data);
    assert_eq!(reader.read_nbits(1), Ok(0));
    assert_eq!(reader.ensure_bytes_remaining(2), Ok(()));
    assert!(matches!(
        reader.ensure_bytes_remaining(3),
        Err(DemoParserError::FailedByteRead(_))
    ));
}

#[test]
fn bit_coord_availability() {
    // Both flags set: 2 + 1 + 14 + 5 bits are needed.
    let mut reader = Bitreader::new(&[0b11_u8, 0]);
    assert!(!reader.has_bit_coord());
    let mut reader = Bitreader::new(&[0b11_u8, 0, 0]);
    assert!(reader.has_bit_coord());
    assert_eq!(reader.bits_remaining(), Some(24));
    // No flags: two bits suffice.
    let mut reader = Bitreader::new(&[0_u8]);
    assert_eq!(reader.read_nbits(6), Ok(0));
    assert!(reader.has_bit_coord());
    assert_eq!(reader.read_nbits(1), Ok(0));
    assert!(!reader.has_bit_coord());
}

#[test]
fn overlong_varint_u64_is_malformed() {
    let mut data = vec![0x80_u8; 11];
    data.push(0x00);
    data.push(0x55);
    let mut reader = Bitreader::new(&data);
    assert_eq!(reader.read_varint_u_64(), Err(DemoParserError::MalformedMessage));
    assert_eq!(reader.read_nbits(8), Ok(0x55));
}

#[test]
fn new_reader_starts_empty() {
    let data = [1_u8, 2, 3];
    let mut reader = Bitreader::new(&data);
    assert_eq!((reader.bits_left, reader.bits, reader.total_bits_left), (0, 0, 0));
    assert_eq!(reader.bits_remaining(), Some(24));
}

#[test]
fn wide_reads_and_peeks() {
    let data = [0xff_u8; 10];
    let mut reader = Bitreader::new(&data);
    reader.refill();
    assert!(reader.bits_left >= 56);
    assert_eq!(reader.peek(3), 0b111);
    // 60 bits come back cut to their low 32.
    if reader.bits_left >= 60 {
        assert_eq!(reader.read_nbits(60), Ok(u32::MAX));
    } else {
        assert_eq!(reader.read_nbits(56), Ok(u32::MAX));
    }
}

#[test]
fn zigzag_values_read_back() {
    for v in [-3_i32, 0, 1, -1, 1000, -(1 << 30), (1 << 30) - 1] {
        let z = ((v << 1) ^ (v >> 31)) as u32;
        let mut bytes = Vec::new();
        let mut rest = z;
        loop {
            if rest < 0x80 {
                bytes.push(rest as u8);
                break;
            }
            bytes.push((rest & 0x7f) as u8 | 0x80);
            rest >>= 7;
        }
        let mut reader = Bitreader::new(&bytes);
        assert_eq!(reader.read_varint32(), Ok(v));
    }
}

#[test]
fn bit_coord_sign_bit() {
    let mut plus = Bitreader::new(&[0b0000_1011_u8, 0, 0]);
    let mut minus = Bitreader::new(&[0b0000_1111_u8, 0, 0]);
    let p = plus.read_bit_coord_parts().unwrap();
    let m = minus.read_bit_coord_parts().unwrap();
    assert_eq!((p.negative, m.negative), (false, true));
    assert_eq!((p.int_val, p.frac_val), (m.int_val, m.frac_val));
    assert_eq!((p.int_val, p.frac_val), (2, 0));
}

#[test]
fn varint_availability() {
    let mut reader = Bitreader::new(&[0x96_u8, 0x01]);
    assert!(reader.has_varint());
    assert_eq!(reader.bits_remaining(), Some(16));
    assert_eq!(reader.read_varint(), Ok(150));
    // A continuation byte with nothing after it.
    let mut reader = Bitreader::new(&[0x96_u8]);
    assert!(!reader.has_varint());
    // Five continuation bytes are as far as the reader looks.
    let mut reader = Bitreader::new(&[0x80_u8; 5]);
    assert!(reader.has_varint());
    let mut reader = Bitreader::new(&[0x80_u8; 4]);
    assert!(!reader.has_varint());
    let mut reader = Bitreader::new(&[]);
    assert!(!reader.has_varint());
    // Off a byte boundary the bytes are taken from the next eight bits each.
    let mut reader = Bitreader::new(&[0x10_u8, 0x10]);
    assert_eq!(reader.read_nbits(4), Ok(0));
    assert!(reader.has_varint());
    assert_eq!(reader.read_varint(), Ok(1));
    let mut reader = Bitreader::new(&[0x00_u8, 0x08]);
    assert_eq!(reader.read_nbits(4), Ok(0));
    assert!(!reader.has_varint());
}

#[test]
fn u_bit_var_availability() {
    let mut reader = Bitreader::new(&[0x05_u8]);
    assert!(reader.has_u_bit_var());
    // Header 19 needs four more bits past the first six.
    let mut reader = Bitreader::new(&[0xd3_u8]);
    assert!(!reader.has_u_bit_var());
    let mut reader = Bitreader::new(&[0xd3_u8, 0x02]);
    assert!(reader.has_u_bit_var());
    assert_eq!(reader.read_u_bit_var(), Ok(179));
    // The widest form takes 34 bits.
    let mut reader = Bitreader::new(&[0xf0_u8, 0xff, 0xff, 0xff]);
    assert!(!reader.has_u_bit_var());
    let mut reader = Bitreader::new(&[0xf0_u8, 0xff, 0xff, 0xff, 0x03]);
    assert!(reader.has_u_bit_var());
    assert_eq!(reader.bits_remaining(), Some(40));
    // Fewer than six bits never hold one.
    let mut reader = Bitreader::new(&[0_u8]);
    assert_eq!(reader.read_nbits(3), Ok(0));
    assert!(!reader.has_u_bit_var());
}

#[test]
fn field_path_u_bit_var_availability() {
    let mut reader = Bitreader::new(&[0b0000_0111_u8]);
    assert!(reader.has_ubit_var_fp());
    let mut reader = Bitreader::new(&[0b0010_1010_u8]);
    assert!(reader.has_ubit_var_fp());
    assert_eq!(reader.read_ubit_var_fp(), Ok(0b1010));
    // No flag among four: 35 bits are needed.
    let mut reader = Bitreader::new(&[0x10_u8, 0, 0, 0]);
    assert!(!reader.has_ubit_var_fp());
    let mut reader = Bitreader::new(&[0x10_u8, 0, 0, 0, 0]);
    assert!(reader.has_ubit_var_fp());
    // With three bits left only the shortest form fits.
    let mut reader = Bitreader::new(&[0b1110_0000_u8]);
    assert_eq!(reader.read_nbits(5), Ok(0));
    assert!(reader.has_ubit_var_fp());
    assert_eq!(reader.read_ubit_var_fp(), Ok(3));
    let mut reader = Bitreader::new(&[0b1100_0000_u8]);
    assert_eq!(reader.read_nbits(5), Ok(0));
    assert!(!reader.has_ubit_var_fp());
}

#[test]
fn checked_varint_u64_reports_a_cut_stream() {
    let mut reader = Bitreader::new(&[0x80_u8, 0x80]);
    assert_eq!(reader.read_varint_u_64_checked(), Err(DemoParserError::OutOfBitsError));
    assert_eq!(reader.bits_remaining(), Some(0));
    let mut reader = Bitreader::new(&[]);
    assert_eq!(reader.read_varint_u_64_checked(), Err(DemoParserError::OutOfBitsError));
    let mut reader = Bitreader::new(&[0xac_u8, 0x02, 0x07]);
    assert_eq!(reader.read_varint_u_64_checked(), Ok(300));
    assert_eq!(reader.bits_remaining(), Some(8));
    let mut data = vec![0x80_u8; 11];
    data.push(0x00);
    let mut reader = Bitreader::new(&data);
    assert_eq!(reader.read_varint_u_64_checked(), Err(DemoParserError::MalformedMessage));
}

#[test]
fn reads_keep_the_total_bit_count() {
    let data = [0x96_u8, 0x01, 0xd3, 0x02, 0xff, 0xff];
    let mut reader = Bitreader::new(&data);
    reader.total_bits_left = 77;
    assert_eq!(reader.read_varint(), Ok(150));
    assert_eq!(reader.read_u_bit_var(), Ok(179));
    assert_eq!(reader.read_nbits(6), Ok(0));
    assert_eq!(reader.read_n_bytes(1), Ok(vec![0xff]));
    assert_eq!(reader.total_bits_left, 77);
}
