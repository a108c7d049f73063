use web_image_meta::bytes::{push_be16, push_be32, read_u16, read_u32};
use web_image_meta::checksum::calculate_crc;
use web_image_meta::decoders::{check_jpeg_probe, check_png_probe, PngHeader};
use web_image_meta::exif::{create_minimal_exif, extract_orientation_from_exif};
use web_image_meta::jpeg;
use web_image_meta::png;
use web_image_meta::text::read_text;
use web_image_meta::{Error, ErrorKind};

#[test]
fn numbers_are_read_in_either_byte_order() {
    let data = [0x12u8, 0x34, 0x56, 0x78, 0x9A];
    assert_eq!(read_u16(&data, 0, false), 0x1234);
    assert_eq!(read_u16(&data, 0, true), 0x3412);
    assert_eq!(read_u16(&data, 3, false), 0x789A);
    assert_eq!(read_u32(&data, 0, false), 0x12345678);
    assert_eq!(read_u32(&data, 1, true), 0x9A785634);
    assert_eq!(read_u32(&[0xFF, 0xFF, 0xFF, 0xFF], 0, true), u32::MAX);
}

#[test]
fn numbers_are_written_most_significant_byte_first() {
    let mut out = vec![7u8];
    push_be16(&mut out, 0xABCD);
    push_be32(&mut out, 0x01020304);
    push_be16(&mut out, 0);
    push_be32(&mut out, u32::MAX);
    assert_eq!(
        out,
        vec![7, 0xAB, 0xCD, 1, 2, 3, 4, 0, 0, 0xFF, 0xFF, 0xFF, 0xFF]
    );
}

#[test]
fn the_checksum_is_crc32_over_type_and_data() {
    assert_eq!(calculate_crc(b"IEND", b""), 0xAE42_6082);
    assert_eq!(calculate_crc(b"", b"123456789"), 0xCBF4_3926);
    assert_eq!(calculate_crc(b"1234", b"56789"), 0xCBF4_3926);
    assert_eq!(calculate_crc(b"", b""), 0);
}

#[test]
fn text_is_read_leniently() {
    assert_eq!(read_text(b""), "");
    assert_eq!(read_text("héllo 🎯".as_bytes()), "héllo 🎯");
    assert_eq!(read_text(&[0x61, 0x80, 0x62]), "a\u{FFFD}b");
    assert_eq!(read_text(&[0xE3, 0x81]), "\u{FFFD}");
    assert_eq!(read_text(&[0x61, 0x00, 0x62]), "a\0b");
}

#[test]
fn the_jpeg_probe_is_judged_by_its_frame() {
    assert!(check_jpeg_probe(Ok(Some((1, 1)))).is_ok());
    assert!(check_jpeg_probe(Ok(Some((65535, 3)))).is_ok());
    for probe in [Ok(Some((0, 5))), Ok(Some((5, 0))), Ok(Some((0, 0))), Ok(None)] {
        let err = check_jpeg_probe(probe).expect_err("unsound");
        assert_eq!(err.kind(), ErrorKind::InvalidFormat);
    }
    let err = check_jpeg_probe(Ok(Some((0, 5)))).expect_err("no width");
    assert_eq!(err.describe(), "Invalid format: Invalid image dimensions");
    let err = check_jpeg_probe(Ok(None)).expect_err("no frame");
    assert_eq!(err.describe(), "Invalid format: Failed to get JPEG info");
    let err = check_jpeg_probe(Err("bad marker".to_string())).expect_err("error");
    assert_eq!(err.describe(), "Invalid format: Invalid JPEG: bad marker");
}

#[test]
fn the_png_probe_is_judged_by_its_header() {
    let sound = PngHeader {
        width: 4,
        height: 3,
        bit_depth: 8,
        color_type: 2,
    };
    assert!(check_png_probe(Ok(sound)).is_ok());
    for depth in [1u8, 2, 4, 8, 16] {
        for color in [0u8, 2, 3, 4, 6] {
            let header = PngHeader {
                bit_depth: depth,
                color_type: color,
                ..sound
            };
            assert!(check_png_probe(Ok(header)).is_ok());
        }
    }
    let err = check_png_probe(Ok(PngHeader { width: 0, ..sound })).expect_err("width");
    assert_eq!(err.describe(), "Invalid format: Invalid image dimensions");
    let err = check_png_probe(Ok(PngHeader { height: 0, ..sound })).expect_err("height");
    assert_eq!(err.describe(), "Invalid format: Invalid image dimensions");
    for depth in [0u8, 3, 5, 7, 9, 32] {
        let err = check_png_probe(Ok(PngHeader {
            bit_depth: depth,
            ..sound
        }))
        .expect_err("depth");
        assert_eq!(err.describe(), "Invalid format: Invalid bit depth");
    }
    for color in [1u8, 5, 7, 255] {
        let err = check_png_probe(Ok(PngHeader {
            color_type: color,
            ..sound
        }))
        .expect_err("colour");
        assert_eq!(err.describe(), "Invalid format: Invalid color type");
    }
    let err = check_png_probe(Err("bad checksum".to_string())).expect_err("error");
    assert_eq!(err.describe(), "Invalid format: Invalid PNG: bad checksum");
    assert_eq!(err.kind(), ErrorKind::InvalidFormat);
}

#[test]
fn errors_tell_their_kind_and_their_source() {
    let invalid = Error::InvalidFormat("x".to_string());
    let parse = Error::ParseError("y".to_string());
    let io = Error::from(std::io::Error::new(std::io::ErrorKind::NotFound, "gone"));
    assert_eq!(invalid.kind(), ErrorKind::InvalidFormat);
    assert_eq!(parse.kind(), ErrorKind::ParseError);
    assert_eq!(io.kind(), ErrorKind::Io);
    assert!(matches!(io, Error::Io(_)));
    assert!(invalid.source().is_none());
    assert!(parse.source().is_none());
    assert_eq!(
        io.source().map(|e| e.kind()),
        Some(std::io::ErrorKind::NotFound)
    );
    assert_eq!(invalid.describe(), "Invalid format: x");
    assert_eq!(parse.describe(), "Parse error: y");
    assert_eq!(io.describe(), "IO error: gone");
}

#[test]
fn errors_of_the_codecs_become_parse_errors() {
    let decode = Error::from(jpeg_decoder::Error::Format("no frame".to_string()));
    assert_eq!(decode.kind(), ErrorKind::ParseError);
    assert_eq!(
        decode.describe(),
        "Parse error: JPEG decode error: invalid JPEG format: no frame"
    );
    assert!(decode.source().is_none());

    let encode = Error::from(jpeg_encoder::EncodingError::InvalidAppSegment(16));
    assert_eq!(encode.kind(), ErrorKind::ParseError);
    assert_eq!(
        encode.describe(),
        "Parse error: JPEG encode error: Invalid app segment number: 16"
    );

    // What the decoder tells of a stream and what `?` makes of it.
    let mut decoder = jpeg_decoder::Decoder::new(&[0u8, 1, 2, 3][..]);
    let failed: Result<(), Error> = decoder.read_info().map_err(Error::from);
    assert!(matches!(failed, Err(Error::ParseError(_))));
    let mut encoder = jpeg_encoder::Encoder::new(Vec::new(), 90);
    let failed: Result<(), Error> = encoder
        .add_app_segment(0, vec![1, 2, 3])
        .map_err(Error::from);
    let message = failed.expect_err("segment 0").describe();
    assert!(message.starts_with("Parse error: JPEG encode error: "));
}

fn tiff(little: bool, entries: &[(u16, u16)], claimed: u16) -> Vec<u8> {
    let put16 = |out: &mut Vec<u8>, v: u16| {
        if little {
            out.extend_from_slice(&v.to_le_bytes())
        } else {
            out.extend_from_slice(&v.to_be_bytes())
        }
    };
    let put32 = |out: &mut Vec<u8>, v: u32| {
        if little {
            out.extend_from_slice(&v.to_le_bytes())
        } else {
            out.extend_from_slice(&v.to_be_bytes())
        }
    };
    let mut out = if little { b"II".to_vec() } else { b"MM".to_vec() };
    put16(&mut out, 42);
    put32(&mut out, 8);
    put16(&mut out, claimed);
    for (tag, value) in entries {
        put16(&mut out, *tag);
        put16(&mut out, 3);
        put32(&mut out, 1);
        put16(&mut out, *value);
        put16(&mut out, 0);
    }
    out
}

#[test]
fn the_orientation_is_read_in_either_byte_order() {
    for little in [true, false] {
        let block = tiff(little, &[(0x010F, 9), (0x0112, 6), (0x0110, 7)], 3);
        assert_eq!(extract_orientation_from_exif(&block), Some(6));
        let block = tiff(little, &[(0x0112, 0x0102)], 1);
        assert_eq!(extract_orientation_from_exif(&block), Some(0x0102));
        let block = tiff(little, &[(0x0112, 3), (0x0112, 8)], 2);
        assert_eq!(extract_orientation_from_exif(&block), Some(3));
        let block = tiff(little, &[(0x010F, 9), (0x0110, 7)], 2);
        assert_eq!(extract_orientation_from_exif(&block), None);
        let block = tiff(little, &[], 0);
        assert_eq!(extract_orientation_from_exif(&block), None);
    }
}

#[test]
fn the_directory_may_stand_anywhere_in_the_block() {
    let mut block = b"MM\0\x2A\0\0\0\x0C".to_vec();
    block.extend_from_slice(&[0xEE; 4]);
    block.extend_from_slice(&[0, 1, 0x01, 0x12, 0, 3, 0, 0, 0, 1, 0, 5, 0, 0]);
    assert_eq!(extract_orientation_from_exif(&block), Some(5));
}

#[test]
fn a_block_that_is_cut_short_or_malformed_has_no_orientation() {
    let whole = tiff(true, &[(0x010F, 9), (0x0112, 6)], 2);
    assert_eq!(extract_orientation_from_exif(&whole), Some(6));
    for len in 0..whole.len() {
        assert_eq!(extract_orientation_from_exif(&whole[..len]), None);
    }
    // The directory announces more entries than the block holds.
    let block = tiff(true, &[(0x010F, 9)], 5);
    assert_eq!(extract_orientation_from_exif(&block), None);
    let block = tiff(true, &[(0x010F, 9), (0x0112, 4)], 500);
    assert_eq!(extract_orientation_from_exif(&block), Some(4));
    // The directory announces fewer entries than follow.
    let block = tiff(true, &[(0x010F, 9), (0x0112, 4)], 1);
    assert_eq!(extract_orientation_from_exif(&block), None);

    let mut bad_order = whole.clone();
    bad_order[0] = b'X';
    assert_eq!(extract_orientation_from_exif(&bad_order), None);
    let mut mixed_order = whole.clone();
    mixed_order[1] = b'M';
    assert_eq!(extract_orientation_from_exif(&mixed_order), None);
    let mut bad_magic = whole.clone();
    bad_magic[2] = 43;
    assert_eq!(extract_orientation_from_exif(&bad_magic), None);
    let mut far_directory = whole.clone();
    far_directory[4..8].copy_from_slice(&0xFFFF_FFF0u32.to_le_bytes());
    assert_eq!(extract_orientation_from_exif(&far_directory), None);
    let mut at_the_end = whole.clone();
    at_the_end[4..8].copy_from_slice(&(whole.len() as u32 - 1).to_le_bytes());
    assert_eq!(extract_orientation_from_exif(&at_the_end), None);
}

#[test]
fn the_minimal_exif_segment_has_36_bytes_for_every_orientation() {
    let segment = create_minimal_exif(6).expect("segment");
    assert_eq!(
        segment,
        vec![
            0xFF, 0xE1, 0x00, 0x22, b'E', b'x', b'i', b'f', 0, 0, b'I', b'I', 0x2A, 0, 8, 0, 0,
            0, 1, 0, 0x12, 0x01, 3, 0, 1, 0, 0, 0, 6, 0, 0, 0, 0, 0, 0, 0
        ]
    );
    for orientation in [0u16, 1, 2, 3, 4, 5, 6, 7, 8, 9, 0x1234, u16::MAX] {
        let segment = create_minimal_exif(orientation).expect("segment");
        assert_eq!(segment.len(), 36);
        assert_eq!(
            ((segment[2] as usize) << 8) | segment[3] as usize,
            segment.len() - 2
        );
        assert_eq!(extract_orientation_from_exif(&segment[10..]), Some(orientation));
    }
}

#[test]
fn segments_are_read_one_by_one() {
    let data = [
        0xFFu8, 0xD8, 0xFF, 0xE0, 0x00, 0x04, 0xAA, 0xBB, 0xFF, 0xD0, 0xFF, 0xDA, 0x00, 0x02,
        0x11, 0x22,
    ];
    let span = jpeg::segment::next_segment(&data, 2).expect("sized");
    assert_eq!((span.marker, span.start, span.end), (0xE0, 4, 8));
    let span = jpeg::segment::next_segment(&data, 8).expect("standalone");
    assert_eq!((span.marker, span.start, span.end), (0xD0, 10, 10));
    let span = jpeg::segment::next_segment(&data, 10).expect("scan");
    assert_eq!((span.marker, span.start, span.end), (0xDA, 12, 16));
    let span = jpeg::segment::next_segment(&data, 0).expect("start of image");
    assert_eq!((span.marker, span.start, span.end), (0xD8, 2, 2));

    for (broken, message) in [
        (vec![0x00u8, 0xE0, 0x00, 0x02], "Invalid JPEG marker"),
        (vec![0xFF, 0xE0, 0x00], "Unexpected end of JPEG data"),
        (vec![0xFF, 0xE0], "Unexpected end of JPEG data"),
        (vec![0xFF, 0xE0, 0x00, 0x01], "Invalid segment size"),
        (vec![0xFF, 0xE0, 0x00, 0x00], "Invalid segment size"),
        (vec![0xFF, 0xE0, 0x00, 0x03], "Segment extends beyond file"),
    ] {
        let err = jpeg::segment::next_segment(&broken, 0).expect_err("broken");
        assert_eq!(err.describe(), format!("Parse error: {}", message));
    }
    let span = jpeg::segment::next_segment(&[0xFF, 0xE0, 0x00, 0x02], 0).expect("empty");
    assert_eq!((span.start, span.end), (2, 4));
}

fn stream() -> Vec<u8> {
    let mut data = vec![0xFFu8, 0xD8];
    data.extend_from_slice(&[0xFF, 0xFE, 0x00, 0x05, b'o', b'l', b'd']);
    data.extend_from_slice(&[0xFF, 0xE0, 0x00, 0x04, 0x01, 0x02]);
    data.extend_from_slice(&[0xFF, 0xED, 0x00, 0x03, 0x09]);
    data.extend_from_slice(&[0xFF, 0xDC, 0x00, 0x04, 0x01, 0x02]);
    data.extend_from_slice(&[0xFF, 0x01, 0x00, 0x02]);
    data.extend_from_slice(&[0xFF, 0xD3]);
    data.extend_from_slice(&[0xFF, 0xDB, 0x00, 0x03, 0x07]);
    data.extend_from_slice(&[0xFF, 0xC4, 0x00, 0x02]);
    data.extend_from_slice(&[0xFF, 0xFE, 0x00, 0x02]);
    data.extend_from_slice(&[0xFF, 0xDD, 0x00, 0x04, 0x00, 0x08]);
    data.extend_from_slice(&[0xFF, 0xC2, 0x00, 0x02]);
    data.extend_from_slice(&[0xFF, 0xDA, 0x00, 0x02, 0xFF, 0xE1, 0x12, 0xFF, 0xD9]);
    data
}

#[test]
fn stripping_rebuilds_a_stream_from_what_is_kept() {
    let mut expected = vec![0xFFu8, 0xD8];
    expected.extend_from_slice(&[0xFF, 0xE0, 0x00, 0x04, 0x01, 0x02]);
    expected.extend_from_slice(&[0xFF, 0xD3]);
    expected.extend_from_slice(&[0xFF, 0xDB, 0x00, 0x03, 0x07]);
    expected.extend_from_slice(&[0xFF, 0xC4, 0x00, 0x02]);
    expected.extend_from_slice(&[0xFF, 0xDD, 0x00, 0x04, 0x00, 0x08]);
    expected.extend_from_slice(&[0xFF, 0xC2, 0x00, 0x02]);
    expected.extend_from_slice(&[0xFF, 0xDA, 0x00, 0x02, 0xFF, 0xE1, 0x12, 0xFF, 0xD9]);
    assert_eq!(jpeg::strip_segments(&stream()).expect("strip"), expected);
}

#[test]
fn stripping_takes_streams_at_their_edges() {
    assert_eq!(jpeg::strip_segments(&[]).expect("strip"), vec![0xFF, 0xD8]);
    assert_eq!(jpeg::strip_segments(&[1, 2]).expect("strip"), vec![0xFF, 0xD8]);
    // One stray byte behind the last segment goes.
    assert_eq!(
        jpeg::strip_segments(&[0xFF, 0xD8, 0xFF, 0xD0, 0x55]).expect("strip"),
        vec![0xFF, 0xD8, 0xFF, 0xD0]
    );
    // A scan with nothing behind it.
    assert_eq!(
        jpeg::strip_segments(&[0xFF, 0xD8, 0xFF, 0xDA]).expect("strip"),
        vec![0xFF, 0xD8, 0xFF, 0xDA]
    );
    // Bytes that look like a JFIF header inside the image data are no header.
    let mut data = vec![0xFFu8, 0xD8, 0xFF, 0xE7, 0x00, 0x02];
    data.extend_from_slice(&create_minimal_exif(7).expect("segment"));
    data.extend_from_slice(&[0xFF, 0xDA, 0xFF, 0xE0, 0x00, 0x02, 0x33]);
    let mut expected = vec![0xFFu8, 0xD8];
    expected.extend_from_slice(&create_minimal_exif(7).expect("segment"));
    expected.extend_from_slice(&[0xFF, 0xDA, 0xFF, 0xE0, 0x00, 0x02, 0x33]);
    assert_eq!(jpeg::strip_segments(&data).expect("strip"), expected);

    for broken in [
        vec![0xFFu8, 0xD8, 0x00, 0x00],
        vec![0xFF, 0xD8, 0xFF, 0xE0, 0x00],
        vec![0xFF, 0xD8, 0xFF, 0xE0, 0x00, 0x01],
        vec![0xFF, 0xD8, 0xFF, 0xE0, 0x00, 0x09, 0x00],
    ] {
        assert!(matches!(
            jpeg::strip_segments(&broken),
            Err(Error::ParseError(_))
        ));
    }
}

#[test]
fn the_first_comment_of_a_stream_is_found() {
    assert_eq!(jpeg::find_comment(&stream()).expect("find"), Some((6, 9)));
    let data = [0xFFu8, 0xD8, 0xFF, 0xFE, 0x00, 0x02, 0xFF, 0xFE, 0x00, 0x03, 0x41];
    assert_eq!(jpeg::find_comment(&data).expect("find"), Some((6, 6)));
    assert_eq!(jpeg::find_comment(&data[..6]).expect("find"), Some((6, 6)));
    assert_eq!(jpeg::find_comment(&[]).expect("find"), None);
    // Behind the scan nothing is looked for.
    let data = [0xFFu8, 0xD8, 0xFF, 0xDA, 0xFF, 0xFE, 0x00, 0x03, 0x41];
    assert_eq!(jpeg::find_comment(&data).expect("find"), None);
    // A break behind the comment does not matter, one in front of it does.
    let data = [0xFFu8, 0xD8, 0xFF, 0xFE, 0x00, 0x03, 0x41, 0x00, 0x00];
    assert_eq!(jpeg::find_comment(&data).expect("find"), Some((6, 7)));
    let data = [0xFFu8, 0xD8, 0x00, 0x00, 0xFF, 0xFE, 0x00, 0x03, 0x41];
    assert!(matches!(jpeg::find_comment(&data), Err(Error::ParseError(_))));
}

#[test]
fn a_comment_is_put_in_front_of_the_first_table_or_scan() {
    let mut expected = vec![0xFFu8, 0xD8];
    expected.extend_from_slice(&[0xFF, 0xE0, 0x00, 0x04, 0x01, 0x02]);
    expected.extend_from_slice(&[0xFF, 0xED, 0x00, 0x03, 0x09]);
    expected.extend_from_slice(&[0xFF, 0xDC, 0x00, 0x04, 0x01, 0x02]);
    expected.extend_from_slice(&[0xFF, 0x01, 0x00, 0x02]);
    expected.extend_from_slice(&[0xFF, 0xD3]);
    expected.extend_from_slice(&[0xFF, 0xFE, 0x00, 0x05, b'n', b'e', b'w']);
    expected.extend_from_slice(&[0xFF, 0xDB, 0x00, 0x03, 0x07]);
    expected.extend_from_slice(&[0xFF, 0xC4, 0x00, 0x02]);
    expected.extend_from_slice(&[0xFF, 0xDD, 0x00, 0x04, 0x00, 0x08]);
    expected.extend_from_slice(&[0xFF, 0xC2, 0x00, 0x02]);
    expected.extend_from_slice(&[0xFF, 0xDA, 0x00, 0x02, 0xFF, 0xE1, 0x12, 0xFF, 0xD9]);
    assert_eq!(jpeg::insert_comment(&stream(), b"new").expect("insert"), expected);

    // In front of the scan where no table is.
    assert_eq!(
        jpeg::insert_comment(&[0xFF, 0xD8, 0xFF, 0xD0, 0xFF, 0xDA, 0x77], b"").expect("insert"),
        vec![0xFF, 0xD8, 0xFF, 0xD0, 0xFF, 0xFE, 0x00, 0x02, 0xFF, 0xDA, 0x77]
    );
    // At the end where neither is.
    assert_eq!(
        jpeg::insert_comment(&[0xFF, 0xD8, 0xFF, 0xD0, 0x55], b"z").expect("insert"),
        vec![0xFF, 0xD8, 0xFF, 0xD0, 0xFF, 0xFE, 0x00, 0x03, b'z']
    );
    assert_eq!(
        jpeg::insert_comment(&[], b"z").expect("insert"),
        vec![0xFF, 0xD8, 0xFF, 0xFE, 0x00, 0x03, b'z']
    );

    let longest = vec![b'a'; 65533];
    let out = jpeg::insert_comment(&[0xFF, 0xD8], &longest).expect("insert");
    assert_eq!(&out[..6], &[0xFF, 0xD8, 0xFF, 0xFE, 0xFF, 0xFF]);
    assert_eq!(out.len(), 6 + 65533);
    let err = jpeg::insert_comment(&[0xFF, 0xD8], &vec![b'a'; 65534]).expect_err("long");
    assert_eq!(err.describe(), "Invalid format: Comment too long");
    // The length is looked at before the stream.
    let err = jpeg::insert_comment(&[0xFF, 0xD8, 0, 0], &vec![b'a'; 65534]).expect_err("long");
    assert_eq!(err.kind(), ErrorKind::InvalidFormat);
    let err = jpeg::insert_comment(&[0xFF, 0xD8, 0, 0], b"a").expect_err("broken");
    assert_eq!(err.kind(), ErrorKind::ParseError);
}

fn chunk(kind: &[u8; 4], data: &[u8]) -> Vec<u8> {
    let mut out = (data.len() as u32).to_be_bytes().to_vec();
    out.extend_from_slice(kind);
    out.extend_from_slice(data);
    let mut covered = kind.to_vec();
    covered.extend_from_slice(data);
    out.extend_from_slice(&crc32fast::hash(&covered).to_be_bytes());
    out
}

fn chunks(parts: &[Vec<u8>]) -> Vec<u8> {
    let mut out = vec![137u8, 80, 78, 71, 13, 10, 26, 10];
    for part in parts {
        out.extend_from_slice(part);
    }
    out
}

#[test]
fn chunks_are_measured_by_their_header() {
    let data = chunks(&[chunk(b"IHDR", &[1, 2, 3]), chunk(b"IEND", b"")]);
    assert_eq!(png::chunk::chunk_end(&data, 8), Some(23));
    assert_eq!(png::chunk::chunk_end(&data, 23), Some(35));
    assert_eq!(png::chunk::chunk_end(&data[..34], 23), None);
    assert_eq!(png::chunk::chunk_end(&data[..31], 23), None);
    assert_eq!(
        png::chunk::chunk_end(&[0xFF, 0xFF, 0xFF, 0xFF, 0, 0, 0, 0, 0, 0, 0, 0], 0),
        None
    );
    assert!(png::chunk::has_kind(&data, 8, b'I', b'H', b'D', b'R'));
    assert!(!png::chunk::has_kind(&data, 8, b'I', b'H', b'D', b'r'));
    assert!(!png::chunk::has_kind(&data, 8, b'i', b'H', b'D', b'R'));
    assert!(png::chunk::has_kind(&data, 23, b'I', b'E', b'N', b'D'));
}

#[test]
fn stripping_keeps_chunks_by_their_type_alone() {
    let kept: Vec<Vec<u8>> = [
        b"IHDR", b"PLTE", b"IDAT", b"tRNS", b"gAMA", b"cHRM", b"sRGB", b"iCCP", b"sBIT", b"pHYs",
    ]
    .iter()
    .map(|kind| chunk(kind, kind.as_slice()))
    .collect();
    let mut parts = Vec::new();
    for (i, part) in kept.iter().enumerate() {
        parts.push(part.clone());
        parts.push(chunk(
            [b"tEXt", b"zTXt", b"iTXt", b"bKGD", b"tIME", b"hIST", b"sPLT", b"eXIf", b"ihdr", b"IDAt"]
                [i],
            b"x",
        ));
    }
    parts.push(chunk(b"IEND", b""));
    parts.push(chunk(b"IDAT", b"behind the end"));
    let mut expected = kept.clone();
    expected.push(chunk(b"IEND", b""));
    assert_eq!(
        png::strip_chunks(&chunks(&parts)).expect("strip"),
        chunks(&expected)
    );
}

#[test]
fn stripping_takes_streams_at_their_edges_too() {
    let signature = chunks(&[]);
    assert_eq!(png::strip_chunks(&signature).expect("strip"), signature);
    assert_eq!(png::strip_chunks(&[]).expect("strip"), signature);
    assert_eq!(png::strip_chunks(&[0; 8]).expect("strip"), signature);
    // No checksum is looked at.
    let mut data = chunks(&[chunk(b"IDAT", b"abc")]);
    let last = data.len() - 1;
    data[last] ^= 0xFF;
    assert_eq!(png::strip_chunks(&data).expect("strip"), data);

    for (broken, message) in [
        (chunks(&[vec![0, 0, 0]]), "Unexpected end of PNG data"),
        (chunks(&[vec![0, 0, 0, 0, b'I', b'D', b'A']]), "Unexpected end of PNG data"),
        (
            chunks(&[vec![0, 0, 0, 0, b'I', b'D', b'A', b'T', 0, 0, 0]]),
            "Chunk extends beyond file",
        ),
        (
            chunks(&[vec![0, 0, 0, 1, b'I', b'D', b'A', b'T', 0, 0, 0, 0]]),
            "Chunk extends beyond file",
        ),
        (chunks(&[chunk(&[0x80, b'D', b'A', b'T'], b"")]), "Invalid chunk type"),
        (chunks(&[chunk(&[b'I', b'D', 0xC3, 0x28], b"")]), "Invalid chunk type"),
    ] {
        let err = png::strip_chunks(&broken).expect_err("broken");
        assert_eq!(err.describe(), format!("Parse error: {}", message));
    }
    // A type of two characters of two bytes each is UTF-8.
    let odd = chunks(&[chunk(&[0xC3, 0xA9, 0xC3, 0xA9], b"")]);
    assert_eq!(png::strip_chunks(&odd).expect("strip"), signature);
}

#[test]
fn the_data_of_a_text_chunk_split_at_the_first_zero_byte() {
    let entry = png::split_entry(b"Key\0Text");
    assert_eq!((entry.keyword.as_str(), entry.text.as_str()), ("Key", "Text"));
    let entry = png::split_entry(b"Key\0a\0b\0");
    assert_eq!((entry.keyword.as_str(), entry.text.as_str()), ("Key", "a\0b\0"));
    let entry = png::split_entry(b"no split");
    assert_eq!((entry.keyword.as_str(), entry.text.as_str()), ("", "no split"));
    let entry = png::split_entry(b"");
    assert_eq!((entry.keyword.as_str(), entry.text.as_str()), ("", ""));
}

#[test]
fn text_is_collected_from_any_stream() {
    let data = chunks(&[
        chunk(b"tEXt", b"a\0b"),
        chunk(b"teXt", b"c\0d"),
        chunk(b"tEXt", b"e\0f"),
    ]);
    let found = png::collect_text_chunks(&data);
    assert_eq!(found.len(), 2);
    assert_eq!((found[0].keyword.as_str(), found[0].text.as_str()), ("a", "b"));
    assert_eq!((found[1].keyword.as_str(), found[1].text.as_str()), ("e", "f"));
    assert_eq!(png::collect_text_chunks(&[]).len(), 0);
    assert_eq!(png::collect_text_chunks(&data[..data.len() - 1]).len(), 1);
}

#[test]
fn the_end_chunk_is_found_by_its_header() {
    let data = chunks(&[chunk(b"IHDR", &[1, 2, 3]), chunk(b"IEND", b""), chunk(b"IEND", b"")]);
    assert_eq!(png::find_iend(&data), Some(23));
    assert_eq!(png::find_iend(&data[..31]), Some(23));
    assert_eq!(png::find_iend(&data[..30]), None);
    assert_eq!(png::find_iend(&data[..23]), None);
    assert_eq!(png::find_iend(&[]), None);
    let broken = chunks(&[vec![0, 0, 0, 9, b'I', b'D', b'A', b'T'], chunk(b"IEND", b"")]);
    assert_eq!(png::find_iend(&broken), None);
}

#[test]
fn a_text_chunk_is_let_in_with_its_checksum() {
    let data = chunks(&[chunk(b"IHDR", &[1, 2, 3]), chunk(b"IEND", b"")]);
    let expected = chunks(&[
        chunk(b"IHDR", &[1, 2, 3]),
        chunk(b"tEXt", "Title\0héllo".as_bytes()),
        chunk(b"IEND", b""),
    ]);
    assert_eq!(
        png::splice_text_chunk(&data, "Title", "héllo").expect("splice"),
        expected
    );
    let err = png::splice_text_chunk(&data, "Ti_tle", "x").expect_err("keyword");
    assert_eq!(err.kind(), ErrorKind::InvalidFormat);
    // The keyword is looked at before the stream.
    let err = png::splice_text_chunk(&[], "", "x").expect_err("keyword");
    assert_eq!(err.kind(), ErrorKind::InvalidFormat);
    let err = png::splice_text_chunk(&[], "Title", "x").expect_err("no end");
    assert_eq!(err.kind(), ErrorKind::ParseError);
}
