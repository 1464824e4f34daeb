use nitf::layout::{FIXED_FIELD_COUNT, LISH_SIZE, LI_SIZE, NUMI_SIZE};
use nitf::{
    build_directory, fixed_field_widths, header, image_group_layout, num_from_str, parse_fbkgc,
    slice_field, slice_fields, DecimalError, GroupLayout, ParseError, SegmentDescriptor, RGB,
};

fn pad(text: &str, width: usize) -> Vec<u8> {
    let mut v = text.as_bytes().to_vec();
    assert!(v.len() <= width);
    v.resize(width, b' ');
    v
}

/// A header whose fixed fields carry known values, with the given count field
/// and image segment entries appended.
fn sample_header(numi: &[u8], entries: &[(&str, &str)]) -> Vec<u8> {
    let widths = fixed_field_widths();
    let mut texts: Vec<Vec<u8>> = Vec::new();
    for (k, w) in widths.iter().enumerate() {
        let field = match k {
            0 => pad("NITF", *w),
            1 => pad("02.10", *w),
            2 => pad("03", *w),
            3 => pad("BF01", *w),
            4 => pad("STATION01", *w),
            5 => pad("19970924112840", *w),
            6 => pad("Checks a JPEG-compressed 64x64 8-bit mono image.", *w),
            7 => pad("U", *w),
            26 => vec![0x12, 0xab, 0xff],
            27 => pad("JITC Fort Huachuca, AZ  ", *w),
            28 => pad("(520) 538-5458", *w),
            29 => pad("000000001049", *w),
            30 => pad("000404", *w),
            31 => numi.to_vec(),
            _ => pad("", *w),
        };
        assert_eq!(field.len(), *w);
        texts.push(field);
    }
    let mut buf: Vec<u8> = texts.concat();
    for (lish, li) in entries {
        buf.extend_from_slice(lish.as_bytes());
        buf.extend_from_slice(li.as_bytes());
    }
    buf
}

fn three_entries() -> Vec<(&'static str, &'static str)> {
    vec![("000439", "0000004096"), ("000500", "0000000000"), ("001024", "0000065536")]
}

#[test]
fn test_numi_from_str() {
    let numi = num_from_str("003".as_bytes());
    println!("num: {:?}", numi);
    assert_eq!(numi, Ok(3));
}

#[test]
fn decodes_reference_values() {
    let buf = sample_header(b"003", &three_entries());
    let (rest, h) = header(&buf).unwrap();
    assert_eq!("NITF", std::str::from_utf8(h.fhdr).unwrap());
    assert_eq!("02.10", std::str::from_utf8(h.fver).unwrap());
    assert_eq!("03", std::str::from_utf8(h.clevel).unwrap());
    assert_eq!("BF01", std::str::from_utf8(h.stype).unwrap());
    assert_eq!("JITC Fort Huachuca, AZ  ", std::str::from_utf8(h.oname).unwrap());
    assert_eq!("003", std::str::from_utf8(h.numi).unwrap());
    assert_eq!(h.ftitle.len(), 80);
    assert_eq!(h.hl, b"000404");
    assert_eq!(h.fl, b"000000001049");
    assert!(rest.is_empty());
}

#[test]
fn fixed_fields_take_363_bytes() {
    let widths = fixed_field_widths();
    assert_eq!(widths.len(), FIXED_FIELD_COUNT);
    assert_eq!(widths.iter().sum::<usize>(), 363);
}

#[test]
fn count_three_gives_three_descriptors() {
    let buf = sample_header(b"003", &three_entries());
    let (_, h) = header(&buf).unwrap();
    assert_eq!(h.image_segments.len(), 3);
    assert_eq!(
        h.image_segments,
        vec![
            SegmentDescriptor { subheader_len: 439, data_len: 4096 },
            SegmentDescriptor { subheader_len: 500, data_len: 0 },
            SegmentDescriptor { subheader_len: 1024, data_len: 65536 },
        ]
    );
}

#[test]
fn count_zero_gives_empty_directory() {
    let mut buf = sample_header(b"000", &[]);
    buf.extend_from_slice(b"trailing");
    let (rest, h) = header(&buf).unwrap();
    assert!(h.image_segments.is_empty());
    assert_eq!(rest, b"trailing");
}

#[test]
fn rest_follows_last_descriptor() {
    let mut buf = sample_header(b"001", &[("000439", "0000004096")]);
    buf.extend_from_slice(b"IMsubheader");
    let (rest, h) = header(&buf).unwrap();
    assert_eq!(h.image_segments.len(), 1);
    assert_eq!(rest, b"IMsubheader");
    assert_eq!(buf.len() - rest.len(), 363 + LISH_SIZE + LI_SIZE);
}

#[test]
fn directory_len_matches_count_for_many_counts() {
    for count in [0usize, 1, 2, 3, 9, 10, 57, 999] {
        let numi = format!("{:03}", count);
        let mut buf = numi.clone().into_bytes();
        for i in 0..count {
            buf.extend_from_slice(format!("{:06}{:010}", i, 2 * i).as_bytes());
        }
        let (dir, next) = build_directory(&buf, 0, image_group_layout()).unwrap();
        assert_eq!(dir.len(), count);
        assert_eq!(next, NUMI_SIZE + count * (LISH_SIZE + LI_SIZE));
        for (i, d) in dir.iter().enumerate() {
            assert_eq!(d.subheader_len, i as u64);
            assert_eq!(d.data_len, 2 * i as u64);
        }
    }
}

#[test]
fn truncation_always_fails_with_end_of_buffer() {
    let buf = sample_header(b"003", &three_entries());
    for t in 0..buf.len() {
        match header(&buf[..t]) {
            Err(ParseError::UnexpectedEndOfBuffer { .. }) => {}
            other => panic!("cut at {}: {:?}", t, other.map(|(r, _)| r.len())),
        }
    }
}

#[test]
fn truncation_reports_the_field_that_ran_out() {
    let buf = sample_header(b"003", &three_entries());
    assert_eq!(
        header(&buf[..100]).unwrap_err(),
        ParseError::UnexpectedEndOfBuffer { offset: 39, width: 80 }
    );
    assert_eq!(
        header(&buf[..0]).unwrap_err(),
        ParseError::UnexpectedEndOfBuffer { offset: 0, width: 4 }
    );
    assert_eq!(
        header(&buf[..362]).unwrap_err(),
        ParseError::UnexpectedEndOfBuffer { offset: 360, width: 3 }
    );
    assert_eq!(
        header(&buf[..363 + 16 + 8]).unwrap_err(),
        ParseError::UnexpectedEndOfBuffer { offset: 363 + 16 + 6, width: 10 }
    );
    assert_eq!(
        header(&buf[..buf.len() - 1]).unwrap_err(),
        ParseError::UnexpectedEndOfBuffer { offset: 363 + 32 + 6, width: 10 }
    );
}

#[test]
fn blank_count_is_malformed() {
    let buf = sample_header(b"   ", &three_entries());
    assert_eq!(header(&buf).unwrap_err(), ParseError::MalformedCountField { offset: 360 });
    let buf = sample_header(b"0x3", &three_entries());
    assert_eq!(header(&buf).unwrap_err(), ParseError::MalformedCountField { offset: 360 });
    let buf = sample_header(b"+03", &three_entries());
    assert_eq!(header(&buf).unwrap_err(), ParseError::MalformedCountField { offset: 360 });
}

#[test]
fn non_digit_length_is_malformed() {
    let buf = sample_header(b"002", &[("000439", "0000004096"), ("000500", "00000 0000")]);
    assert_eq!(
        header(&buf).unwrap_err(),
        ParseError::MalformedLengthField { offset: 363 + 16 + 6 }
    );
    let buf = sample_header(b"001", &[("  0439", "0000004096")]);
    assert_eq!(header(&buf).unwrap_err(), ParseError::MalformedLengthField { offset: 363 });
}

#[test]
fn oversized_count_overflows() {
    let layout = GroupLayout { count_width: 20, subheader_len_width: 6, data_len_width: 10 };
    let buf = b"99999999999999999999".to_vec();
    assert_eq!(build_directory(&buf, 0, layout).unwrap_err(), ParseError::CountOverflow { offset: 0 });
    let layout = GroupLayout { count_width: 1, subheader_len_width: 20, data_len_width: 1 };
    let buf = b"118446744073709551616".to_vec();
    assert_eq!(build_directory(&buf, 0, layout).unwrap_err(), ParseError::CountOverflow { offset: 1 });
    let buf = b"1184467440737095516150".to_vec();
    let (dir, next) = build_directory(&buf, 0, layout).unwrap();
    assert_eq!(dir, vec![SegmentDescriptor { subheader_len: u64::MAX, data_len: 0 }]);
    assert_eq!(next, 22);
}

#[test]
fn decoding_twice_gives_the_same_header() {
    let buf = sample_header(b"003", &three_entries());
    let (rest1, h1) = header(&buf).unwrap();
    let (rest2, h2) = header(&buf).unwrap();
    assert_eq!(rest1, rest2);
    assert_eq!(h1.fhdr, h2.fhdr);
    assert_eq!(h1.ftitle, h2.ftitle);
    assert_eq!(h1.oname, h2.oname);
    assert_eq!(h1.fbkgc, h2.fbkgc);
    assert_eq!(h1.numi, h2.numi);
    assert_eq!(h1.image_segments, h2.image_segments);
    assert_eq!(format!("{:?}", h1), format!("{:?}", h2));
}

#[test]
fn background_color_is_the_three_bytes_in_order() {
    let buf = sample_header(b"000", &[]);
    let (_, h) = header(&buf).unwrap();
    assert_eq!(h.fbkgc, RGB(0x12, 0xab, 0xff));
    assert_eq!(&buf[297..300], &[0x12, 0xab, 0xff]);
    let (rest, rgb) = parse_fbkgc(&[1, 2, 3, 4]).unwrap();
    assert_eq!(rgb, RGB(1, 2, 3));
    assert_eq!(rest, &[4]);
    assert_eq!(
        parse_fbkgc(&[1, 2]).unwrap_err(),
        ParseError::UnexpectedEndOfBuffer { offset: 0, width: 3 }
    );
}

#[test]
fn slicing_checks_the_range_first() {
    let buf = b"abcdef";
    assert_eq!(slice_field(buf, 2, 3).unwrap(), (&b"cde"[..], 5));
    assert_eq!(slice_field(buf, 6, 0).unwrap(), (&b""[..], 6));
    assert_eq!(
        slice_field(buf, 4, 3).unwrap_err(),
        ParseError::UnexpectedEndOfBuffer { offset: 4, width: 3 }
    );
    assert_eq!(
        slice_field(buf, 9, 1).unwrap_err(),
        ParseError::UnexpectedEndOfBuffer { offset: 9, width: 1 }
    );
    let (fields, next) = slice_fields(buf, 1, &[2, 0, 3]).unwrap();
    assert_eq!(fields, vec![&b"bc"[..], &b""[..], &b"def"[..]]);
    assert_eq!(next, 6);
    assert_eq!(
        slice_fields(buf, 0, &[4, 4]).unwrap_err(),
        ParseError::UnexpectedEndOfBuffer { offset: 4, width: 4 }
    );
}

#[test]
fn decimal_fields() {
    assert_eq!(num_from_str(b""), Ok(0));
    assert_eq!(num_from_str(b"000"), Ok(0));
    assert_eq!(num_from_str(b"0000065536"), Ok(65536));
    assert_eq!(num_from_str(b"18446744073709551615"), Ok(u64::MAX));
    assert_eq!(num_from_str(b"18446744073709551616"), Err(DecimalError::TooLarge));
    assert_eq!(num_from_str(b"12a4"), Err(DecimalError::NotADigit { index: 2 }));
    assert_eq!(num_from_str(b" 12"), Err(DecimalError::NotADigit { index: 0 }));
    assert_eq!(num_from_str(b"99999999999999999999x"), Err(DecimalError::NotADigit { index: 20 }));
}
