//! Properties of the decoder as a whole, proved over the decoding model that
//! the executable functions are held to.
use vstd::prelude::*;

use crate::digits::{all_digits, decimal_value};
use crate::directory::{
    spec_count, spec_decimal_field, spec_directory, spec_entries, spec_entry, GroupLayout,
    SegmentDescriptor,
};
use crate::error::ParseError;
use crate::header::{spec_header, NitfHeader, RGB};
use crate::layout::{
    fixed_header_len, header_widths, image_group, lemma_fixed_offsets, FBKGC_INDEX,
    FIXED_FIELD_COUNT, LI_SIZE, LISH_SIZE, NUMI_INDEX,
};
use crate::slicer::{field_offset, lemma_fields_len, spec_fields};

verus! {

/// Is `r` a failure because a field ran past the end of the buffer?
pub open spec fn is_end_of_buffer<T>(r: Result<T, ParseError>) -> bool {
    match r {
        Err(ParseError::UnexpectedEndOfBuffer { .. }) => true,
        _ => false,
    }
}

proof fn lemma_mul_step(s: int, n: int, w: int)
    requires
        n >= 1,
        w >= 0,
        s >= 0,
    ensures
        s + (n - 1) * w + w == s + n * w,
        (n - 1) * w <= n * w,
        0 <= (n - 1) * w,
{
    assert((n - 1) * w + w == n * w) by (nonlinear_arith);
    assert(0 <= (n - 1) * w) by (nonlinear_arith)
        requires
            n >= 1,
            w >= 0,
    ;
}

proof fn lemma_decimal_field_prefix(buf: Seq<u8>, t: int, pos: int, width: int, m: ParseError)
    requires
        0 <= pos,
        0 <= width,
        0 <= t <= buf.len(),
    ensures
        pos + width <= t ==> spec_decimal_field(buf.subrange(0, t), pos, width, m)
            == spec_decimal_field(buf, pos, width, m),
        t < pos + width ==> is_end_of_buffer(spec_decimal_field(buf.subrange(0, t), pos, width, m)),
{
    if pos + width <= t {
        assert(buf.subrange(0, t).subrange(pos, pos + width) =~= buf.subrange(pos, pos + width));
    }
}

proof fn lemma_entry_prefix(buf: Seq<u8>, t: int, pos: int, layout: GroupLayout)
    requires
        0 <= pos,
        0 <= t <= buf.len(),
        spec_entry(buf, pos, layout) is Ok,
    ensures
        pos + layout.entry_width() <= t ==> spec_entry(buf.subrange(0, t), pos, layout)
            == spec_entry(buf, pos, layout),
        t < pos + layout.entry_width() ==> is_end_of_buffer(
            spec_entry(buf.subrange(0, t), pos, layout),
        ),
{
    let w1 = layout.subheader_len_width as int;
    let w2 = layout.data_len_width as int;
    lemma_decimal_field_prefix(
        buf,
        t,
        pos,
        w1,
        ParseError::MalformedLengthField { offset: pos as usize },
    );
    lemma_decimal_field_prefix(
        buf,
        t,
        pos + w1,
        w2,
        ParseError::MalformedLengthField { offset: (pos + w1) as usize },
    );
}

proof fn lemma_entries_prefix_same(
    buf: Seq<u8>,
    t: int,
    start: int,
    layout: GroupLayout,
    n: nat,
)
    requires
        0 <= start,
        start + n * layout.entry_width() <= t <= buf.len(),
        spec_entries(buf, start, layout, n) is Ok,
    ensures
        spec_entries(buf.subrange(0, t), start, layout, n) == spec_entries(buf, start, layout, n),
    decreases n,
{
    if n > 0 {
        lemma_mul_step(start, n as int, layout.entry_width());
        lemma_entries_prefix_same(buf, t, start, layout, (n - 1) as nat);
        lemma_entry_prefix(buf, t, start + (n - 1) * layout.entry_width(), layout);
    }
}

proof fn lemma_entries_prefix_short(
    buf: Seq<u8>,
    t: int,
    start: int,
    layout: GroupLayout,
    n: nat,
)
    requires
        0 <= start,
        start <= t < start + n * layout.entry_width(),
        t <= buf.len(),
        spec_entries(buf, start, layout, n) is Ok,
    ensures
        is_end_of_buffer(spec_entries(buf.subrange(0, t), start, layout, n)),
    decreases n,
{
    if n == 0 {
        assert(n * layout.entry_width() == 0) by (nonlinear_arith)
            requires
                n == 0,
        ;
    } else {
        let w = layout.entry_width();
        lemma_mul_step(start, n as int, w);
        let pos = start + (n - 1) * w;
        if t < pos {
            assert(start <= t);
            lemma_entries_prefix_short(buf, t, start, layout, (n - 1) as nat);
        } else {
            lemma_entries_prefix_same(buf, t, start, layout, (n - 1) as nat);
            lemma_entry_prefix(buf, t, pos, layout);
        }
    }
}

proof fn lemma_fields_prefix_same(buf: Seq<u8>, t: int, cursor: int, widths: Seq<usize>, n: nat)
    requires
        0 <= cursor <= buf.len(),
        n <= widths.len(),
        cursor + field_offset(widths, n as int) <= t <= buf.len(),
        spec_fields(buf, cursor, widths, n) is Ok,
    ensures
        spec_fields(buf.subrange(0, t), cursor, widths, n) == spec_fields(buf, cursor, widths, n),
    decreases n,
{
    if n > 0 {
        lemma_fields_len(buf, cursor, widths, (n - 1) as nat);
        lemma_fields_prefix_same(buf, t, cursor, widths, (n - 1) as nat);
        let pos = cursor + field_offset(widths, n - 1);
        let w = widths[n - 1] as int;
        assert(buf.subrange(0, t).subrange(pos, pos + w) =~= buf.subrange(pos, pos + w));
    }
}

proof fn lemma_fields_prefix_short(buf: Seq<u8>, t: int, cursor: int, widths: Seq<usize>, n: nat)
    requires
        0 <= cursor <= buf.len(),
        n <= widths.len(),
        cursor <= t < cursor + field_offset(widths, n as int),
        t <= buf.len(),
        spec_fields(buf, cursor, widths, n) is Ok,
    ensures
        is_end_of_buffer(spec_fields(buf.subrange(0, t), cursor, widths, n)),
    decreases n,
{
    if n > 0 {
        lemma_fields_len(buf, cursor, widths, (n - 1) as nat);
        let pos = cursor + field_offset(widths, n - 1);
        if t < pos {
            lemma_fields_prefix_short(buf, t, cursor, widths, (n - 1) as nat);
        } else {
            lemma_fields_prefix_same(buf, t, cursor, widths, (n - 1) as nat);
        }
    }
}

proof fn lemma_entries_within(buf: Seq<u8>, start: int, layout: GroupLayout, n: nat)
    requires
        0 <= start <= buf.len(),
        spec_entries(buf, start, layout, n) is Ok,
    ensures
        start + n * layout.entry_width() <= buf.len(),
        spec_entries(buf, start, layout, n)->Ok_0.len() == n,
    decreases n,
{
    if n > 0 {
        lemma_mul_step(start, n as int, layout.entry_width());
        lemma_entries_within(buf, start, layout, (n - 1) as nat);
    }
}

/// A group that decodes ends inside the buffer, and its directory has exactly
/// as many entries as its count field declares.
pub proof fn law_directory_len(buf: Seq<u8>, cursor: int, layout: GroupLayout)
    requires
        0 <= cursor,
        spec_directory(buf, cursor, layout) is Ok,
    ensures
        spec_directory(buf, cursor, layout)->Ok_0.0.len() == spec_count(buf, cursor, layout)->Ok_0,
        spec_directory(buf, cursor, layout)->Ok_0.1 == cursor + layout.count_width
            + spec_count(buf, cursor, layout)->Ok_0 * layout.entry_width(),
        spec_directory(buf, cursor, layout)->Ok_0.1 <= buf.len(),
{
    let count = spec_count(buf, cursor, layout)->Ok_0;
    lemma_entries_within(buf, cursor + layout.count_width, layout, count as nat);
}

/// Truncation of one group: cutting the buffer off at any byte between the
/// start of a decodable group's count field and the end of its last entry
/// makes the group fail because a field runs past the end of the buffer.
pub proof fn law_truncated_directory_fails(buf: Seq<u8>, cursor: int, layout: GroupLayout, t: int)
    requires
        0 <= cursor <= t,
        spec_directory(buf, cursor, layout) is Ok,
        t < spec_directory(buf, cursor, layout)->Ok_0.1,
    ensures
        is_end_of_buffer(spec_directory(buf.subrange(0, t), cursor, layout)),
{
    law_directory_len(buf, cursor, layout);
    lemma_decimal_field_prefix(
        buf,
        t,
        cursor,
        layout.count_width as int,
        ParseError::MalformedCountField { offset: cursor as usize },
    );
    let count = spec_count(buf, cursor, layout)->Ok_0;
    let start = cursor + layout.count_width;
    if start <= t {
        lemma_entries_prefix_short(buf, t, start, layout, count as nat);
    }
}

/// Truncation: cutting a decodable header off at any byte before its end makes
/// the decode fail because a field runs past the end of the buffer; it never
/// yields a partial header.
pub proof fn law_truncated_header_fails(buf: Seq<u8>, t: int)
    requires
        spec_header(buf) is Ok,
        0 <= t < spec_header(buf)->Ok_0.2,
    ensures
        is_end_of_buffer(spec_header(buf.subrange(0, t))),
{
    lemma_fixed_offsets();
    let widths = header_widths();
    let n = FIXED_FIELD_COUNT as nat;
    let cursor = field_offset(widths, NUMI_INDEX as int);
    let layout = image_group();
    law_directory_len(buf, cursor, layout);
    lemma_fields_len(buf, 0, widths, n);
    if t < fixed_header_len() {
        lemma_fields_prefix_short(buf, t, 0, widths, n);
    } else {
        lemma_fields_prefix_same(buf, t, 0, widths, n);
        law_truncated_directory_fails(buf, cursor, layout, t);
    }
}

proof fn lemma_fields_fit(buf: Seq<u8>, cursor: int, widths: Seq<usize>, n: nat)
    requires
        0 <= cursor,
        n <= widths.len(),
        cursor + field_offset(widths, n as int) <= buf.len(),
    ensures
        spec_fields(buf, cursor, widths, n) is Ok,
    decreases n,
{
    if n > 0 {
        lemma_fields_fit(buf, cursor, widths, (n - 1) as nat);
    }
}

/// Header length: the fixed fields take the sum of their widths, 363 bytes,
/// and a decoded header ends that many bytes plus one entry width per image
/// segment from its start, the number of segments being the value of the
/// count field.
pub proof fn law_header_region_length(buf: Seq<u8>)
    requires
        spec_header(buf) is Ok,
    ensures
        fixed_header_len() == 363,
        spec_header(buf)->Ok_0.1.len() == decimal_value(spec_header(buf)->Ok_0.0[NUMI_INDEX as int]),
        spec_header(buf)->Ok_0.2 == fixed_header_len() + spec_header(buf)->Ok_0.1.len() * (
        LISH_SIZE + LI_SIZE),
{
    lemma_fixed_offsets();
    let widths = header_widths();
    let cursor = field_offset(widths, NUMI_INDEX as int);
    let layout = image_group();
    law_directory_len(buf, cursor, layout);
    lemma_fields_len(buf, 0, widths, FIXED_FIELD_COUNT as nat);
    let fields = spec_header(buf)->Ok_0.0;
    assert(fields[NUMI_INDEX as int] == buf.subrange(cursor, cursor + 3));
}

/// A count field that holds a byte other than an ASCII digit, blanks
/// included, fails the group; it is never read as zero.
pub proof fn law_malformed_count_fails(buf: Seq<u8>, cursor: int, layout: GroupLayout)
    requires
        0 <= cursor,
        cursor + layout.count_width <= buf.len(),
        !all_digits(buf.subrange(cursor, cursor + layout.count_width)),
    ensures
        spec_directory(buf, cursor, layout) == Err::<(Seq<SegmentDescriptor>, int), ParseError>(
            ParseError::MalformedCountField { offset: cursor as usize },
        ),
{
}

/// A header whose fixed fields are all present but whose image segment count
/// holds a non-digit byte fails with a malformed count at that field.
pub proof fn law_malformed_header_count_fails(buf: Seq<u8>)
    requires
        fixed_header_len() <= buf.len(),
        !all_digits(
            buf.subrange(
                field_offset(header_widths(), NUMI_INDEX as int),
                fixed_header_len(),
            ),
        ),
    ensures
        spec_header(buf) == Err::<(Seq<Seq<u8>>, Seq<SegmentDescriptor>, int), ParseError>(
            ParseError::MalformedCountField { offset: 360 },
        ),
{
    lemma_fixed_offsets();
    lemma_fields_fit(buf, 0, header_widths(), FIXED_FIELD_COUNT as nat);
    law_malformed_count_fails(buf, 360, image_group());
}

/// Decoding is a function of the bytes alone: two headers decoded from the
/// same buffer have the same fields, background color, directory and end.
pub proof fn law_decode_deterministic(
    buf: Seq<u8>,
    h1: NitfHeader,
    end1: int,
    h2: NitfHeader,
    end2: int,
)
    requires
        spec_header(buf) == Ok::<(Seq<Seq<u8>>, Seq<SegmentDescriptor>, int), ParseError>(
            (h1.fixed_fields(), h1.image_segments@, end1),
        ),
        spec_header(buf) == Ok::<(Seq<Seq<u8>>, Seq<SegmentDescriptor>, int), ParseError>(
            (h2.fixed_fields(), h2.image_segments@, end2),
        ),
    ensures
        h1.fixed_fields() == h2.fixed_fields(),
        h1.fbkgc == h2.fbkgc,
        h1.image_segments@ == h2.image_segments@,
        end1 == end2,
{
    let c1 = h1.fixed_fields()[FBKGC_INDEX as int];
    let c2 = h2.fixed_fields()[FBKGC_INDEX as int];
    assert(c1[0] == c2[0] && c1[1] == c2[1] && c1[2] == c2[2]);
}

/// Background color: the decoded triple's channels are the three bytes at the
/// background color's offset, in order.
pub proof fn law_background_color(buf: Seq<u8>, h: NitfHeader, end: int)
    requires
        spec_header(buf) == Ok::<(Seq<Seq<u8>>, Seq<SegmentDescriptor>, int), ParseError>(
            (h.fixed_fields(), h.image_segments@, end),
        ),
    ensures
        h.fbkgc == RGB(buf[297], buf[298], buf[299]),
{
    lemma_fixed_offsets();
    lemma_fields_len(buf, 0, header_widths(), FIXED_FIELD_COUNT as nat);
    let c = h.fixed_fields()[FBKGC_INDEX as int];
    assert(c == buf.subrange(297, 300));
    assert(c[0] == buf[297] && c[1] == buf[298] && c[2] == buf[299]);
}

} // verus!
