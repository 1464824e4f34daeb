use vstd::prelude::*;

use crate::digits::{num_from_str, spec_decimal, DecimalError};
use crate::error::ParseError;
use crate::slicer::{field_fits, slice_field};

verus! {

/// The lengths that the file header gives for one segment: its sub-header
/// and its data field, in bytes. A data length of zero is a segment with a
/// sub-header only.
#[derive(Debug, Clone, Copy, PartialEq, Eq, Structural)]
pub struct SegmentDescriptor {
    pub subheader_len: u64,
    pub data_len: u64,
}

/// The widths of the fields of one count-prefixed group: the count, then for
/// each entry the sub-header length and the data length.
#[derive(Debug, Clone, Copy, PartialEq, Eq, Structural)]
pub struct GroupLayout {
    pub count_width: usize,
    pub subheader_len_width: usize,
    pub data_len_width: usize,
}

impl GroupLayout {
    /// The bytes that one entry of the group takes.
    pub open spec fn entry_width(self) -> int {
        self.subheader_len_width + self.data_len_width
    }
}

/// Reads the decimal field of `width` bytes at `pos`; a non-digit byte gives
/// `malformed`.
pub open spec fn spec_decimal_field(buf: Seq<u8>, pos: int, width: int, malformed: ParseError) -> Result<
    u64,
    ParseError,
> {
    if !field_fits(buf.len() as int, pos, width) {
        Err(ParseError::UnexpectedEndOfBuffer { offset: pos as usize, width: width as usize })
    } else {
        match spec_decimal(buf.subrange(pos, pos + width)) {
            Ok(v) => Ok(v),
            Err(DecimalError::NotADigit { .. }) => Err(malformed),
            Err(DecimalError::TooLarge) => Err(ParseError::CountOverflow { offset: pos as usize }),
        }
    }
}

/// Decodes the entry of `layout` that starts at `pos`.
pub open spec fn spec_entry(buf: Seq<u8>, pos: int, layout: GroupLayout) -> Result<
    SegmentDescriptor,
    ParseError,
> {
    let w1 = layout.subheader_len_width as int;
    let w2 = layout.data_len_width as int;
    match spec_decimal_field(buf, pos, w1, ParseError::MalformedLengthField { offset: pos as usize }) {
        Err(e) => Err(e),
        Ok(subheader_len) => match spec_decimal_field(
            buf,
            pos + w1,
            w2,
            ParseError::MalformedLengthField { offset: (pos + w1) as usize },
        ) {
            Err(e) => Err(e),
            Ok(data_len) => Ok(SegmentDescriptor { subheader_len, data_len }),
        },
    }
}

/// Decodes the first `n` entries of a group whose entries start at `start`:
/// the entries in file order, or the error of the first entry that fails.
pub open spec fn spec_entries(buf: Seq<u8>, start: int, layout: GroupLayout, n: nat) -> Result<
    Seq<SegmentDescriptor>,
    ParseError,
>
    decreases n,
{
    if n == 0 {
        Ok(Seq::empty())
    } else {
        match spec_entries(buf, start, layout, (n - 1) as nat) {
            Err(e) => Err(e),
            Ok(d) => match spec_entry(buf, start + (n - 1) * layout.entry_width(), layout) {
                Err(e) => Err(e),
                Ok(x) => Ok(d.push(x)),
            },
        }
    }
}

/// Decodes the count field of `layout` at `cursor`.
pub open spec fn spec_count(buf: Seq<u8>, cursor: int, layout: GroupLayout) -> Result<u64, ParseError> {
    spec_decimal_field(
        buf,
        cursor,
        layout.count_width as int,
        ParseError::MalformedCountField { offset: cursor as usize },
    )
}

/// Decodes the whole group of `layout` at `cursor`: its directory and the
/// offset just past its last entry, or the first error met.
pub open spec fn spec_directory(buf: Seq<u8>, cursor: int, layout: GroupLayout) -> Result<
    (Seq<SegmentDescriptor>, int),
    ParseError,
> {
    match spec_count(buf, cursor, layout) {
        Err(e) => Err(e),
        Ok(count) => {
            let start = cursor + layout.count_width;
            match spec_entries(buf, start, layout, count as nat) {
                Err(e) => Err(e),
                Ok(d) => Ok((d, start + count * layout.entry_width())),
            }
        },
    }
}

fn decode_decimal_field(buf: &[u8], cursor: usize, width: usize, malformed: ParseError) -> (r: Result<
    (u64, usize),
    ParseError,
>)
    ensures
        match r {
            Ok((v, next)) => spec_decimal_field(buf@, cursor as int, width as int, malformed)
                == Ok::<u64, ParseError>(v) && next == cursor + width && next <= buf@.len(),
            Err(e) => spec_decimal_field(buf@, cursor as int, width as int, malformed) == Err::<
                u64,
                ParseError,
            >(e),
        },
{
    let (field, next) = match slice_field(buf, cursor, width) {
        Ok(p) => p,
        Err(e) => return Err(e),
    };
    match num_from_str(field) {
        Ok(v) => Ok((v, next)),
        Err(DecimalError::NotADigit { .. }) => Err(malformed),
        Err(DecimalError::TooLarge) => Err(ParseError::CountOverflow { offset: cursor }),
    }
}

fn decode_entry(buf: &[u8], pos: usize, layout: GroupLayout) -> (r: Result<
    (SegmentDescriptor, usize),
    ParseError,
>)
    ensures
        match r {
            Ok((x, next)) => spec_entry(buf@, pos as int, layout) == Ok::<
                SegmentDescriptor,
                ParseError,
            >(x) && next == pos + layout.entry_width() && next <= buf@.len(),
            Err(e) => spec_entry(buf@, pos as int, layout) == Err::<SegmentDescriptor, ParseError>(
                e,
            ),
        },
{
    let (subheader_len, mid) = match decode_decimal_field(
        buf,
        pos,
        layout.subheader_len_width,
        ParseError::MalformedLengthField { offset: pos },
    ) {
        Ok(p) => p,
        Err(e) => return Err(e),
    };
    let (data_len, next) = match decode_decimal_field(
        buf,
        mid,
        layout.data_len_width,
        ParseError::MalformedLengthField { offset: mid },
    ) {
        Ok(p) => p,
        Err(e) => return Err(e),
    };
    Ok((SegmentDescriptor { subheader_len, data_len }, next))
}

/// Once an entry fails, every longer run of entries fails with its error.
proof fn lemma_entries_fail_from(
    buf: Seq<u8>,
    start: int,
    layout: GroupLayout,
    n: nat,
    m: nat,
    e: ParseError,
)
    requires
        n < m,
        spec_entries(buf, start, layout, n) is Ok,
        spec_entry(buf, start + n * layout.entry_width(), layout) == Err::<
            SegmentDescriptor,
            ParseError,
        >(e),
    ensures
        spec_entries(buf, start, layout, m) == Err::<Seq<SegmentDescriptor>, ParseError>(e),
    decreases m,
{
    if m > n + 1 {
        lemma_entries_fail_from(buf, start, layout, n, (m - 1) as nat, e);
    }
}

proof fn lemma_next_entry_pos(start: int, i: int, w: int, pos: int)
    requires
        pos == start + i * w,
    ensures
        pos + w == start + (i + 1) * w,
{
    assert(start + (i + 1) * w == start + i * w + w) by (nonlinear_arith);
}

/// Reads the count field of `layout` at `cursor`, then exactly that many
/// entries of (sub-header length, data length) from the bytes that follow.
/// Returns the directory in file order and the offset just past its last
/// entry. On failure no partial directory is returned: the error names the
/// first field that was truncated, held a non-digit byte, or overflowed.
pub fn build_directory(buf: &[u8], cursor: usize, layout: GroupLayout) -> (r: Result<
    (Vec<SegmentDescriptor>, usize),
    ParseError,
>)
    ensures
        match r {
            Ok((dir, next)) => spec_directory(buf@, cursor as int, layout) == Ok::<
                (Seq<SegmentDescriptor>, int),
                ParseError,
            >((dir@, next as int)) && next <= buf@.len(),
            Err(e) => spec_directory(buf@, cursor as int, layout) == Err::<
                (Seq<SegmentDescriptor>, int),
                ParseError,
            >(e),
        },
{
    let (count, start) = match decode_decimal_field(
        buf,
        cursor,
        layout.count_width,
        ParseError::MalformedCountField { offset: cursor },
    ) {
        Ok(p) => p,
        Err(e) => return Err(e),
    };
    let mut dir: Vec<SegmentDescriptor> = Vec::new();
    let mut pos: usize = start;
    let mut i: u64 = 0;
    while i < count
        invariant
            spec_count(buf@, cursor as int, layout) == Ok::<u64, ParseError>(count),
            start == cursor + layout.count_width,
            i <= count,
            start <= pos <= buf@.len(),
            pos == start + i * layout.entry_width(),
            spec_entries(buf@, start as int, layout, i as nat) == Ok::<
                Seq<SegmentDescriptor>,
                ParseError,
            >(dir@),
        decreases count - i,
    {
        match decode_entry(buf, pos, layout) {
            Ok((x, next)) => {
                proof {
                    lemma_next_entry_pos(start as int, i as int, layout.entry_width(), pos as int);
                }
                dir.push(x);
                pos = next;
                i = i + 1;
            },
            Err(e) => {
                proof {
                    lemma_entries_fail_from(buf@, start as int, layout, i as nat, count as nat, e);
                }
                return Err(e);
            },
        }
    }
    Ok((dir, pos))
}

} // verus!
