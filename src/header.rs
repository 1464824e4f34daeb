use vstd::prelude::*;
use vstd::slice::slice_subrange;

use crate::directory::{build_directory, spec_directory, SegmentDescriptor};
use crate::error::ParseError;
use crate::layout::{
    fixed_field_widths, header_widths, image_group, image_group_layout, lemma_fixed_offsets,
    FBKGC_INDEX, FBKGC_SIZE, FIXED_FIELD_COUNT, NUMI_INDEX,
};
use crate::slicer::{field_offset, lemma_fields_len, slice_field, slice_fields, spec_fields};

verus! {

/// A background color: red, green and blue channel values.
#[derive(Debug, Clone, Copy, PartialEq, Eq, Structural)]
pub struct RGB(pub u8, pub u8, pub u8);

impl RGB {
    /// The three channel values in order, as they stand in the file.
    pub open spec fn channels(self) -> Seq<u8> {
        seq![self.0, self.1, self.2]
    }
}

/// The decoded file header. Each field but the background color is the raw
/// byte range of the buffer it was decoded from, padding included; the image
/// segment directory gives each image segment's sub-header and data lengths
/// in file order.
#[derive(Debug)]
pub struct NitfHeader<'a> {
    pub fhdr: &'a [u8],
    pub fver: &'a [u8],
    pub clevel: &'a [u8],
    pub stype: &'a [u8],
    pub ostaid: &'a [u8],
    pub fdt: &'a [u8],
    pub ftitle: &'a [u8],
    pub fsclass: &'a [u8],
    pub fsclsy: &'a [u8],
    pub fscode: &'a [u8],
    pub fsctlh: &'a [u8],
    pub fsrel: &'a [u8],
    pub fsdctp: &'a [u8],
    pub fsdcdt: &'a [u8],
    pub fsdcxm: &'a [u8],
    pub fsdg: &'a [u8],
    pub fsdgdt: &'a [u8],
    pub fscltx: &'a [u8],
    pub fscatp: &'a [u8],
    pub fscaut: &'a [u8],
    pub fscrsn: &'a [u8],
    pub fssrdt: &'a [u8],
    pub fsctln: &'a [u8],
    pub fscop: &'a [u8],
    pub fscpys: &'a [u8],
    pub encryp: &'a [u8],
    pub fbkgc: RGB,
    pub oname: &'a [u8],
    pub ophone: &'a [u8],
    pub fl: &'a [u8],
    pub hl: &'a [u8],
    pub numi: &'a [u8],
    pub image_segments: Vec<SegmentDescriptor>,
}

impl<'a> NitfHeader<'a> {
    /// The fixed fields in file order, the background color as its three bytes.
    pub open spec fn fixed_fields(&self) -> Seq<Seq<u8>> {
        seq![
            self.fhdr@, self.fver@, self.clevel@, self.stype@, self.ostaid@, self.fdt@,
            self.ftitle@, self.fsclass@, self.fsclsy@, self.fscode@, self.fsctlh@, self.fsrel@,
            self.fsdctp@, self.fsdcdt@, self.fsdcxm@, self.fsdg@, self.fsdgdt@, self.fscltx@,
            self.fscatp@, self.fscaut@, self.fscrsn@, self.fssrdt@, self.fsctln@, self.fscop@,
            self.fscpys@, self.encryp@, self.fbkgc.channels(), self.oname@, self.ophone@,
            self.fl@, self.hl@, self.numi@,
        ]
    }
}

/// Decodes a header from `buf`: the fixed fields, then the image segment
/// group, whose count is the last fixed field. Gives the fields' bytes, the
/// image segment directory and the offset just past the header, or the first
/// error met.
pub open spec fn spec_header(buf: Seq<u8>) -> Result<
    (Seq<Seq<u8>>, Seq<SegmentDescriptor>, int),
    ParseError,
> {
    match spec_fields(buf, 0, header_widths(), FIXED_FIELD_COUNT as nat) {
        Err(e) => Err(e),
        Ok(fields) => match spec_directory(
            buf,
            field_offset(header_widths(), NUMI_INDEX as int),
            image_group(),
        ) {
            Err(e) => Err(e),
            Ok((dir, end)) => Ok((fields, dir, end)),
        },
    }
}

/// Splits a 3-byte background color field into its channels.
pub fn rgb_from_bytes(bytes: &[u8]) -> (r: RGB)
    requires
        bytes@.len() == FBKGC_SIZE,
    ensures
        r.channels() == bytes@,
{
    let r = RGB(bytes[0], bytes[1], bytes[2]);
    assert(r.channels() =~= bytes@);
    r
}

/// Reads a background color from the start of `input`; returns the rest of
/// the input and the color.
pub fn parse_fbkgc(input: &[u8]) -> (r: Result<(&[u8], RGB), ParseError>)
    ensures
        match r {
            Ok((rest, rgb)) => {
                &&& input@.len() >= FBKGC_SIZE
                &&& rgb.channels() == input@.subrange(0, FBKGC_SIZE as int)
                &&& rest@ == input@.subrange(FBKGC_SIZE as int, input@.len() as int)
            },
            Err(e) => {
                &&& input@.len() < FBKGC_SIZE
                &&& e == ParseError::UnexpectedEndOfBuffer { offset: 0, width: FBKGC_SIZE }
            },
        },
{
    let (field, next) = match slice_field(input, 0, FBKGC_SIZE) {
        Ok(p) => p,
        Err(e) => return Err(e),
    };
    let rgb = rgb_from_bytes(field);
    Ok((slice_subrange(input, next, input.len()), rgb))
}

/// Decodes the file header at the start of `input` without copying it.
/// Returns the bytes that follow the header and the decoded header. A field
/// that runs past the end of the input, a count or length field that holds a
/// non-digit byte, or a value that does not fit in a `u64` fails the whole
/// decode; no partial header is returned.
pub fn header<'a>(input: &'a [u8]) -> (r: Result<(&'a [u8], NitfHeader<'a>), ParseError>)
    ensures
        match r {
            Ok((rest, h)) => {
                &&& spec_header(input@) == Ok::<
                    (Seq<Seq<u8>>, Seq<SegmentDescriptor>, int),
                    ParseError,
                >((h.fixed_fields(), h.image_segments@, input@.len() - rest@.len()))
                &&& rest@ == input@.subrange(input@.len() - rest@.len(), input@.len() as int)
            },
            Err(e) => spec_header(input@) == Err::<
                (Seq<Seq<u8>>, Seq<SegmentDescriptor>, int),
                ParseError,
            >(e),
        },
{
    proof {
        lemma_fixed_offsets();
    }
    let widths = fixed_field_widths();
    let (f, count_end) = match slice_fields(input, 0, widths.as_slice()) {
        Ok(p) => p,
        Err(e) => return Err(e),
    };
    let ghost fs = f@.map_values(|s: &[u8]| s@);
    proof {
        lemma_fields_len(input@, 0, header_widths(), FIXED_FIELD_COUNT as nat);
    }
    assert(f@[FBKGC_INDEX as int]@.len() == FBKGC_SIZE) by {
        assert(fs[FBKGC_INDEX as int] == f@[FBKGC_INDEX as int]@);
        assert(fs[FBKGC_INDEX as int].len() == header_widths()[FBKGC_INDEX as int]);
    }
    let count_pos = count_end - widths[NUMI_INDEX];
    assert(count_pos == field_offset(header_widths(), NUMI_INDEX as int));
    let (image_segments, end) = match build_directory(input, count_pos, image_group_layout()) {
        Ok(p) => p,
        Err(e) => return Err(e),
    };
    let h = NitfHeader {
        fhdr: f[0],
        fver: f[1],
        clevel: f[2],
        stype: f[3],
        ostaid: f[4],
        fdt: f[5],
        ftitle: f[6],
        fsclass: f[7],
        fsclsy: f[8],
        fscode: f[9],
        fsctlh: f[10],
        fsrel: f[11],
        fsdctp: f[12],
        fsdcdt: f[13],
        fsdcxm: f[14],
        fsdg: f[15],
        fsdgdt: f[16],
        fscltx: f[17],
        fscatp: f[18],
        fscaut: f[19],
        fscrsn: f[20],
        fssrdt: f[21],
        fsctln: f[22],
        fscop: f[23],
        fscpys: f[24],
        encryp: f[25],
        fbkgc: rgb_from_bytes(f[26]),
        oname: f[27],
        ophone: f[28],
        fl: f[29],
        hl: f[30],
        numi: f[31],
        image_segments,
    };
    assert(h.fixed_fields() =~= fs);
    let rest = slice_subrange(input, end, input.len());
    Ok((rest, h))
}

} // verus!
