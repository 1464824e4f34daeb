use vstd::prelude::*;

use crate::directory::GroupLayout;
use crate::slicer::field_offset;

verus! {

/// File profile name (`NITF`).
pub const FHDR_SIZE: usize = 4;
/// File version.
pub const FVER_SIZE: usize = 5;
/// Complexity level.
pub const CLEVEL_SIZE: usize = 2;
/// Standard type.
pub const STYPE_SIZE: usize = 4;
/// Originating station identifier.
pub const OSTAID_SIZE: usize = 10;
/// File date and time.
pub const FDT_SIZE: usize = 14;
/// File title.
pub const FTITLE_SIZE: usize = 80;
/// File security classification.
pub const FSCLASS_SIZE: usize = 1;
/// File classification security system.
pub const FSCLSY_SIZE: usize = 2;
/// File codewords.
pub const FSCODE_SIZE: usize = 11;
/// File control and handling.
pub const FSCTLH_SIZE: usize = 2;
/// File releasing instructions.
pub const FSREL_SIZE: usize = 20;
/// File declassification type.
pub const FSDCTP_SIZE: usize = 2;
/// File declassification date.
pub const FSDCDT_SIZE: usize = 8;
/// File declassification exemption.
pub const FSDCXM_SIZE: usize = 4;
/// File downgrade.
pub const FSDG_SIZE: usize = 1;
/// File downgrade date.
pub const FSDGDT_SIZE: usize = 8;
/// File classification text.
pub const FSCLTX_SIZE: usize = 43;
/// File classification authority type.
pub const FSCATP_SIZE: usize = 1;
/// File classification authority.
pub const FSCAUT_SIZE: usize = 40;
/// File classification reason.
pub const FSCRSN_SIZE: usize = 1;
/// File security source date.
pub const FSSRDT_SIZE: usize = 8;
/// File security control number.
pub const FSCTLN_SIZE: usize = 15;
/// File copy number.
pub const FSCOP_SIZE: usize = 5;
/// File number of copies.
pub const FSCPYS_SIZE: usize = 5;
/// Encryption.
pub const ENCRYP_SIZE: usize = 1;
/// File background color, a binary triple.
pub const FBKGC_SIZE: usize = 3;
/// Originator's name.
pub const ONAME_SIZE: usize = 24;
/// Originator's phone number.
pub const OPHONE_SIZE: usize = 18;
/// File length.
pub const FL_SIZE: usize = 12;
/// NITF file header length.
pub const HL_SIZE: usize = 6;
/// Number of image segments.
pub const NUMI_SIZE: usize = 3;
/// Length of an image sub-header.
pub const LISH_SIZE: usize = 6;
/// Length of an image segment's data.
pub const LI_SIZE: usize = 10;

/// How many fixed fields lead the header, the image segment count included.
pub const FIXED_FIELD_COUNT: usize = 32;
/// The position of the background color among the fixed fields.
pub const FBKGC_INDEX: usize = 26;
/// The position of the image segment count among the fixed fields.
pub const NUMI_INDEX: usize = 31;

/// The widths of the fixed header fields, in file order, up to and including
/// the image segment count.
pub open spec fn header_widths() -> Seq<usize> {
    seq![
        FHDR_SIZE, FVER_SIZE, CLEVEL_SIZE, STYPE_SIZE, OSTAID_SIZE, FDT_SIZE, FTITLE_SIZE,
        FSCLASS_SIZE, FSCLSY_SIZE, FSCODE_SIZE, FSCTLH_SIZE, FSREL_SIZE, FSDCTP_SIZE,
        FSDCDT_SIZE, FSDCXM_SIZE, FSDG_SIZE, FSDGDT_SIZE, FSCLTX_SIZE, FSCATP_SIZE,
        FSCAUT_SIZE, FSCRSN_SIZE, FSSRDT_SIZE, FSCTLN_SIZE, FSCOP_SIZE, FSCPYS_SIZE,
        ENCRYP_SIZE, FBKGC_SIZE, ONAME_SIZE, OPHONE_SIZE, FL_SIZE, HL_SIZE, NUMI_SIZE,
    ]
}

/// The bytes that the fixed header fields take together.
pub open spec fn fixed_header_len() -> int {
    field_offset(header_widths(), FIXED_FIELD_COUNT as int)
}

/// The layout of the image segment group: its count, then per segment the
/// sub-header length and the data length.
pub open spec fn image_group() -> GroupLayout {
    GroupLayout {
        count_width: NUMI_SIZE,
        subheader_len_width: LISH_SIZE,
        data_len_width: LI_SIZE,
    }
}

/// The field layout table: the widths of the fixed header fields in file order.
pub fn fixed_field_widths() -> (r: Vec<usize>)
    ensures
        r@ == header_widths(),
{
    let r = vec![
        FHDR_SIZE, FVER_SIZE, CLEVEL_SIZE, STYPE_SIZE, OSTAID_SIZE, FDT_SIZE, FTITLE_SIZE,
        FSCLASS_SIZE, FSCLSY_SIZE, FSCODE_SIZE, FSCTLH_SIZE, FSREL_SIZE, FSDCTP_SIZE,
        FSDCDT_SIZE, FSDCXM_SIZE, FSDG_SIZE, FSDGDT_SIZE, FSCLTX_SIZE, FSCATP_SIZE,
        FSCAUT_SIZE, FSCRSN_SIZE, FSSRDT_SIZE, FSCTLN_SIZE, FSCOP_SIZE, FSCPYS_SIZE,
        ENCRYP_SIZE, FBKGC_SIZE, ONAME_SIZE, OPHONE_SIZE, FL_SIZE, HL_SIZE, NUMI_SIZE,
    ];
    assert(r@ =~= header_widths());
    r
}

/// The layout of the image segment group.
pub fn image_group_layout() -> (r: GroupLayout)
    ensures
        r == image_group(),
{
    GroupLayout { count_width: NUMI_SIZE, subheader_len_width: LISH_SIZE, data_len_width: LI_SIZE }
}

/// The fixed header fields take 363 bytes; the background color starts at
/// byte 297 and the image segment count at byte 360.
pub proof fn lemma_fixed_offsets()
    ensures
        header_widths().len() == FIXED_FIELD_COUNT,
        field_offset(header_widths(), FBKGC_INDEX as int) == 297,
        field_offset(header_widths(), NUMI_INDEX as int) == 360,
        fixed_header_len() == 363,
{
    reveal_with_fuel(field_offset, 33);
}

} // verus!
