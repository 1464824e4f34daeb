use vstd::prelude::*;
use vstd::slice::slice_subrange;

use crate::error::ParseError;

verus! {

/// Does a field of `width` bytes starting at `cursor` lie inside a buffer of
/// `len` bytes?
pub open spec fn field_fits(len: int, cursor: int, width: int) -> bool {
    cursor + width <= len
}

/// Takes the `width` bytes of `buf` that start at `cursor`, without copying,
/// and returns them with the cursor just past them. The range is checked
/// before anything is read.
pub fn slice_field<'a>(buf: &'a [u8], cursor: usize, width: usize) -> (r: Result<
    (&'a [u8], usize),
    ParseError,
>)
    ensures
        match r {
            Ok((field, next)) => {
                &&& field_fits(buf@.len() as int, cursor as int, width as int)
                &&& field@ == buf@.subrange(cursor as int, cursor + width)
                &&& next == cursor + width
            },
            Err(e) => {
                &&& !field_fits(buf@.len() as int, cursor as int, width as int)
                &&& e == ParseError::UnexpectedEndOfBuffer { offset: cursor, width }
            },
        },
{
    if cursor <= buf.len() && width <= buf.len() - cursor {
        let field = slice_subrange(buf, cursor, cursor + width);
        Ok((field, cursor + width))
    } else {
        Err(ParseError::UnexpectedEndOfBuffer { offset: cursor, width })
    }
}

/// The offset of field `k` from the start of a run of fields of the given
/// widths: the sum of the widths before it.
pub open spec fn field_offset(widths: Seq<usize>, k: int) -> int
    decreases k,
{
    if k <= 0 {
        0
    } else {
        field_offset(widths, k - 1) + widths[k - 1]
    }
}

/// Slices the first `n` of a run of fields of the given widths, the first of
/// which starts at `cursor`: the fields' bytes in order, or the error of the
/// first field that runs past the end of `buf`.
pub open spec fn spec_fields(buf: Seq<u8>, cursor: int, widths: Seq<usize>, n: nat) -> Result<
    Seq<Seq<u8>>,
    ParseError,
>
    decreases n,
{
    if n == 0 {
        Ok(Seq::empty())
    } else {
        match spec_fields(buf, cursor, widths, (n - 1) as nat) {
            Err(e) => Err(e),
            Ok(fs) => {
                let pos = cursor + field_offset(widths, n - 1);
                let w = widths[n - 1] as int;
                if field_fits(buf.len() as int, pos, w) {
                    Ok(fs.push(buf.subrange(pos, pos + w)))
                } else {
                    Err(ParseError::UnexpectedEndOfBuffer { offset: pos as usize, width: w as usize })
                }
            },
        }
    }
}

proof fn lemma_fields_fail_from(
    buf: Seq<u8>,
    cursor: int,
    widths: Seq<usize>,
    n: nat,
    m: nat,
    e: ParseError,
)
    requires
        n < m,
        spec_fields(buf, cursor, widths, (n + 1) as nat) == Err::<Seq<Seq<u8>>, ParseError>(e),
    ensures
        spec_fields(buf, cursor, widths, m) == Err::<Seq<Seq<u8>>, ParseError>(e),
    decreases m,
{
    if m > n + 1 {
        lemma_fields_fail_from(buf, cursor, widths, n, (m - 1) as nat, e);
    }
}

/// Slices consecutive fields of the given widths out of `buf`, the first at
/// `cursor`, without copying. Returns the fields in order and the cursor just
/// past the last one, or the error of the first field that does not fit.
pub fn slice_fields<'a>(buf: &'a [u8], cursor: usize, widths: &[usize]) -> (r: Result<
    (Vec<&'a [u8]>, usize),
    ParseError,
>)
    ensures
        match r {
            Ok((fields, next)) => {
                &&& spec_fields(buf@, cursor as int, widths@, widths@.len()) == Ok::<
                    Seq<Seq<u8>>,
                    ParseError,
                >(fields@.map_values(|f: &[u8]| f@))
                &&& next == cursor + field_offset(widths@, widths@.len() as int)
            },
            Err(e) => spec_fields(buf@, cursor as int, widths@, widths@.len()) == Err::<
                Seq<Seq<u8>>,
                ParseError,
            >(e),
        },
{
    let mut fields: Vec<&'a [u8]> = Vec::new();
    let mut pos: usize = cursor;
    let mut i: usize = 0;
    assert(fields@.map_values(|f: &[u8]| f@) =~= Seq::<Seq<u8>>::empty());
    while i < widths.len()
        invariant
            i <= widths@.len(),
            pos == cursor + field_offset(widths@, i as int),
            spec_fields(buf@, cursor as int, widths@, i as nat) == Ok::<Seq<Seq<u8>>, ParseError>(
                fields@.map_values(|f: &[u8]| f@),
            ),
        decreases widths@.len() - i,
    {
        match slice_field(buf, pos, widths[i]) {
            Ok((field, next)) => {
                let ghost before = fields@;
                fields.push(field);
                assert(fields@.map_values(|f: &[u8]| f@) =~= before.map_values(|f: &[u8]| f@).push(
                    field@,
                ));
                pos = next;
                i = i + 1;
            },
            Err(e) => {
                proof {
                    lemma_fields_fail_from(buf@, cursor as int, widths@, i as nat, widths@.len(), e);
                }
                return Err(e);
            },
        }
    }
    Ok((fields, pos))
}

/// A successful slice of `n` fields gives `n` fields, the `k`-th of which is
/// the bytes of the `k`-th width at the `k`-th offset.
pub(crate) proof fn lemma_fields_len(buf: Seq<u8>, cursor: int, widths: Seq<usize>, n: nat)
    requires
        n <= widths.len(),
        0 <= cursor <= buf.len(),
        spec_fields(buf, cursor, widths, n) is Ok,
    ensures
        spec_fields(buf, cursor, widths, n)->Ok_0.len() == n,
        forall|k: int|
            0 <= k < n ==> (#[trigger] spec_fields(buf, cursor, widths, n)->Ok_0[k]).len()
                == widths[k] && spec_fields(buf, cursor, widths, n)->Ok_0[k] == buf.subrange(
                cursor + field_offset(widths, k),
                cursor + field_offset(widths, k) + widths[k],
            ),
        0 <= field_offset(widths, n as int),
        cursor + field_offset(widths, n as int) <= buf.len(),
    decreases n,
{
    if n > 0 {
        lemma_fields_len(buf, cursor, widths, (n - 1) as nat);
        let fs = spec_fields(buf, cursor, widths, n)->Ok_0;
        let prev = spec_fields(buf, cursor, widths, (n - 1) as nat)->Ok_0;
        assert forall|k: int| 0 <= k < n implies (#[trigger] fs[k]).len() == widths[k] && fs[k]
            == buf.subrange(
            cursor + field_offset(widths, k),
            cursor + field_offset(widths, k) + widths[k],
        ) by {
            if k < n - 1 {
                assert(fs[k] == prev[k]);
            }
        }
    }
}

} // verus!
