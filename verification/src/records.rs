//! Record framing: turning the raw byte stream into tagged records.
//!
//! Every record starts with a four byte header: a two byte big-endian total
//! length (header plus payload), a one byte record-type tag and a one byte
//! datatype tag.  A declared length below four is malformed; a header or
//! payload that runs past the end of the input is a truncation error; ending
//! exactly on a record boundary is a clean end of stream.

use vstd::prelude::*;

verus! {

// Record-type tags.
pub const RT_LIBNAME: u8 = 0x02;
pub const RT_ENDLIB: u8 = 0x04;
pub const RT_BGNSTR: u8 = 0x05;
pub const RT_STRNAME: u8 = 0x06;
pub const RT_ENDSTR: u8 = 0x07;
pub const RT_BOUNDARY: u8 = 0x08;
pub const RT_LAYER: u8 = 0x0D;
pub const RT_DATATYPE: u8 = 0x0E;
pub const RT_XY: u8 = 0x10;
pub const RT_ENDEL: u8 = 0x11;

// Datatype tags.
pub const DT_INT2: u8 = 0x02;
pub const DT_INT4: u8 = 0x03;
pub const DT_ASCII: u8 = 0x06;

/// A fatal decoding failure.  A malformed or truncated record anywhere
/// aborts the whole decode; nothing partial is ever returned.
#[derive(Debug)]
pub enum IoError {
    /// A failure reading the underlying byte source, reported by the caller
    /// that produced the bytes; the decoder itself never constructs it.
    Io(String),
    /// A record header declared a total length below four.  `offset` is the
    /// number of bytes consumed up to and including that header.
    Malformed { offset: u64, len: u16, rectype: u8, dtype: u8 },
    /// The input ended in the middle of a header or of a declared payload.
    Eof,
}

/// The big-endian value of two bytes.
pub open spec fn spec_be16(b0: u8, b1: u8) -> int {
    b0 * 256 + b1
}

/// One framed record: its two tags and its payload bytes.
pub struct RecModel {
    pub rectype: u8,
    pub dtype: u8,
    pub payload: Seq<u8>,
}

/// What the framer finds at byte offset `pos` of the stream.
pub enum FrameStep {
    /// `pos` is exactly the end of the input: clean termination.
    End,
    /// Fewer than four header bytes remain, or the declared payload runs
    /// past the end of the input.
    Truncated,
    /// The header declared a total length below four.
    Bad { offset: int, len: int, rectype: u8, dtype: u8 },
    /// A complete record; `next` is the offset just past its payload.
    Rec { rectype: u8, dtype: u8, payload: Seq<u8>, next: int },
}

/// Frame one record at byte offset `pos`.
pub open spec fn frame_at(data: Seq<u8>, pos: int) -> FrameStep {
    if pos == data.len() {
        FrameStep::End
    } else if pos + 4 > data.len() {
        FrameStep::Truncated
    } else {
        let len = spec_be16(data[pos], data[pos + 1]);
        let rectype = data[pos + 2];
        let dtype = data[pos + 3];
        if len < 4 {
            FrameStep::Bad { offset: pos + 4, len, rectype, dtype }
        } else if pos + len > data.len() {
            FrameStep::Truncated
        } else {
            FrameStep::Rec {
                rectype,
                dtype,
                payload: data.subrange(pos + 4, pos + len),
                next: pos + len,
            }
        }
    }
}

/// The error value reported for a failed framing step.
pub open spec fn frame_error(s: FrameStep) -> IoError {
    match s {
        FrameStep::Bad { offset, len, rectype, dtype } => IoError::Malformed {
            offset: offset as u64,
            len: len as u16,
            rectype,
            dtype,
        },
        _ => IoError::Eof,
    }
}

/// The sequence of records from offset `pos` to the first library-end
/// record (inclusive) or to the end of the input, whichever comes first.
pub open spec fn records_from(data: Seq<u8>, pos: int) -> Result<Seq<RecModel>, IoError>
    decreases data.len() - pos
        when 0 <= pos <= data.len()
{
    match frame_at(data, pos) {
        FrameStep::End => Ok(Seq::empty()),
        FrameStep::Truncated => Err(IoError::Eof),
        FrameStep::Bad { offset, len, rectype, dtype } => Err(
            frame_error(FrameStep::Bad { offset, len, rectype, dtype }),
        ),
        FrameStep::Rec { rectype, dtype, payload, next } => {
            let rec = RecModel { rectype, dtype, payload };
            if rectype == RT_ENDLIB {
                Ok(seq![rec])
            } else {
                match records_from(data, next) {
                    Ok(rest) => Ok(seq![rec] + rest),
                    Err(e) => Err(e),
                }
            }
        },
    }
}

/// The framed record sequence of a whole stream.
pub open spec fn spec_records(data: Seq<u8>) -> Result<Seq<RecModel>, IoError> {
    records_from(data, 0)
}

/// Does framing from `pos` onward reach a library-end record?  This is
/// what it means for a stream to be well formed and terminated: every
/// record frames correctly up to and including a library-end record.
pub open spec fn ends_with_endlib(data: Seq<u8>, pos: int) -> bool
    decreases data.len() - pos
        when 0 <= pos <= data.len()
{
    match frame_at(data, pos) {
        FrameStep::Rec { rectype, next, .. } => rectype == RT_ENDLIB
            || ends_with_endlib(data, next),
        _ => false,
    }
}

/// A stream that reaches a library-end record frames identically whatever
/// bytes follow that record: decoding never reads past it.
pub proof fn lemma_endlib_ignores_suffix(data: Seq<u8>, extra: Seq<u8>, pos: int)
    requires
        0 <= pos <= data.len(),
        ends_with_endlib(data, pos),
    ensures
        records_from(data + extra, pos) == records_from(data, pos),
    decreases data.len() - pos,
{
    let d2 = data + extra;
    match frame_at(data, pos) {
        FrameStep::Rec { rectype, dtype, payload, next } => {
            assert(d2[pos] == data[pos]);
            assert(d2[pos + 1] == data[pos + 1]);
            assert(d2[pos + 2] == data[pos + 2]);
            assert(d2[pos + 3] == data[pos + 3]);
            assert(d2.subrange(pos + 4, next) =~= data.subrange(pos + 4, next));
            assert(frame_at(d2, pos) == FrameStep::Rec { rectype, dtype, payload, next });
            if rectype != RT_ENDLIB {
                lemma_endlib_ignores_suffix(data, extra, next);
            }
        },
        _ => {},
    }
}

/// The outcome of one executable framing step.
pub enum FrameOut<'a> {
    End,
    Fail(IoError),
    Rec { rectype: u8, dtype: u8, payload: &'a [u8], next: usize },
}

/// The big-endian value of two bytes, as an executable function.
pub fn be16(b0: u8, b1: u8) -> (r: u16)
    ensures
        r == spec_be16(b0, b1),
{
    (b0 as u16) * 256 + (b1 as u16)
}

/// Frame the record that starts at byte offset `pos`.
pub fn frame_record<'a>(data: &'a [u8], pos: usize) -> (r: FrameOut<'a>)
    requires
        pos <= data@.len(),
    ensures
        (match r {
            FrameOut::End => frame_at(data@, pos as int) is End,
            FrameOut::Fail(e) => {
                &&& (frame_at(data@, pos as int) is Truncated || frame_at(
                    data@,
                    pos as int,
                ) is Bad)
                &&& e == frame_error(frame_at(data@, pos as int))
            },
            FrameOut::Rec { rectype, dtype, payload, next } => frame_at(data@, pos as int)
                == (FrameStep::Rec {
                rectype,
                dtype,
                payload: payload@,
                next: next as int,
            }),
        }),
{
    let n = data.len();
    if pos == n {
        return FrameOut::End;
    }
    if n - pos < 4 {
        return FrameOut::Fail(IoError::Eof);
    }
    let len = be16(data[pos], data[pos + 1]);
    let rectype = data[pos + 2];
    let dtype = data[pos + 3];
    if len < 4 {
        return FrameOut::Fail(
            IoError::Malformed { offset: (pos + 4) as u64, len, rectype, dtype },
        );
    }
    if (len as usize) > n - pos {
        return FrameOut::Fail(IoError::Eof);
    }
    let next = pos + (len as usize);
    let payload = &data[pos + 4..next];
    FrameOut::Rec { rectype, dtype, payload, next }
}

} // verus!
