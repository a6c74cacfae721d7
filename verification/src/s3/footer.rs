//! The footer region of a Parquet object fetched from S3: where to fetch it,
//! how to check and cut it out of the fetched tail, and how absolute file
//! offsets map into the buffer that holds it.

use vstd::prelude::*;
use bytes::Bytes;
use crate::s3::error::{S3Error, S3ErrorModel};
use crate::text::{dec, fmt_u64};

verus! {

#[verifier::external_type_specification]
#[verifier::external_body]
pub struct ExBytes(Bytes);

/// The bytes that a `bytes::Bytes` buffer holds.
pub uninterp spec fn bytes_contents(b: Bytes) -> Seq<u8>;

/// `Bytes::len`: the number of bytes held.
#[verifier::external_body]
pub(crate) fn bytes_len(b: &Bytes) -> (n: usize)
    ensures
        n == bytes_contents(*b).len(),
{
    b.len()
}

/// `Bytes` indexing through `Deref<Target = [u8]>`: the byte at `i`.
#[verifier::external_body]
pub(crate) fn bytes_at(b: &Bytes, i: usize) -> (x: u8)
    requires
        i < bytes_contents(*b).len(),
    ensures
        x == bytes_contents(*b)[i as int],
{
    b[i]
}

/// `Bytes::slice(start..end)`: a buffer holding bytes `start..end`; the
/// crate panics unless `start <= end <= len`.
#[verifier::external_body]
pub(crate) fn bytes_slice(b: &Bytes, start: usize, end: usize) -> (r: Bytes)
    requires
        start <= end <= bytes_contents(*b).len(),
    ensures
        bytes_contents(r) == bytes_contents(*b).subrange(start as int, end as int),
{
    b.slice(start..end)
}

/// How many bytes of the object's tail the first range request asks for.
pub const FOOTER_ESTIMATE: u64 = 65536;

/// In-memory buffer holding the footer region of an S3 object: `bytes` are
/// the last bytes of the object, whose full size is `file_size`.
pub struct FooterBuffer {
    pub bytes: Bytes,
    pub file_size: u64,
}

impl FooterBuffer {
    /// The buffer holds no more bytes than the object has.
    pub open spec fn wf(&self) -> bool {
        bytes_contents(self.bytes).len() <= self.file_size
    }

    /// Absolute offset of the first buffered byte.
    pub open spec fn spec_footer_start(&self) -> int {
        self.file_size - bytes_contents(self.bytes).len()
    }

    /// Whether the buffer holds no more bytes than the object has.
    pub fn is_well_formed(&self) -> (b: bool)
        ensures
            b == self.wf(),
    {
        bytes_len(&self.bytes) as u64 <= self.file_size
    }

    /// The object's full size, as the Parquet reader sees it.
    pub fn len(&self) -> (n: u64)
        ensures
            n == self.file_size,
    {
        self.file_size
    }

    /// Absolute offset of the first buffered byte.
    pub fn footer_start(&self) -> (s: u64)
        requires
            self.wf(),
        ensures
            s == self.spec_footer_start(),
    {
        self.file_size - bytes_len(&self.bytes) as u64
    }

    /// Maps an absolute offset to a buffer offset; offsets before the buffer
    /// are an error.
    pub fn abs_to_rel(&self, start: u64) -> (r: Result<usize, String>)
        requires
            self.wf(),
        ensures
            match r {
                Ok(off) => start >= self.spec_footer_start() && off == (start
                    - self.spec_footer_start()) as usize,
                Err(msg) => start < self.spec_footer_start() && msg@ == "requested offset "@
                    + dec(start as nat) + " is before footer buffer start "@ + dec(
                    self.spec_footer_start() as nat,
                ),
            },
    {
        let footer_start = self.footer_start();
        if start < footer_start {
            let mut msg = String::from_str("requested offset ");
            msg.append(fmt_u64(start).as_str());
            msg.append(" is before footer buffer start ");
            msg.append(fmt_u64(footer_start).as_str());
            return Err(msg);
        }
        Ok(#[verifier::truncate] ((start - footer_start) as usize))
    }

    /// The bytes from absolute offset `start` to the end of the buffer
    /// (what the reader's `get_read` streams from).
    pub fn get_read(&self, start: u64) -> (r: Result<Bytes, String>)
        requires
            self.wf(),
            start >= self.spec_footer_start() ==> (start - self.spec_footer_start()) as usize
                <= bytes_contents(self.bytes).len(),
        ensures
            match r {
                Ok(b) => start >= self.spec_footer_start() && bytes_contents(b) == bytes_contents(
                    self.bytes,
                ).subrange(
                    (start - self.spec_footer_start()) as usize as int,
                    bytes_contents(self.bytes).len() as int,
                ),
                Err(msg) => start < self.spec_footer_start() && msg@ == "requested offset "@
                    + dec(start as nat) + " is before footer buffer start "@ + dec(
                    self.spec_footer_start() as nat,
                ),
            },
    {
        match self.abs_to_rel(start) {
            Ok(offset) => Ok(bytes_slice(&self.bytes, offset, bytes_len(&self.bytes))),
            Err(msg) => Err(msg),
        }
    }

    /// The `length` bytes at absolute offset `start`; a range that runs past
    /// the buffer's end is an error.
    pub fn get_bytes(&self, start: u64, length: usize) -> (r: Result<Bytes, String>)
        requires
            self.wf(),
            start >= self.spec_footer_start() ==> (start - self.spec_footer_start()) as usize
                + length <= usize::MAX,
        ensures
            match r {
                Ok(b) => {
                    let off = (start - self.spec_footer_start()) as usize as int;
                    &&& start >= self.spec_footer_start()
                    &&& off + length <= bytes_contents(self.bytes).len()
                    &&& bytes_contents(b) == bytes_contents(self.bytes).subrange(off, off + length)
                },
                Err(msg) => if start < self.spec_footer_start() {
                    msg@ == "requested offset "@ + dec(start as nat)
                        + " is before footer buffer start "@ + dec(
                        self.spec_footer_start() as nat,
                    )
                } else {
                    let off = (start - self.spec_footer_start()) as usize as int;
                    &&& off + length > bytes_contents(self.bytes).len()
                    &&& msg@ == "footer buffer read ["@ + dec(off as nat) + ".."@ + dec(
                        (off + length) as nat,
                    ) + ") exceeds buffer length "@ + dec(bytes_contents(self.bytes).len())
                },
            },
    {
        let offset = match self.abs_to_rel(start) {
            Ok(offset) => offset,
            Err(msg) => return Err(msg),
        };
        let end = offset + length;
        let n = bytes_len(&self.bytes);
        if end > n {
            let mut msg = String::from_str("footer buffer read [");
            msg.append(fmt_u64(offset as u64).as_str());
            msg.append("..");
            msg.append(fmt_u64(end as u64).as_str());
            msg.append(") exceeds buffer length ");
            msg.append(fmt_u64(n as u64).as_str());
            return Err(msg);
        }
        Ok(bytes_slice(&self.bytes, offset, end))
    }
}

/// The first request for an object's footer: from `range_start` to the last
/// byte, sent as the HTTP `Range` value `header`.
pub struct FooterRange {
    pub range_start: u64,
    pub header: String,
}

/// The HTTP `Range` value for bytes `start..=end`.
pub open spec fn spec_range_header(start: u64, end: u64) -> Seq<char> {
    "bytes="@ + dec(start as nat) + "-"@ + dec(end as nat)
}

fn range_header(start: u64, end: u64) -> (s: String)
    ensures
        s@ == spec_range_header(start, end),
{
    let mut s = String::from_str("bytes=");
    s.append(fmt_u64(start).as_str());
    s.append("-");
    s.append(fmt_u64(end).as_str());
    s
}

/// Where the first footer request starts: 64 KiB before the end, or at 0.
pub open spec fn spec_range_start(file_size: u64) -> u64 {
    if file_size >= FOOTER_ESTIMATE {
        (file_size - FOOTER_ESTIMATE) as u64
    } else {
        0
    }
}

/// Plans the first footer request for an object of `file_size` bytes at
/// `location` (`bucket/key`): objects under 8 bytes cannot be Parquet.
pub fn footer_range(file_size: u64, location: &str) -> (r: Result<FooterRange, S3Error>)
    ensures
        match r {
            Ok(fr) => file_size >= 8 && fr.range_start == spec_range_start(file_size)
                && fr.header@ == spec_range_header(fr.range_start, (file_size - 1) as u64),
            Err(e) => file_size < 8 && e@ == S3ErrorModel::FileTooSmall {
                location: location@,
                size: file_size,
            },
        },
{
    if file_size < 8 {
        return Err(S3Error::FileTooSmall { location: String::from_str(location), size: file_size });
    }
    let range_start = file_size.saturating_sub(FOOTER_ESTIMATE);
    Ok(FooterRange { range_start, header: range_header(range_start, file_size - 1) })
}

/// What to do after the first footer request.
pub enum FooterStep {
    /// The whole footer was in the fetched tail.
    Done(FooterBuffer),
    /// The footer is longer than the tail: fetch it again with this `Range`.
    Refetch { header: String },
}

/// The Parquet trailer magic.
pub open spec fn has_magic(b: Seq<u8>) -> bool {
    b.len() >= 8 && b[b.len() - 4] == 0x50 && b[b.len() - 3] == 0x41 && b[b.len() - 2] == 0x52
        && b[b.len() - 1] == 0x31
}

/// The metadata length stored little-endian just before the magic.
pub open spec fn metadata_len(b: Seq<u8>) -> nat {
    (b[b.len() - 8] + 256 * b[b.len() - 7] + 65536 * b[b.len() - 6] + 16777216 * b[b.len()
        - 5]) as nat
}

/// Footer length: metadata plus the 4-byte length and the 4-byte magic.
pub open spec fn footer_size(b: Seq<u8>) -> nat {
    metadata_len(b) + 8
}

/// The offsets that [`footer_step`] uses are in range: a footer that fits
/// the first request lies within the fetched tail, and one that does not
/// fits in the object. (Where this fails, the arithmetic on the untrusted
/// length would underflow.)
pub open spec fn footer_step_defined(b: Seq<u8>, file_size: u64, range_start: u64) -> bool {
    has_magic(b) ==> if footer_size(b) <= FOOTER_ESTIMATE {
        &&& footer_size(b) + range_start <= file_size
        &&& (file_size - footer_size(b) - range_start) as usize <= b.len()
    } else {
        footer_size(b) <= file_size
    }
}

fn read_footer_size(buf: &Bytes) -> (n: u64)
    requires
        bytes_contents(*buf).len() >= 8,
    ensures
        n == footer_size(bytes_contents(*buf)),
{
    let len = bytes_len(buf);
    let b0 = bytes_at(buf, len - 8) as u64;
    let b1 = bytes_at(buf, len - 7) as u64;
    let b2 = bytes_at(buf, len - 6) as u64;
    let b3 = bytes_at(buf, len - 5) as u64;
    b0 + 256 * b1 + 65536 * b2 + 16777216 * b3 + 8
}

fn check_magic(buf: &Bytes) -> (ok: bool)
    ensures
        ok == has_magic(bytes_contents(*buf)),
{
    let len = bytes_len(buf);
    if len < 8 {
        return false;
    }
    bytes_at(buf, len - 4) == 0x50 && bytes_at(buf, len - 3) == 0x41 && bytes_at(buf, len - 2)
        == 0x52 && bytes_at(buf, len - 1) == 0x31
}

/// Whether [`footer_step`] may be called on this tail.
pub fn footer_step_is_defined(buf: &Bytes, file_size: u64, range_start: u64) -> (ok: bool)
    ensures
        ok == footer_step_defined(bytes_contents(*buf), file_size, range_start),
{
    if !check_magic(buf) {
        return true;
    }
    let fs = read_footer_size(buf);
    if fs <= FOOTER_ESTIMATE {
        if range_start > file_size || fs > file_size - range_start {
            return false;
        }
        let off = #[verifier::truncate] ((file_size - fs - range_start) as usize);
        off <= bytes_len(buf)
    } else {
        fs <= file_size
    }
}

/// Checks the fetched tail `buf` of an object of `file_size` bytes (fetched
/// from `range_start`) and cuts the footer out of it, or asks for a second
/// request when the footer is longer than the first one fetched. A tail
/// without the `PAR1` magic is not Parquet.
pub fn footer_step(buf: Bytes, file_size: u64, range_start: u64, location: &str) -> (r: Result<
    FooterStep,
    S3Error,
>)
    requires
        footer_step_defined(bytes_contents(buf), file_size, range_start),
    ensures
        ({
            let b = bytes_contents(buf);
            match r {
                Err(e) => !has_magic(b) && e@ == S3ErrorModel::NotParquet(location@),
                Ok(FooterStep::Done(f)) => {
                    &&& has_magic(b)
                    &&& footer_size(b) <= FOOTER_ESTIMATE
                    &&& f.file_size == file_size
                    &&& bytes_contents(f.bytes) == b.subrange(
                        (file_size - footer_size(b) - range_start) as usize as int,
                        b.len() as int,
                    )
                },
                Ok(FooterStep::Refetch { header }) => {
                    &&& has_magic(b)
                    &&& footer_size(b) > FOOTER_ESTIMATE
                    &&& header@ == spec_range_header(
                        (file_size - footer_size(b)) as u64,
                        (file_size - 1) as u64,
                    )
                },
            }
        }),
{
    if !check_magic(&buf) {
        return Err(S3Error::NotParquet(String::from_str(location)));
    }
    let fs = read_footer_size(&buf);
    if fs <= FOOTER_ESTIMATE {
        let offset = #[verifier::truncate] ((file_size - fs - range_start) as usize);
        let footer = bytes_slice(&buf, offset, bytes_len(&buf));
        Ok(FooterStep::Done(FooterBuffer { bytes: footer, file_size }))
    } else {
        Ok(FooterStep::Refetch { header: range_header(file_size - fs, file_size - 1) })
    }
}

/// Footer law: when the fetched tail is the object from `range_start` on and
/// the footer fits in it, the buffer that `footer_step` keeps holds exactly
/// the last `footer_size` bytes of the object (metadata, length, magic).
pub proof fn law_footer_is_object_tail(object: Seq<u8>, file_size: u64, range_start: u64)
    requires
        object.len() == file_size,
        file_size <= usize::MAX,
        range_start <= file_size,
        has_magic(object.skip(range_start as int)),
        footer_size(object.skip(range_start as int)) <= FOOTER_ESTIMATE,
        footer_size(object.skip(range_start as int)) + range_start <= file_size,
    ensures
        ({
            let b = object.skip(range_start as int);
            b.subrange((file_size - footer_size(b) - range_start) as usize as int, b.len() as int)
                == object.skip(file_size - footer_size(b))
        }),
{
    let b = object.skip(range_start as int);
    let off = file_size - footer_size(b) - range_start;
    assert(off as usize as int == off);
    assert(b.subrange(off, b.len() as int) =~= object.skip(file_size - footer_size(b)));
}

} // verus!
