//! The RIFF/WAVE container of a mono 16-bit PCM recording.
use vstd::prelude::*;
use crate::error::DspError;
use crate::le::{le_i16, le_u16, le_u32, read_i16_le, read_u16_le, read_u32_le};

verus! {

/// The id of the outer container, "RIFF".
pub open spec fn riff_tag() -> Seq<u8> {
    seq![82u8, 73u8, 70u8, 70u8]
}

/// The file-format tag of a wave file, "WAVE".
pub open spec fn wave_tag() -> Seq<u8> {
    seq![87u8, 65u8, 86u8, 69u8]
}

/// The id of the format chunk, "fmt ".
pub open spec fn fmt_tag() -> Seq<u8> {
    seq![102u8, 109u8, 116u8, 32u8]
}

/// The id of the sample chunk, "data".
pub open spec fn data_tag() -> Seq<u8> {
    seq![100u8, 97u8, 116u8, 97u8]
}

fn matches_tag(id: &Vec<u8>, tag: [u8; 4]) -> (r: bool)
    requires
        id@.len() == 4,
    ensures
        r == (id@ == tag@),
{
    let r = id[0] == tag[0] && id[1] == tag[1] && id[2] == tag[2] && id[3] == tag[3];
    proof {
        if r {
            assert(id@ =~= tag@);
        }
    }
    r
}

/// The four bytes at `pos`, as a vector.
fn take4(b: &[u8], pos: usize) -> (r: Vec<u8>)
    requires
        pos + 4 <= b@.len(),
    ensures
        r@ == b@.subrange(pos as int, pos + 4),
{
    let mut r: Vec<u8> = Vec::new();
    r.push(b[pos]);
    r.push(b[pos + 1]);
    r.push(b[pos + 2]);
    r.push(b[pos + 3]);
    assert(r@ =~= b@.subrange(pos as int, pos + 4));
    r
}

/// The little-endian `u16` at `pos`.
fn u16_at(b: &[u8], pos: usize) -> (r: u16)
    requires
        pos + 2 <= b@.len(),
    ensures
        r == le_u16(b@.subrange(pos as int, pos + 2)),
{
    let a: [u8; 2] = [b[pos], b[pos + 1]];
    assert(a@ =~= b@.subrange(pos as int, pos + 2));
    read_u16_le(a)
}

/// The little-endian `u32` at `pos`.
fn u32_at(b: &[u8], pos: usize) -> (r: u32)
    requires
        pos + 4 <= b@.len(),
    ensures
        r == le_u32(b@.subrange(pos as int, pos + 4)),
{
    let a: [u8; 4] = [b[pos], b[pos + 1], b[pos + 2], b[pos + 3]];
    assert(a@ =~= b@.subrange(pos as int, pos + 4));
    read_u32_le(a)
}

/// The little-endian `i16` at `pos`.
fn i16_at(b: &[u8], pos: usize) -> (r: i16)
    requires
        pos + 2 <= b@.len(),
    ensures
        r == le_i16(b@.subrange(pos as int, pos + 2)),
{
    let a: [u8; 2] = [b[pos], b[pos + 1]];
    assert(a@ =~= b@.subrange(pos as int, pos + 2));
    read_i16_le(a)
}

/// The outer RIFF header: an id, the size of what follows, and a file-format tag.
pub struct Riff {
    pub id: Vec<u8>,
    pub size: u32,
    pub file_format: Vec<u8>,
}

impl Riff {
    /// Both the id and the file-format tag are four bytes long.
    pub open spec fn wf(&self) -> bool {
        self.id@.len() == 4 && self.file_format@.len() == 4
    }

    pub fn new(id: Vec<u8>, size: u32, file_format: Vec<u8>) -> (r: Riff)
        ensures
            r.id@ == id@,
            r.size == size,
            r.file_format@ == file_format@,
    {
        Riff { id, size, file_format }
    }

    /// Checks that the id and the file-format tag are four bytes long.
    pub fn validate(&self) -> (r: Result<(), DspError>)
        ensures
            r is Ok <==> self.wf(),
            r is Err ==> r == Err::<(), DspError>(DspError::Format),
    {
        if self.id.len() == 4 && self.file_format.len() == 4 {
            Ok(())
        } else {
            Err(DspError::Format)
        }
    }

    /// Builds a header and keeps it only where it validates.
    pub fn with_valid(id: Vec<u8>, size: u32, file_format: Vec<u8>) -> (r: Result<Riff, DspError>)
        ensures
            match r {
                Ok(h) => h.wf() && h.id@ == id@ && h.size == size && h.file_format@
                    == file_format@,
                Err(e) => e == DspError::Format && !(id@.len() == 4 && file_format@.len() == 4),
            },
    {
        let h = Riff::new(id, size, file_format);
        match h.validate() {
            Ok(()) => Ok(h),
            Err(e) => Err(e),
        }
    }
}

/// The header of a sub-chunk: an id and the size of its body.
pub struct SubcHeader {
    pub id: Vec<u8>,
    pub size: u32,
}

/// The header of the format chunk.
pub type FormatHeader = SubcHeader;

/// The header of the sample chunk.
pub type DataHeader = SubcHeader;

impl SubcHeader {
    /// The id is four bytes long.
    pub open spec fn wf(&self) -> bool {
        self.id@.len() == 4
    }

    pub fn new(id: Vec<u8>, size: u32) -> (r: SubcHeader)
        ensures
            r.id@ == id@,
            r.size == size,
    {
        SubcHeader { id, size }
    }

    /// Checks that the id is four bytes long.
    pub fn validate(&self) -> (r: Result<(), DspError>)
        ensures
            r is Ok <==> self.wf(),
            r is Err ==> r == Err::<(), DspError>(DspError::Format),
    {
        if self.id.len() == 4 {
            Ok(())
        } else {
            Err(DspError::Format)
        }
    }

    /// Builds a header and keeps it only where it validates.
    pub fn with_valid(id: Vec<u8>, size: u32) -> (r: Result<SubcHeader, DspError>)
        ensures
            match r {
                Ok(h) => h.wf() && h.id@ == id@ && h.size == size,
                Err(e) => e == DspError::Format && id@.len() != 4,
            },
    {
        let h = SubcHeader::new(id, size);
        match h.validate() {
            Ok(()) => Ok(h),
            Err(e) => Err(e),
        }
    }
}

/// The body of the format chunk of a PCM file.
#[derive(Clone, Copy, Debug, PartialEq, Eq, Structural)]
pub struct Format {
    pub format: u16,
    pub channels: u16,
    pub sample_rate: u32,
    pub bit_rate: u32,
    pub block_align: u16,
    pub bits_per_sample: u16,
}

/// The number of bytes of a PCM format body.
pub const FORMAT_LEN: usize = 16;

/// The format body that the sixteen bytes `b` encode, field by field, little-endian.
pub open spec fn format_of(b: Seq<u8>) -> Format {
    Format {
        format: le_u16(b.subrange(0, 2)) as u16,
        channels: le_u16(b.subrange(2, 4)) as u16,
        sample_rate: le_u32(b.subrange(4, 8)) as u32,
        bit_rate: le_u32(b.subrange(8, 12)) as u32,
        block_align: le_u16(b.subrange(12, 14)) as u16,
        bits_per_sample: le_u16(b.subrange(14, 16)) as u16,
    }
}

impl Format {
    pub fn new(
        format: u16,
        channels: u16,
        sample_rate: u32,
        bit_rate: u32,
        block_align: u16,
        bits_per_sample: u16,
    ) -> (r: Format)
        ensures
            r == (Format { format, channels, sample_rate, bit_rate, block_align, bits_per_sample }),
    {
        Format { format, channels, sample_rate, bit_rate, block_align, bits_per_sample }
    }

    /// Reads the format body that starts at `pos`.
    pub fn from_bytes(b: &[u8], pos: usize) -> (r: Format)
        requires
            pos + FORMAT_LEN <= b@.len(),
        ensures
            r == format_of(b@.subrange(pos as int, pos + FORMAT_LEN)),
    {
        let ghost body = b@.subrange(pos as int, pos + FORMAT_LEN);
        assert(b@.len() == b.len());
        let r = Format::new(
            u16_at(b, pos),
            u16_at(b, pos + 2),
            u32_at(b, pos + 4),
            u32_at(b, pos + 8),
            u16_at(b, pos + 12),
            u16_at(b, pos + 14),
        );
        assert(body.subrange(0, 2) =~= b@.subrange(pos as int, pos + 2));
        assert(body.subrange(2, 4) =~= b@.subrange(pos + 2, pos + 4));
        assert(body.subrange(4, 8) =~= b@.subrange(pos + 4, pos + 8));
        assert(body.subrange(8, 12) =~= b@.subrange(pos + 8, pos + 12));
        assert(body.subrange(12, 14) =~= b@.subrange(pos + 12, pos + 14));
        assert(body.subrange(14, 16) =~= b@.subrange(pos + 14, pos + 16));
        r
    }
}

/// A decoded mono 16-bit wave file.
///
/// `data` holds the samples as stored; the sample on the scale [-1, 1) is
/// `data[i] / 32768`.
pub struct Wave {
    pub riff: Riff,
    pub format_header: FormatHeader,
    pub format: Format,
    pub data_header: DataHeader,
    pub data: Vec<i16>,
}

/// The number of bytes of the RIFF header.
pub const RIFF_LEN: usize = 12;

/// The number of bytes of a sub-chunk header.
pub const CHUNK_HEADER_LEN: usize = 8;

/// Where the format body starts.
pub const FORMAT_POS: usize = 20;

/// Where the sample chunk's header starts.
pub const DATA_HEADER_POS: usize = 36;

/// Where the samples start.
pub const DATA_POS: usize = 44;

/// The size that the sample chunk of `b` declares.
pub open spec fn declared_data_size(b: Seq<u8>) -> nat {
    le_u32(b.subrange(40, 44))
}

/// Why `b` is no mono 16-bit wave file, read in order: the RIFF header, the
/// format chunk's header, its body with the sample chunk's header, and the
/// samples. `None` where it is one.
pub open spec fn decode_failure(b: Seq<u8>) -> Option<DspError> {
    if b.len() < 12 {
        Some(DspError::TruncatedData)
    } else if b.subrange(0, 4) != riff_tag() || b.subrange(8, 12) != wave_tag() {
        Some(DspError::Format)
    } else if b.len() < 20 {
        Some(DspError::TruncatedData)
    } else if b.subrange(12, 16) != fmt_tag() {
        Some(DspError::Format)
    } else if b.len() < 44 {
        Some(DspError::TruncatedData)
    } else if b.subrange(36, 40) != data_tag() {
        Some(DspError::Format)
    } else if b.len() < 44 + declared_data_size(b) {
        Some(DspError::TruncatedData)
    } else {
        None
    }
}

/// The sample at index `i` of the sample chunk of `b`.
pub open spec fn sample_of(b: Seq<u8>, i: int) -> int {
    le_i16(b.subrange(44 + 2 * i, 44 + 2 * i + 2))
}

impl Wave {
    /// Every header holds ids of four bytes.
    pub open spec fn wf(&self) -> bool {
        self.riff.wf() && self.format_header.wf() && self.data_header.wf()
    }

    /// This is the wave file that the bytes `b` encode.
    pub open spec fn decoded_from(&self, b: Seq<u8>) -> bool {
        &&& self.riff.id@ == b.subrange(0, 4)
        &&& self.riff.size == le_u32(b.subrange(4, 8))
        &&& self.riff.file_format@ == b.subrange(8, 12)
        &&& self.format_header.id@ == b.subrange(12, 16)
        &&& self.format_header.size == le_u32(b.subrange(16, 20))
        &&& self.format == format_of(b.subrange(20, 36))
        &&& self.data_header.id@ == b.subrange(36, 40)
        &&& self.data_header.size == declared_data_size(b)
        &&& self.data@.len() == declared_data_size(b) / 2
        &&& forall|i: int| 0 <= i < self.data@.len() ==> self.data@[i] == sample_of(b, i)
    }

    pub fn new(
        riff: Riff,
        format_header: FormatHeader,
        format: Format,
        data_header: DataHeader,
        data: Vec<i16>,
    ) -> (r: Wave)
        requires
            riff.wf(),
            format_header.wf(),
            data_header.wf(),
        ensures
            r.wf(),
            r.riff == riff,
            r.format_header == format_header,
            r.format == format,
            r.data_header == data_header,
            r.data == data,
    {
        Wave { riff, format_header, format, data_header, data }
    }
}

/// Reads `count` little-endian samples starting at `pos`.
fn samples_at(b: &[u8], pos: usize, count: usize) -> (r: Vec<i16>)
    requires
        pos + 2 * count <= b@.len(),
    ensures
        r@.len() == count,
        forall|i: int|
            0 <= i < count ==> r@[i] == le_i16(#[trigger] b@.subrange(pos + 2 * i, pos + 2 * i + 2)),
{
    assert(b@.len() == b.len());
    let mut r: Vec<i16> = Vec::new();
    let mut k: usize = 0;
    while k < count
        invariant
            pos + 2 * count <= b@.len(),
            b@.len() == b.len(),
            k <= count,
            r@.len() == k,
            forall|i: int|
                0 <= i < k ==> r@[i] == le_i16(#[trigger] b@.subrange(pos + 2 * i, pos + 2 * i + 2)),
        decreases count - k,
    {
        let s = i16_at(b, pos + 2 * k);
        r.push(s);
        k = k + 1;
    }
    r
}

/// Decodes a mono 16-bit PCM wave file laid out as a RIFF header, a format
/// chunk of sixteen bytes and a sample chunk, in that order. Bytes after the
/// sample chunk are ignored, as is a last odd byte of it.
pub fn decode_wave_mono16(b: &[u8]) -> (r: Result<Wave, DspError>)
    ensures
        match r {
            Ok(w) => decode_failure(b@) is None && w.wf() && w.decoded_from(b@),
            Err(e) => decode_failure(b@) == Some(e),
        },
{
    let len = b.len();
    if len < RIFF_LEN {
        return Err(DspError::TruncatedData);
    }
    let riff = match Riff::with_valid(take4(b, 0), u32_at(b, 4), take4(b, 8)) {
        Ok(h) => h,
        Err(e) => return Err(e),
    };
    if !matches_tag(&riff.id, [82u8, 73u8, 70u8, 70u8]) || !matches_tag(
        &riff.file_format,
        [87u8, 65u8, 86u8, 69u8],
    ) {
        return Err(DspError::Format);
    }
    if len < RIFF_LEN + CHUNK_HEADER_LEN {
        return Err(DspError::TruncatedData);
    }
    let format_header = match SubcHeader::with_valid(take4(b, 12), u32_at(b, 16)) {
        Ok(h) => h,
        Err(e) => return Err(e),
    };
    if !matches_tag(&format_header.id, [102u8, 109u8, 116u8, 32u8]) {
        return Err(DspError::Format);
    }
    if len < DATA_POS {
        return Err(DspError::TruncatedData);
    }
    let format = Format::from_bytes(b, FORMAT_POS);
    let data_header = match SubcHeader::with_valid(take4(b, 36), u32_at(b, 40)) {
        Ok(h) => h,
        Err(e) => return Err(e),
    };
    if !matches_tag(&data_header.id, [100u8, 97u8, 116u8, 97u8]) {
        return Err(DspError::Format);
    }
    let size = data_header.size as usize;
    if len - DATA_POS < size {
        return Err(DspError::TruncatedData);
    }
    let data = samples_at(b, DATA_POS, size / 2);
    Ok(Wave::new(riff, format_header, format, data_header, data))
}

} // verus!
