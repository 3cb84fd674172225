//! Binary capture file format for OBD2 traffic recording (`.ttcap`).
//!
//! The file format consists of a 64-byte header followed by variable-length
//! binary records. Each record contains a timestamp, type tag, length, and
//! payload data.
//!
//! # File Layout
//!
//! ```text
//! [Header: 64 bytes]
//! [Record 0: 7 + data_len bytes]
//! [Record 1: 7 + data_len bytes]
//! ...
//! ```
//!
//! # Record Format
//!
//! Each record is:
//! - `timestamp_ms`: u32 LE, milliseconds since capture start
//! - `record_type`: u8, see [`RecordType`]
//! - `data_len`: u16 LE, length of the following data
//! - `data`: `[u8; data_len]`

use crate::text::{
    decimal_text, from_utf8, lower_hex_pair, lower_hex_text, push_all, push_lower_hex,
    push_number,
};
use vstd::prelude::*;
use vstd::slice::slice_subrange;
use vstd::utf8::{decode_utf8, encode_utf8, valid_utf8};

verus! {

/// Capture file magic bytes: `TachTalk` (8 bytes).
pub const MAGIC: [u8; 8] = [0x54, 0x61, 0x63, 0x68, 0x54, 0x61, 0x6c, 0x6b];

/// Current capture file format version.
pub const VERSION: u16 = 1;

/// Fixed header size in bytes.
pub const HEADER_SIZE: usize = 64;

/// Minimum size of a record (header only, no data): 4 + 1 + 2 = 7 bytes.
pub const RECORD_HEADER_SIZE: usize = 7;

/// Maximum firmware version string length (including null terminator).
pub const FIRMWARE_VERSION_MAX_LEN: usize = 16;

/// Reserved field size in bytes.
pub const RESERVED_SIZE: usize = 12;

/// Header flag: capture buffer overflowed.
pub const FLAG_OVERFLOW: u16 = 1;

/// Header flag: capture start timestamp is NTP-synced.
pub const FLAG_NTP_SYNCED: u16 = 2;

// ---------------------------------------------------------------------------
// Little-endian numbers
// ---------------------------------------------------------------------------

/// A number in `n` bytes, least significant first; higher digits are dropped.
pub open spec fn le_bytes(value: nat, n: nat) -> Seq<u8>
    decreases n,
{
    if n == 0 {
        Seq::empty()
    } else {
        seq![(value % 256) as u8] + le_bytes(value / 256, (n - 1) as nat)
    }
}

/// The number in bytes, least significant first.
pub open spec fn le_value(bytes: Seq<u8>) -> nat
    decreases bytes.len(),
{
    if bytes.len() == 0 {
        0
    } else {
        bytes[0] as nat + 256 * le_value(bytes.drop_first())
    }
}

/// `256^n`.
pub open spec fn byte_range(n: nat) -> nat
    decreases n,
{
    if n == 0 {
        1
    } else {
        256 * byte_range((n - 1) as nat)
    }
}

/// A number reads back from its bytes if it fits them.
pub proof fn law_le_roundtrip(value: nat, n: nat)
    requires
        value < byte_range(n),
    ensures
        le_bytes(value, n).len() == n,
        le_value(le_bytes(value, n)) == value,
    decreases n,
{
    if n > 0 {
        let m = (n - 1) as nat;
        assert(value / 256 < byte_range(m)) by {
            assert(value < 256 * byte_range(m));
        }
        law_le_roundtrip(value / 256, m);
        assert(le_bytes(value, n).drop_first() =~= le_bytes(value / 256, m));
    }
}

proof fn lemma_le_len(value: nat, n: nat)
    ensures
        le_bytes(value, n).len() == n,
    decreases n,
{
    if n > 0 {
        lemma_le_len(value / 256, (n - 1) as nat);
    }
}

proof fn lemma_le_value_bound(bytes: Seq<u8>)
    ensures
        le_value(bytes) < byte_range(bytes.len()),
    decreases bytes.len(),
{
    if bytes.len() > 0 {
        lemma_le_value_bound(bytes.drop_first());
    }
}

proof fn lemma_byte_ranges()
    ensures
        byte_range(2) == 0x1_0000,
        byte_range(4) == 0x1_0000_0000,
        byte_range(8) == 0x1_0000_0000_0000_0000,
{
    reveal_with_fuel(byte_range, 9);
}

/// Append a number in `n` bytes, least significant first.
fn push_le(out: &mut Vec<u8>, value: u64, n: usize)
    ensures
        final(out)@ == old(out)@ + le_bytes(value as nat, n as nat),
{
    let mut rest: u64 = value;
    let mut left: usize = n;
    assert(out@ + le_bytes(rest as nat, left as nat) =~= old(out)@ + le_bytes(
        value as nat,
        n as nat,
    ));
    while left > 0
        invariant
            out@ + le_bytes(rest as nat, left as nat) == old(out)@ + le_bytes(
                value as nat,
                n as nat,
            ),
        decreases left,
    {
        let byte: u8 = (rest % 256) as u8;
        let ghost tail = le_bytes((rest / 256) as nat, (left - 1) as nat);
        assert(out@ + (seq![byte] + tail) =~= out@.push(byte) + tail);
        out.push(byte);
        rest = rest / 256;
        left = left - 1;
    }
    assert(out@ + le_bytes(rest as nat, 0) =~= out@);
}

/// Read a number of at most 8 bytes, least significant first.
fn read_le(bytes: &[u8], from: usize, n: usize) -> (r: u64)
    requires
        from + n <= bytes@.len(),
        n <= 8,
    ensures
        r == le_value(bytes@.subrange(from as int, from + n)),
        r < byte_range(n as nat),
{
    let ghost all = bytes@.subrange(from as int, from + n);
    let total: usize = bytes.len();
    let mut value: u64 = 0;
    let mut left: usize = n;
    proof {
        lemma_le_value_bound(all);
        assert(all.skip(n as int) =~= Seq::empty());
    }
    while left > 0
        invariant
            left <= n <= 8,
            total == bytes@.len(),
            from + n <= total,
            all == bytes@.subrange(from as int, from + n),
            value == le_value(all.skip(left as int)),
        decreases left,
    {
        left = left - 1;
        let ghost part = all.skip(left as int);
        proof {
            assert(part.drop_first() =~= all.skip(left + 1));
            lemma_le_value_bound(part);
            reveal_with_fuel(byte_range, 9);
            assert(part.len() <= 8);
        }
        assert(bytes@[from + left] == part[0]);
        value = bytes[from + left] as u64 + 256 * value;
    }
    assert(all.skip(0) =~= all);
    value
}

// ---------------------------------------------------------------------------
// Record types
// ---------------------------------------------------------------------------

/// Capture record types.
#[derive(Debug, Clone, Copy, PartialEq, Eq, Structural)]
pub enum RecordType {
    /// Data sent from client to dongle.
    ClientToDongle,
    /// Data sent from dongle to client.
    DongleToClient,
    /// Client connected event (no data payload).
    Connect,
    /// Client disconnected event (no data payload).
    Disconnect,
}

/// The type byte of a record type.
pub open spec fn type_byte(record_type: RecordType) -> u8 {
    match record_type {
        RecordType::ClientToDongle => 0,
        RecordType::DongleToClient => 1,
        RecordType::Connect => 2,
        RecordType::Disconnect => 3,
    }
}

/// The record type of a type byte.
pub open spec fn type_of_byte(value: u8) -> Option<RecordType> {
    if value == 0 {
        Some(RecordType::ClientToDongle)
    } else if value == 1 {
        Some(RecordType::DongleToClient)
    } else if value == 2 {
        Some(RecordType::Connect)
    } else if value == 3 {
        Some(RecordType::Disconnect)
    } else {
        None
    }
}

impl RecordType {
    /// Try to convert a raw `u8` to a `RecordType`.
    pub fn from_u8(value: u8) -> (r: Option<Self>)
        ensures
            r == type_of_byte(value),
    {
        if value == 0 {
            Some(RecordType::ClientToDongle)
        } else if value == 1 {
            Some(RecordType::DongleToClient)
        } else if value == 2 {
            Some(RecordType::Connect)
        } else if value == 3 {
            Some(RecordType::Disconnect)
        } else {
            None
        }
    }

    /// The type byte of this record type.
    pub fn to_u8(self) -> (r: u8)
        ensures
            r == type_byte(self),
            type_of_byte(r) == Some(self),
    {
        match self {
            RecordType::ClientToDongle => 0,
            RecordType::DongleToClient => 1,
            RecordType::Connect => 2,
            RecordType::Disconnect => 3,
        }
    }

    /// Human-readable label for this record type.
    pub fn label(self) -> (r: &'static str)
        ensures
            r@ == match self {
                RecordType::ClientToDongle => "TX"@,
                RecordType::DongleToClient => "RX"@,
                RecordType::Connect => "CONNECT"@,
                RecordType::Disconnect => "DISCONNECT"@,
            },
    {
        match self {
            RecordType::ClientToDongle => "TX",
            RecordType::DongleToClient => "RX",
            RecordType::Connect => "CONNECT",
            RecordType::Disconnect => "DISCONNECT",
        }
    }
}

// ---------------------------------------------------------------------------
// Header
// ---------------------------------------------------------------------------

/// 64-byte capture file header.
///
/// All multi-byte integers are little-endian except `dongle_ip` which is in
/// network byte order (big-endian).
///
/// | Offset | Size | Field |
/// |--------|------|-------|
/// | 0  | 8  | Magic: `TachTalk` |
/// | 8  | 2  | Version (u16 LE) |
/// | 10 | 2  | Header size (u16 LE) |
/// | 12 | 4  | Record count (u32 LE) |
/// | 16 | 4  | Total data length (u32 LE) |
/// | 20 | 8  | Capture start (u64 LE, Unix epoch ms or 0) |
/// | 28 | 4  | Dongle IP (u32, network order) |
/// | 32 | 2  | Dongle port (u16 LE) |
/// | 34 | 2  | Flags (u16 LE) |
/// | 36 | 16 | Firmware version (null-terminated UTF-8) |
/// | 52 | 12 | Reserved (zero) |
#[derive(Debug, Clone)]
pub struct CaptureHeader {
    /// Format version.
    pub version: u16,
    /// Header size (allows future expansion).
    pub header_size: u16,
    /// Number of records in the file.
    pub record_count: u32,
    /// Total byte length of all record data (excludes header).
    pub data_length: u32,
    /// Capture start time as Unix epoch milliseconds, or 0 if unavailable.
    pub capture_start_ms: u64,
    /// Dongle `IPv4` address octets (network order).
    pub dongle_ip: [u8; 4],
    /// Dongle TCP port.
    pub dongle_port: u16,
    /// Flags (see `FLAG_OVERFLOW`, `FLAG_NTP_SYNCED`).
    pub flags: u16,
    /// Firmware version string (null-terminated, max 15 chars + null).
    pub firmware_version: [u8; 16],
}

impl Default for CaptureHeader {
    fn default() -> (r: Self)
        ensures
            r.version == VERSION,
            r.header_size == HEADER_SIZE,
            r.record_count == 0,
            r.data_length == 0,
            r.capture_start_ms == 0,
            r.dongle_ip@ == seq![0u8; 4],
            r.dongle_port == 0,
            r.flags == 0,
            r.firmware_version@ == seq![0u8; 16],
    {
        let header = CaptureHeader {
            version: VERSION,
            header_size: 64,
            record_count: 0,
            data_length: 0,
            capture_start_ms: 0,
            dongle_ip: [0u8; 4],
            dongle_port: 0,
            flags: 0,
            firmware_version: [0u8; 16],
        };
        assert(header.dongle_ip@ =~= seq![0u8; 4]);
        assert(header.firmware_version@ =~= seq![0u8; 16]);
        header
    }
}

/// Why a header could not be read.
#[derive(Debug, Clone, Copy, PartialEq, Eq, Structural)]
pub enum HeaderError {
    /// The data ends within the header.
    UnexpectedEof,
    /// The magic bytes don't match.
    InvalidMagic,
}

/// The 64 bytes of a header.
pub open spec fn header_bytes(h: CaptureHeader) -> Seq<u8> {
    MAGIC@ + le_bytes(h.version as nat, 2) + le_bytes(h.header_size as nat, 2) + le_bytes(
        h.record_count as nat,
        4,
    ) + le_bytes(h.data_length as nat, 4) + le_bytes(h.capture_start_ms as nat, 8) + h.dongle_ip@
        + le_bytes(h.dongle_port as nat, 2) + le_bytes(h.flags as nat, 2) + h.firmware_version@
        + seq![0u8; 12]
}

/// The header that 64 bytes hold.
pub open spec fn holds_header(bytes: Seq<u8>, h: CaptureHeader) -> bool {
    &&& h.version == le_value(bytes.subrange(8, 10))
    &&& h.header_size == le_value(bytes.subrange(10, 12))
    &&& h.record_count == le_value(bytes.subrange(12, 16))
    &&& h.data_length == le_value(bytes.subrange(16, 20))
    &&& h.capture_start_ms == le_value(bytes.subrange(20, 28))
    &&& h.dongle_ip@ == bytes.subrange(28, 32)
    &&& h.dongle_port == le_value(bytes.subrange(32, 34))
    &&& h.flags == le_value(bytes.subrange(34, 36))
    &&& h.firmware_version@ == bytes.subrange(36, 52)
}

/// Two headers with the same fields.
pub open spec fn same_header(a: CaptureHeader, b: CaptureHeader) -> bool {
    &&& a.version == b.version
    &&& a.header_size == b.header_size
    &&& a.record_count == b.record_count
    &&& a.data_length == b.data_length
    &&& a.capture_start_ms == b.capture_start_ms
    &&& a.dongle_ip@ == b.dongle_ip@
    &&& a.dongle_port == b.dongle_port
    &&& a.flags == b.flags
    &&& a.firmware_version@ == b.firmware_version@
}

/// The version field for a version text: its first 15 bytes, then zeros.
pub open spec fn version_field(version: Seq<u8>) -> Seq<u8> {
    let kept = if version.len() < 15 {
        version
    } else {
        version.take(15)
    };
    kept + Seq::new((16 - kept.len()) as nat, |i: int| 0u8)
}

/// The bytes before the first zero.
pub open spec fn until_zero(bytes: Seq<u8>) -> Seq<u8>
    decreases bytes.len(),
{
    if bytes.len() == 0 || bytes[0] == 0 {
        Seq::empty()
    } else {
        seq![bytes[0]] + until_zero(bytes.drop_first())
    }
}

impl CaptureHeader {
    /// Set the firmware version string (truncated to 15 bytes).
    pub fn set_firmware_version(&mut self, version: &str)
        ensures
            final(self).firmware_version@ == version_field(encode_utf8(version@)),
            same_header(
                *final(self),
                (CaptureHeader {
                    firmware_version: final(self).firmware_version,
                    ..*old(self)
                }),
            ),
    {
        let bytes: &[u8] = version.as_bytes();
        let n: usize = if bytes.len() < 15 {
            bytes.len()
        } else {
            15
        };
        let mut field: [u8; 16] = [0u8; 16];
        let mut i: usize = 0;
        while i < n
            invariant
                i <= n <= 15,
                n <= bytes@.len(),
                field@.len() == 16,
                forall|j: int| 0 <= j < i ==> field@[j] == bytes@[j],
                forall|j: int| i <= j < 16 ==> field@[j] == 0,
            decreases n - i,
        {
            field[i] = bytes[i];
            i = i + 1;
        }
        self.firmware_version = field;
        assert(self.firmware_version@ =~= version_field(encode_utf8(version@)));
    }

    /// The firmware version in the header, as text.
    pub open spec fn is_version_text(&self, text: Seq<char>) -> bool {
        let bytes = until_zero(self.firmware_version@);
        text == if valid_utf8(bytes) {
            decode_utf8(bytes)
        } else {
            "<invalid>"@
        }
    }

    /// Get the firmware version as a string slice.
    pub fn firmware_version_str(&self) -> (r: &str)
        ensures
            self.is_version_text(r@),
    {
        let field: &[u8] = self.firmware_version.as_slice();
        let mut end: usize = 0;
        assert(field@.skip(0) =~= field@);
        assert(field@.take(0) + until_zero(field@.skip(0)) =~= until_zero(field@));
        while end < 16 && field[end] != 0
            invariant
                end <= 16,
                field@ == self.firmware_version@,
                field@.len() == 16,
                field@.take(end as int) + until_zero(field@.skip(end as int)) == until_zero(field@),
            ensures
                end <= 16,
                field@.take(end as int) == until_zero(field@),
            decreases 16 - end,
        {
            let ghost rest = field@.skip(end as int);
            assert(rest.drop_first() =~= field@.skip(end + 1));
            assert(field@.take(end as int) + (seq![rest[0]] + until_zero(rest.drop_first()))
                =~= field@.take(end + 1) + until_zero(field@.skip(end + 1)));
            end = end + 1;
            proof {
                let left = field@.skip(end as int);
                if left.len() == 0 || left[0] == 0 {
                    assert(field@.take(end as int) + until_zero(left) =~= field@.take(end as int));
                }
            }
        }
        match from_utf8(slice_subrange(field, 0, end)) {
            Some(text) => {
                assert(field@.subrange(0, end as int) =~= field@.take(end as int));
                text
            },
            None => {
                assert(field@.subrange(0, end as int) =~= field@.take(end as int));
                "<invalid>"
            },
        }
    }

    /// Returns `true` if the overflow flag is set.
    pub fn overflow(&self) -> (r: bool)
        ensures
            r == (self.flags & FLAG_OVERFLOW != 0),
    {
        self.flags & FLAG_OVERFLOW != 0
    }

    /// Returns `true` if the NTP-synced flag is set.
    pub fn ntp_synced(&self) -> (r: bool)
        ensures
            r == (self.flags & FLAG_NTP_SYNCED != 0),
    {
        self.flags & FLAG_NTP_SYNCED != 0
    }

    /// Serialize the header to a 64-byte array.
    pub fn to_bytes(&self) -> (r: [u8; 64])
        ensures
            r@ == header_bytes(*self),
    {
        let mut out: Vec<u8> = Vec::new();
        push_all(&mut out, MAGIC.as_slice());
        push_le(&mut out, self.version as u64, 2);
        push_le(&mut out, self.header_size as u64, 2);
        push_le(&mut out, self.record_count as u64, 4);
        push_le(&mut out, self.data_length as u64, 4);
        push_le(&mut out, self.capture_start_ms, 8);
        push_all(&mut out, self.dongle_ip.as_slice());
        push_le(&mut out, self.dongle_port as u64, 2);
        push_le(&mut out, self.flags as u64, 2);
        push_all(&mut out, self.firmware_version.as_slice());
        proof {
            lemma_le_len(self.version as nat, 2);
            lemma_le_len(self.header_size as nat, 2);
            lemma_le_len(self.record_count as nat, 4);
            lemma_le_len(self.data_length as nat, 4);
            lemma_le_len(self.capture_start_ms as nat, 8);
            lemma_le_len(self.dongle_port as nat, 2);
            lemma_le_len(self.flags as nat, 2);
        }
        assert(out@.len() == 52);
        let mut buf: [u8; 64] = [0u8; 64];
        let mut i: usize = 0;
        while i < 52
            invariant
                i <= 52,
                out@.len() == 52,
                buf@.len() == 64,
                forall|j: int| 0 <= j < i ==> buf@[j] == out@[j],
                forall|j: int| i <= j < 64 ==> buf@[j] == 0,
            decreases 52 - i,
        {
            buf[i] = out[i];
            i = i + 1;
        }
        assert(buf@ =~= out@ + seq![0u8; 12]);
        assert(out@ + seq![0u8; 12] =~= header_bytes(*self));
        buf
    }

    /// Parse a capture header from the start of a file.
    ///
    /// Reads exactly [`HEADER_SIZE`] bytes. Returns `Ok(None)` for no data at
    /// all, and an error if the header is truncated or the magic bytes don't
    /// match.
    pub fn from_bytes(bytes: &[u8]) -> (r: Result<Option<CaptureHeader>, HeaderError>)
        ensures
            match r {
                Ok(None) => bytes@.len() == 0,
                Ok(Some(h)) => bytes@.len() >= 64 && bytes@.take(8) == MAGIC@ && holds_header(
                    bytes@,
                    h,
                ),
                Err(HeaderError::UnexpectedEof) => 0 < bytes@.len() < 64,
                Err(HeaderError::InvalidMagic) => bytes@.len() >= 64 && bytes@.take(8) != MAGIC@,
            },
    {
        if bytes.len() == 0 {
            return Ok(None);
        }
        if bytes.len() < 64 {
            return Err(HeaderError::UnexpectedEof);
        }
        let magic: [u8; 8] = MAGIC;
        let mut i: usize = 0;
        while i < 8
            invariant
                i <= 8,
                bytes@.len() >= 64,
                magic@ == MAGIC@,
                magic@.len() == 8,
                forall|j: int| 0 <= j < i ==> bytes@[j] == magic@[j],
            decreases 8 - i,
        {
            if bytes[i] != magic[i] {
                assert(bytes@.take(8)[i as int] != MAGIC@[i as int]);
                return Err(HeaderError::InvalidMagic);
            }
            i = i + 1;
        }
        assert(bytes@.take(8) =~= MAGIC@);
        proof {
            lemma_byte_ranges();
        }
        let mut dongle_ip: [u8; 4] = [0u8; 4];
        let mut k: usize = 0;
        while k < 4
            invariant
                k <= 4,
                bytes@.len() >= 64,
                dongle_ip@.len() == 4,
                forall|j: int| 0 <= j < k ==> dongle_ip@[j] == bytes@[28 + j],
            decreases 4 - k,
        {
            dongle_ip[k] = bytes[28 + k];
            k = k + 1;
        }
        assert(dongle_ip@ =~= bytes@.subrange(28, 32));
        let mut firmware_version: [u8; 16] = [0u8; 16];
        let mut m: usize = 0;
        while m < 16
            invariant
                m <= 16,
                bytes@.len() >= 64,
                firmware_version@.len() == 16,
                forall|j: int| 0 <= j < m ==> firmware_version@[j] == bytes@[36 + j],
            decreases 16 - m,
        {
            firmware_version[m] = bytes[36 + m];
            m = m + 1;
        }
        assert(firmware_version@ =~= bytes@.subrange(36, 52));
        Ok(
            Some(
                CaptureHeader {
                    version: read_le(bytes, 8, 2) as u16,
                    header_size: read_le(bytes, 10, 2) as u16,
                    record_count: read_le(bytes, 12, 4) as u32,
                    data_length: read_le(bytes, 16, 4) as u32,
                    capture_start_ms: read_le(bytes, 20, 8),
                    dongle_ip,
                    dongle_port: read_le(bytes, 32, 2) as u16,
                    flags: read_le(bytes, 34, 2) as u16,
                    firmware_version,
                },
            ),
        )
    }
}

/// The header that is written reads back with every field as it was.
pub proof fn law_header_reads_back(h: CaptureHeader, parsed: CaptureHeader)
    requires
        holds_header(header_bytes(h), parsed),
    ensures
        header_bytes(h).len() == HEADER_SIZE,
        header_bytes(h).take(8) == MAGIC@,
        same_header(parsed, h),
{
    lemma_byte_ranges();
    law_le_roundtrip(h.version as nat, 2);
    law_le_roundtrip(h.header_size as nat, 2);
    law_le_roundtrip(h.record_count as nat, 4);
    law_le_roundtrip(h.data_length as nat, 4);
    law_le_roundtrip(h.capture_start_ms as nat, 8);
    law_le_roundtrip(h.dongle_port as nat, 2);
    law_le_roundtrip(h.flags as nat, 2);
    let bytes = header_bytes(h);
    assert(bytes.take(8) =~= MAGIC@);
    assert(bytes.subrange(8, 10) =~= le_bytes(h.version as nat, 2));
    assert(bytes.subrange(10, 12) =~= le_bytes(h.header_size as nat, 2));
    assert(bytes.subrange(12, 16) =~= le_bytes(h.record_count as nat, 4));
    assert(bytes.subrange(16, 20) =~= le_bytes(h.data_length as nat, 4));
    assert(bytes.subrange(20, 28) =~= le_bytes(h.capture_start_ms as nat, 8));
    assert(bytes.subrange(28, 32) =~= h.dongle_ip@);
    assert(bytes.subrange(32, 34) =~= le_bytes(h.dongle_port as nat, 2));
    assert(bytes.subrange(34, 36) =~= le_bytes(h.flags as nat, 2));
    assert(bytes.subrange(36, 52) =~= h.firmware_version@);
}

/// A firmware version of at most 15 bytes, none of them zero, reads back.
pub proof fn law_firmware_version_reads_back(version: Seq<u8>)
    requires
        version.len() <= 15,
        !version.contains(0u8),
    ensures
        until_zero(version_field(version)) == version,
{
    assert(version.len() == 15 ==> version.take(15) =~= version);
    lemma_until_zero(version, Seq::new((16 - version.len()) as nat, |i: int| 0u8));
}

proof fn lemma_until_zero(front: Seq<u8>, back: Seq<u8>)
    requires
        !front.contains(0u8),
        back.len() > 0,
        back[0] == 0,
    ensures
        until_zero(front + back) == front,
    decreases front.len(),
{
    if front.len() == 0 {
        assert(front + back =~= back);
    } else {
        assert(front.contains(front[0]));
        assert forall|i: int| 0 <= i < front.drop_first().len() implies front.drop_first()[i]
            != 0 by {
            assert(front.contains(front[i + 1]));
        }
        lemma_until_zero(front.drop_first(), back);
        assert((front + back).drop_first() =~= front.drop_first() + back);
        assert(seq![front[0]] + front.drop_first() =~= front);
    }
}

// ---------------------------------------------------------------------------
// Records
// ---------------------------------------------------------------------------

/// A single parsed capture record.
#[derive(Debug, Clone)]
pub struct CaptureRecord {
    /// Milliseconds since capture start.
    pub timestamp_ms: u32,
    /// Record type.
    pub record_type: RecordType,
    /// Payload data (empty for Connect/Disconnect).
    pub data: Vec<u8>,
}

impl View for CaptureRecord {
    type V = (u32, RecordType, Seq<u8>);

    open spec fn view(&self) -> (u32, RecordType, Seq<u8>) {
        (self.timestamp_ms, self.record_type, self.data@)
    }
}

/// What went wrong while reading.
#[derive(Debug, Clone, Copy, PartialEq, Eq, Structural)]
pub enum ReadErrorKind {
    /// The data ends within a record.
    UnexpectedEof,
}

/// Errors that can occur while parsing capture records.
#[derive(Debug, Clone, Copy, PartialEq, Eq, Structural)]
pub enum RecordError {
    /// The data could not be read; `UnexpectedEof` indicates a truncated record.
    Io(ReadErrorKind),
    /// Invalid record type byte.
    InvalidType {
        /// Byte offset where the error occurred.
        offset: u64,
        /// The invalid type byte value.
        type_byte: u8,
    },
}

/// What a record error says.
pub open spec fn record_error_text(e: RecordError) -> Seq<char> {
    match e {
        RecordError::Io(ReadErrorKind::UnexpectedEof) => "I/O error: failed to fill whole buffer"@,
        RecordError::InvalidType { offset, type_byte } => "invalid record type 0x"@
            + lower_hex_text(seq![type_byte]) + " at offset "@ + decimal_text(offset as nat),
    }
}

impl RecordError {
    /// The message of this error.
    pub fn message(&self) -> (r: String)
        ensures
            r@ == record_error_text(*self),
    {
        match self {
            RecordError::Io(ReadErrorKind::UnexpectedEof) => {
                "I/O error: failed to fill whole buffer".to_owned()
            },
            RecordError::InvalidType { offset, type_byte } => {
                let mut out: String = "invalid record type 0x".to_owned();
                push_lower_hex(&mut out, *type_byte);
                out.push_str(" at offset ");
                push_number(&mut out, *offset);
                assert(lower_hex_text(seq![*type_byte]) =~= lower_hex_pair(*type_byte)) by {
                    assert(seq![*type_byte].drop_last() =~= Seq::empty());
                    assert(lower_hex_text(seq![*type_byte].drop_last()) =~= Seq::empty());
                }
                out
            },
        }
    }
}

/// The bytes of a record. The length field keeps the low 16 bits of the length.
pub open spec fn record_bytes(timestamp_ms: u32, record_type: RecordType, data: Seq<u8>) -> Seq<
    u8,
> {
    le_bytes(timestamp_ms as nat, 4) + seq![type_byte(record_type)] + le_bytes(data.len(), 2) + data
}

/// The length field of a record.
pub open spec fn data_length(rest: Seq<u8>) -> int {
    le_value(rest.subrange(5, 7)) as int
}

/// What the front of the remaining data reads as: nothing at its end, else one
/// record or an error.
pub open spec fn read_record(rest: Seq<u8>, offset: u64) -> Option<
    Result<(u32, RecordType, Seq<u8>), RecordError>,
> {
    if rest.len() == 0 {
        None
    } else if rest.len() < 7 {
        Some(Err(RecordError::Io(ReadErrorKind::UnexpectedEof)))
    } else {
        match type_of_byte(rest[4]) {
            None => Some(Err(RecordError::InvalidType { offset, type_byte: rest[4] })),
            Some(record_type) => if rest.len() < 7 + data_length(rest) {
                Some(Err(RecordError::Io(ReadErrorKind::UnexpectedEof)))
            } else {
                Some(
                    Ok(
                        (
                            le_value(rest.subrange(0, 4)) as u32,
                            record_type,
                            rest.subrange(7, 7 + data_length(rest)),
                        ),
                    ),
                )
            },
        }
    }
}

/// What is left of the data behind what [`read_record`] took: a truncated
/// record takes all of it, a record of an unknown type only its header.
pub open spec fn after_record(rest: Seq<u8>) -> Seq<u8> {
    if rest.len() < 7 {
        Seq::empty()
    } else if type_of_byte(rest[4]) is None {
        rest.skip(7)
    } else if rest.len() < 7 + data_length(rest) {
        Seq::empty()
    } else {
        rest.skip(7 + data_length(rest))
    }
}

/// All records of the data, or the first error.
pub open spec fn read_records(rest: Seq<u8>, offset: u64) -> Result<
    Seq<(u32, RecordType, Seq<u8>)>,
    RecordError,
>
    decreases rest.len(),
{
    match read_record(rest, offset) {
        None => Ok(Seq::empty()),
        Some(Err(e)) => Err(e),
        Some(Ok(record)) => match read_records(
            after_record(rest),
            (offset + 7 + data_length(rest)) as u64,
        ) {
            Err(e) => Err(e),
            Ok(records) => Ok(seq![record] + records),
        },
    }
}

/// Iterator over capture records in a byte buffer.
///
/// Yields each record in turn. The end of the data at a record boundary ends
/// the iteration; an error is yielded if a record is malformed.
pub struct RecordIter<'a> {
    data: &'a [u8],
    position: usize,
    offset: u64,
}

impl<'a> RecordIter<'a> {
    /// The data that has not been read yet.
    pub closed spec fn rest(&self) -> Seq<u8> {
        self.data@.skip(self.position as int)
    }

    /// The number of bytes of the records read so far.
    pub closed spec fn consumed(&self) -> u64 {
        self.offset
    }

    /// The records read so far lie within the data already read.
    pub closed spec fn well_formed(&self) -> bool {
        self.offset <= self.position <= self.data@.len()
    }

    /// Create a new record iterator over the given data.
    ///
    /// The data should start at the record data (i.e., immediately after the
    /// 64-byte file header).
    pub fn new(data: &'a [u8]) -> (r: RecordIter<'a>)
        ensures
            r.well_formed(),
            r.rest() == data@,
            r.consumed() == 0,
    {
        let iter = RecordIter { data, position: 0, offset: 0 };
        assert(data@.skip(0) =~= data@);
        iter
    }

    /// Returns the number of bytes consumed so far.
    pub fn offset(&self) -> (r: u64)
        ensures
            r == self.consumed(),
    {
        self.offset
    }

    /// Read the next record.
    pub fn next(&mut self) -> (r: Option<Result<CaptureRecord, RecordError>>)
        requires
            old(self).well_formed(),
        ensures
            final(self).well_formed(),
            match read_record(old(self).rest(), old(self).consumed()) {
                None => r is None && *final(self) == *old(self),
                Some(Err(e)) => r == Some(Err::<CaptureRecord, RecordError>(e))
                    && final(self).rest() == after_record(old(self).rest())
                    && final(self).consumed() == old(self).consumed(),
                Some(Ok(record)) => r is Some && r->0 is Ok && r->0->Ok_0@ == record
                    && final(self).rest() == after_record(old(self).rest())
                    && final(self).consumed() == old(self).consumed() + 7 + data_length(
                    old(self).rest(),
                ),
            },
    {
        let data: &[u8] = self.data;
        let total: usize = data.len();
        let start: usize = self.position;
        let ghost rest = self.rest();
        if start == total {
            return None;
        }
        if total - start < 7 {
            self.position = total;
            assert(self.rest() =~= Seq::empty());
            return Some(Err(RecordError::Io(ReadErrorKind::UnexpectedEof)));
        }
        proof {
            lemma_byte_ranges();
            assert(rest.subrange(0, 4) =~= data@.subrange(start as int, start + 4));
            assert(rest.subrange(5, 7) =~= data@.subrange(start + 5, start + 7));
        }
        let timestamp_ms: u32 = read_le(data, start, 4) as u32;
        let type_byte: u8 = data[start + 4];
        let data_len: usize = read_le(data, start + 5, 2) as usize;
        let record_type: RecordType = match RecordType::from_u8(type_byte) {
            Some(record_type) => record_type,
            None => {
                self.position = start + 7;
                assert(self.rest() =~= rest.skip(7));
                return Some(Err(RecordError::InvalidType { offset: self.offset, type_byte }));
            },
        };
        if total - start - 7 < data_len {
            self.position = total;
            assert(self.rest() =~= Seq::empty());
            return Some(Err(RecordError::Io(ReadErrorKind::UnexpectedEof)));
        }
        let from: usize = start + 7;
        let mut payload: Vec<u8> = Vec::new();
        push_all(&mut payload, slice_subrange(data, from, from + data_len));
        assert(payload@ =~= rest.subrange(7, 7 + data_len));
        self.position = from + data_len;
        self.offset = self.offset + 7 + data_len as u64;
        assert(self.rest() =~= rest.skip(7 + data_len));
        Some(Ok(CaptureRecord { timestamp_ms, record_type, data: payload }))
    }

    /// Read all remaining records; the first error ends the reading.
    pub fn collect(self) -> (r: Result<Vec<CaptureRecord>, RecordError>)
        requires
            self.well_formed(),
        ensures
            match r {
                Ok(records) => read_records(self.rest(), self.consumed()) == Ok::<
                    Seq<(u32, RecordType, Seq<u8>)>,
                    RecordError,
                >(records@.map_values(|record: CaptureRecord| record@)),
                Err(e) => read_records(self.rest(), self.consumed()) == Err::<
                    Seq<(u32, RecordType, Seq<u8>)>,
                    RecordError,
                >(e),
            },
    {
        let mut iter: RecordIter<'a> = self;
        let mut records: Vec<CaptureRecord> = Vec::new();
        assert(records@.map_values(|record: CaptureRecord| record@) =~= Seq::empty());
        proof {
            lemma_prepend_nothing(read_records(iter.rest(), iter.consumed()));
        }
        loop
            invariant
                iter.well_formed(),
                prepended(
                    records@.map_values(|record: CaptureRecord| record@),
                    read_records(iter.rest(), iter.consumed()),
                ) == read_records(self.rest(), self.consumed()),
            decreases iter.rest().len(),
        {
            let ghost rest = iter.rest();
            let ghost offset = iter.consumed();
            let ghost front = records@.map_values(|record: CaptureRecord| record@);
            match iter.next() {
                None => {
                    assert(front + Seq::empty() =~= front);
                    return Ok(records);
                },
                Some(Err(e)) => {
                    return Err(e);
                },
                Some(Ok(record)) => {
                    records.push(record);
                    proof {
                        let later = read_records(iter.rest(), iter.consumed());
                        assert(records@.map_values(|record: CaptureRecord| record@)
                            =~= front.push(record@));
                        if later is Ok {
                            assert(front + (seq![record@] + later->Ok_0) =~= front.push(record@)
                                + later->Ok_0);
                        }
                    }
                },
            }
        }
    }
}

/// Records in front of what was read behind them.
pub open spec fn prepended(
    front: Seq<(u32, RecordType, Seq<u8>)>,
    back: Result<Seq<(u32, RecordType, Seq<u8>)>, RecordError>,
) -> Result<Seq<(u32, RecordType, Seq<u8>)>, RecordError> {
    match back {
        Ok(records) => Ok(front + records),
        Err(e) => Err(e),
    }
}

proof fn lemma_prepend_nothing(back: Result<Seq<(u32, RecordType, Seq<u8>)>, RecordError>)
    ensures
        prepended(Seq::empty(), back) == back,
{
    if back is Ok {
        assert(Seq::<(u32, RecordType, Seq<u8>)>::empty() + back->Ok_0 =~= back->Ok_0);
    }
}

/// The bytes of records, one after another.
pub open spec fn records_bytes(records: Seq<(u32, RecordType, Seq<u8>)>) -> Seq<u8>
    decreases records.len(),
{
    if records.len() == 0 {
        Seq::empty()
    } else {
        records_bytes(records.drop_last()) + record_bytes(
            records.last().0,
            records.last().1,
            records.last().2,
        )
    }
}

/// Records that are written one after another read back as they were, if the
/// length of each one's data fits its length field.
pub proof fn law_records_read_back(records: Seq<(u32, RecordType, Seq<u8>)>, offset: u64)
    requires
        forall|i: int| 0 <= i < records.len() ==> (#[trigger] records[i]).2.len() < 0x1_0000,
        offset + records_bytes(records).len() <= u64::MAX,
    ensures
        read_records(records_bytes(records), offset) == Ok::<
            Seq<(u32, RecordType, Seq<u8>)>,
            RecordError,
        >(records),
{
    assert(records_bytes(records) + Seq::empty() =~= records_bytes(records));
    lemma_records_then(records, Seq::empty(), offset);
    assert(read_records(Seq::empty(), (offset + records_bytes(records).len()) as u64) == Ok::<
        Seq<(u32, RecordType, Seq<u8>)>,
        RecordError,
    >(Seq::empty()));
    assert(records + Seq::empty() =~= records);
}

proof fn lemma_record_then(
    timestamp_ms: u32,
    record_type: RecordType,
    data: Seq<u8>,
    rest: Seq<u8>,
    offset: u64,
)
    requires
        data.len() < 0x1_0000,
    ensures
        ({
            let all = record_bytes(timestamp_ms, record_type, data) + rest;
            &&& read_record(all, offset) == Some(
                Ok::<(u32, RecordType, Seq<u8>), RecordError>((timestamp_ms, record_type, data)),
            )
            &&& after_record(all) == rest
            &&& data_length(all) == data.len()
            &&& record_bytes(timestamp_ms, record_type, data).len() == 7 + data.len()
        }),
{
    let all = record_bytes(timestamp_ms, record_type, data) + rest;
    lemma_byte_ranges();
    law_le_roundtrip(timestamp_ms as nat, 4);
    law_le_roundtrip(data.len(), 2);
    assert(all.subrange(0, 4) =~= le_bytes(timestamp_ms as nat, 4));
    assert(all.subrange(5, 7) =~= le_bytes(data.len(), 2));
    assert(all.subrange(7, 7 + data.len() as int) =~= data);
    assert(all[4] == type_byte(record_type));
    assert(all.skip(7 + data.len() as int) =~= rest);
}

proof fn lemma_records_then(
    records: Seq<(u32, RecordType, Seq<u8>)>,
    rest: Seq<u8>,
    offset: u64,
)
    requires
        forall|i: int| 0 <= i < records.len() ==> (#[trigger] records[i]).2.len() < 0x1_0000,
        offset + records_bytes(records).len() <= u64::MAX,
    ensures
        read_records(records_bytes(records) + rest, offset) == prepended(
            records,
            read_records(rest, (offset + records_bytes(records).len()) as u64),
        ),
    decreases records.len(),
{
    if records.len() == 0 {
        assert(records_bytes(records) + rest =~= rest);
        assert(records =~= Seq::empty());
        lemma_prepend_nothing(read_records(rest, offset));
    } else {
        let front = records.drop_last();
        let (timestamp_ms, record_type, data) = records.last();
        let bytes = record_bytes(timestamp_ms, record_type, data);
        let middle = (offset + records_bytes(front).len()) as u64;
        assert(records.last() == records[records.len() - 1]);
        lemma_records_then(front, bytes + rest, offset);
        assert(records_bytes(records) + rest =~= records_bytes(front) + (bytes + rest));
        lemma_record_then(timestamp_ms, record_type, data, rest, middle);
        let later = read_records(rest, (middle + 7 + data.len()) as u64);
        if later is Ok {
            assert(front + (seq![records.last()] + later->Ok_0) =~= records + later->Ok_0);
        }
    }
}

/// A buffer that holds records holds one more after another record's bytes
/// have been appended, and no others.
pub proof fn law_recording_appends(
    records: Seq<(u32, RecordType, Seq<u8>)>,
    timestamp_ms: u32,
    record_type: RecordType,
    data: Seq<u8>,
)
    ensures
        records_bytes(records.push((timestamp_ms, record_type, data))) == records_bytes(records)
            + record_bytes(timestamp_ms, record_type, data),
{
    assert(records.push((timestamp_ms, record_type, data)).drop_last() =~= records);
}

// ---------------------------------------------------------------------------
// Recording
// ---------------------------------------------------------------------------

/// The traffic captured so far.
#[derive(Debug, Clone)]
pub struct CaptureBuffer {
    /// The records, one after another.
    pub bytes: Vec<u8>,
    /// Number of records captured since the buffer was last cleared.
    pub record_count: u32,
    /// Whether a record has been dropped because the buffer was full.
    pub overflow: bool,
}

impl Default for CaptureBuffer {
    fn default() -> (r: Self)
        ensures
            r.bytes@ == Seq::<u8>::empty(),
            r.record_count == 0,
            !r.overflow,
    {
        CaptureBuffer { bytes: Vec::new(), record_count: 0, overflow: false }
    }
}

impl CaptureBuffer {
    /// Record an event.
    ///
    /// A record that would take the buffer over `capture_buffer_size` is
    /// dropped, and the overflow is noted.
    pub fn record_event(
        &mut self,
        elapsed_ms: u64,
        record_type: RecordType,
        data: &[u8],
        capture_buffer_size: u32,
    )
        ensures
            ({
                let record = record_bytes(
                    (elapsed_ms % 0x1_0000_0000) as u32,
                    record_type,
                    data@,
                );
                if old(self).bytes@.len() + 7 + data@.len() > capture_buffer_size {
                    &&& final(self).bytes@ == old(self).bytes@
                    &&& final(self).record_count == old(self).record_count
                    &&& final(self).overflow
                } else {
                    &&& final(self).bytes@ == old(self).bytes@ + record
                    &&& final(self).bytes@.len() == old(self).bytes@.len() + 7 + data@.len()
                    &&& final(self).record_count == (old(self).record_count + 1) % 0x1_0000_0000
                    &&& final(self).overflow == old(self).overflow
                }
            }),
    {
        if self.bytes.len() as u128 + 7 + data.len() as u128 > capture_buffer_size as u128 {
            self.overflow = true;
            return;
        }
        let timestamp_ms: u32 = (elapsed_ms % 0x1_0000_0000) as u32;
        push_le(&mut self.bytes, timestamp_ms as u64, 4);
        self.bytes.push(record_type.to_u8());
        push_le(&mut self.bytes, data.len() as u64, 2);
        push_all(&mut self.bytes, data);
        self.record_count = self.record_count.wrapping_add(1);
        proof {
            lemma_le_len(timestamp_ms as nat, 4);
            lemma_le_len(data@.len(), 2);
            assert(self.bytes@ =~= old(self).bytes@ + record_bytes(
                timestamp_ms,
                record_type,
                data@,
            ));
        }
    }

    /// Drop everything captured so far.
    pub fn clear(&mut self)
        ensures
            final(self).bytes@ == Seq::<u8>::empty(),
            final(self).record_count == 0,
            !final(self).overflow,
    {
        self.bytes = Vec::new();
        self.record_count = 0;
        self.overflow = false;
    }

    /// Build the file header for the captured records.
    pub fn build_capture_header(
        &self,
        buffer_len: u32,
        dongle_ip: [u8; 4],
        dongle_port: u16,
        firmware_version: &str,
    ) -> (r: [u8; 64])
        ensures
            exists|h: CaptureHeader| #[trigger]
                header_bytes(h) == r@ && self.describes(
                    h,
                    buffer_len,
                    dongle_ip@,
                    dongle_port,
                    firmware_version@,
                ),
    {
        let mut header = CaptureHeader {
            version: VERSION,
            header_size: 64,
            record_count: self.record_count,
            data_length: buffer_len,
            capture_start_ms: 0,
            dongle_ip,
            dongle_port,
            flags: if self.overflow {
                FLAG_OVERFLOW
            } else {
                0
            },
            firmware_version: [0u8; 16],
        };
        header.set_firmware_version(firmware_version);
        let bytes = header.to_bytes();
        assert(self.describes(header, buffer_len, dongle_ip@, dongle_port, firmware_version@));
        assert(header_bytes(header) == bytes@);
        bytes
    }

    /// The header of a download of these records.
    pub open spec fn describes(
        &self,
        h: CaptureHeader,
        buffer_len: u32,
        dongle_ip: Seq<u8>,
        dongle_port: u16,
        firmware_version: Seq<char>,
    ) -> bool {
        &&& h.version == VERSION
        &&& h.header_size == HEADER_SIZE
        &&& h.record_count == self.record_count
        &&& h.data_length == buffer_len
        &&& h.capture_start_ms == 0
        &&& h.dongle_ip@ == dongle_ip
        &&& h.dongle_port == dongle_port
        &&& h.flags == if self.overflow {
            FLAG_OVERFLOW
        } else {
            0
        }
        &&& h.firmware_version@ == version_field(encode_utf8(firmware_version))
    }
}

/// Numbers are written least significant byte first.
pub proof fn law_low_byte_comes_first(value: nat)
    ensures
        le_bytes(value, 2) == seq![(value % 256) as u8, ((value / 256) % 256) as u8],
        le_bytes(value, 4) == seq![
            (value % 256) as u8,
            ((value / 256) % 256) as u8,
            ((value / 0x1_0000) % 256) as u8,
            ((value / 0x100_0000) % 256) as u8,
        ],
        le_bytes(value, 8) == le_bytes(value, 4) + le_bytes(value / 0x1_0000_0000, 4),
{
    reveal_with_fuel(le_bytes, 9);
    assert(value / 256 / 256 == value / 0x1_0000);
    assert(value / 256 / 256 / 256 == value / 0x100_0000);
    assert(value / 256 / 256 / 256 / 256 == value / 0x1_0000_0000);
    assert(le_bytes(value, 2) =~= seq![(value % 256) as u8, ((value / 256) % 256) as u8]);
    assert(le_bytes(value, 4) =~= seq![
        (value % 256) as u8,
        ((value / 256) % 256) as u8,
        ((value / 0x1_0000) % 256) as u8,
        ((value / 0x100_0000) % 256) as u8,
    ]);
    assert(le_bytes(value, 8) =~= le_bytes(value, 4) + le_bytes(value / 0x1_0000_0000, 4));
}

/// The places of the fields in a file header.
pub proof fn law_header_layout(h: CaptureHeader)
    ensures
        header_bytes(h).len() == 64,
        header_bytes(h).subrange(0, 8) == seq![0x54u8, 0x61, 0x63, 0x68, 0x54, 0x61, 0x6c, 0x6b],
        header_bytes(h).subrange(8, 10) == le_bytes(h.version as nat, 2),
        header_bytes(h).subrange(10, 12) == le_bytes(h.header_size as nat, 2),
        header_bytes(h).subrange(12, 16) == le_bytes(h.record_count as nat, 4),
        header_bytes(h).subrange(16, 20) == le_bytes(h.data_length as nat, 4),
        header_bytes(h).subrange(20, 28) == le_bytes(h.capture_start_ms as nat, 8),
        header_bytes(h).subrange(28, 32) == h.dongle_ip@,
        header_bytes(h).subrange(32, 34) == le_bytes(h.dongle_port as nat, 2),
        header_bytes(h).subrange(34, 36) == le_bytes(h.flags as nat, 2),
        header_bytes(h).subrange(36, 52) == h.firmware_version@,
        forall|i: int| 52 <= i < 64 ==> #[trigger] header_bytes(h)[i] == 0,
{
    lemma_le_len(h.version as nat, 2);
    lemma_le_len(h.header_size as nat, 2);
    lemma_le_len(h.record_count as nat, 4);
    lemma_le_len(h.data_length as nat, 4);
    lemma_le_len(h.capture_start_ms as nat, 8);
    lemma_le_len(h.dongle_port as nat, 2);
    lemma_le_len(h.flags as nat, 2);
    let b = header_bytes(h);
    assert(MAGIC@ =~= seq![0x54u8, 0x61, 0x63, 0x68, 0x54, 0x61, 0x6c, 0x6b]);
    assert(b.subrange(0, 8) =~= MAGIC@);
    assert(b.subrange(8, 10) =~= le_bytes(h.version as nat, 2));
    assert(b.subrange(10, 12) =~= le_bytes(h.header_size as nat, 2));
    assert(b.subrange(12, 16) =~= le_bytes(h.record_count as nat, 4));
    assert(b.subrange(16, 20) =~= le_bytes(h.data_length as nat, 4));
    assert(b.subrange(20, 28) =~= le_bytes(h.capture_start_ms as nat, 8));
    assert(b.subrange(28, 32) =~= h.dongle_ip@);
    assert(b.subrange(32, 34) =~= le_bytes(h.dongle_port as nat, 2));
    assert(b.subrange(34, 36) =~= le_bytes(h.flags as nat, 2));
    assert(b.subrange(36, 52) =~= h.firmware_version@);
}

/// The places of the parts of a record: four bytes for the time, one for the type, two
/// for the length, and then the data.
pub proof fn law_record_layout(timestamp_ms: u32, record_type: RecordType, data: Seq<u8>)
    ensures
        ({
            let b = record_bytes(timestamp_ms, record_type, data);
            &&& b.len() == 7 + data.len()
            &&& b.subrange(0, 4) == le_bytes(timestamp_ms as nat, 4)
            &&& b[4] == match record_type {
                RecordType::ClientToDongle => 0u8,
                RecordType::DongleToClient => 1,
                RecordType::Connect => 2,
                RecordType::Disconnect => 3,
            }
            &&& b.subrange(5, 7) == le_bytes(data.len(), 2)
            &&& b.skip(7) == data
        }),
{
    lemma_le_len(timestamp_ms as nat, 4);
    lemma_le_len(data.len(), 2);
    let b = record_bytes(timestamp_ms, record_type, data);
    assert(b.subrange(0, 4) =~= le_bytes(timestamp_ms as nat, 4));
    assert(b.subrange(5, 7) =~= le_bytes(data.len(), 2));
    assert(b.skip(7) =~= data);
}

/// What cannot be read is reported: data that ends within a record, and a type byte
/// above 3 with its place; the end of the data between two records is no error.
pub proof fn law_malformed_records_are_reported(rest: Seq<u8>, offset: u64)
    ensures
        read_record(rest, offset) is None <==> rest.len() == 0,
        0 < rest.len() < 7 ==> read_record(rest, offset) == Some(
            Err::<(u32, RecordType, Seq<u8>), RecordError>(
                RecordError::Io(ReadErrorKind::UnexpectedEof),
            ),
        ),
        rest.len() >= 7 && rest[4] > 3 ==> read_record(rest, offset) == Some(
            Err::<(u32, RecordType, Seq<u8>), RecordError>(
                RecordError::InvalidType { offset, type_byte: rest[4] },
            ),
        ),
        rest.len() >= 7 && rest[4] <= 3 && rest.len() < 7 + rest[5] + 256 * rest[6]
            ==> read_record(rest, offset) == Some(
            Err::<(u32, RecordType, Seq<u8>), RecordError>(
                RecordError::Io(ReadErrorKind::UnexpectedEof),
            ),
        ),
        rest.len() >= 7 && rest[4] <= 3 && rest.len() >= 7 + rest[5] + 256 * rest[6] ==> ({
            let n = rest[5] + 256 * rest[6];
            let record = read_record(rest, offset)->0->Ok_0;
            &&& read_record(rest, offset) matches Some(Ok(_))
            &&& record.0 == rest[0] + 256 * rest[1] + 0x1_0000 * rest[2] + 0x100_0000 * rest[3]
            &&& record.1 == if rest[4] == 0 {
                RecordType::ClientToDongle
            } else if rest[4] == 1 {
                RecordType::DongleToClient
            } else if rest[4] == 2 {
                RecordType::Connect
            } else {
                RecordType::Disconnect
            }
            &&& record.2 == rest.subrange(7, 7 + n)
            &&& after_record(rest) == rest.skip(7 + n)
        }),
{
    if rest.len() >= 7 {
        reveal_with_fuel(le_value, 5);
        let length = rest.subrange(5, 7);
        assert(length.drop_first().drop_first() =~= Seq::empty());
        assert(le_value(length) == rest[5] + 256 * rest[6]);
        let time = rest.subrange(0, 4);
        assert(time.drop_first().drop_first().drop_first().drop_first() =~= Seq::empty());
        assert(time.drop_first()[0] == rest[1]);
        assert(time.drop_first().drop_first()[0] == rest[2]);
        assert(time.drop_first().drop_first().drop_first()[0] == rest[3]);
        assert(le_value(time) == rest[0] + 256 * (rest[1] + 256 * (rest[2] + 256 * (rest[3]
            + 256 * 0))));
    }
}

/// A firmware version is kept up to its fifteenth byte, and zeros fill the field.
pub proof fn law_firmware_version_is_cut(version: Seq<u8>)
    ensures
        version_field(version).len() == 16,
        version_field(version)[15] == 0,
        forall|i: int|
            0 <= i < 15 ==> #[trigger] version_field(version)[i] == if i < version.len() {
                version[i]
            } else {
                0
            },
{
}

/// The header of a download tells of the records: their number and length, whether some
/// were dropped, and where they come from.
pub proof fn law_download_is_described(
    buffer: CaptureBuffer,
    h: CaptureHeader,
    buffer_len: u32,
    dongle_ip: Seq<u8>,
    dongle_port: u16,
    firmware_version: Seq<char>,
)
    requires
        buffer.describes(h, buffer_len, dongle_ip, dongle_port, firmware_version),
    ensures
        h.version == 1 && h.header_size == 64,
        h.record_count == buffer.record_count,
        h.data_length == buffer_len,
        h.capture_start_ms == 0,
        h.dongle_ip@ == dongle_ip && h.dongle_port == dongle_port,
        buffer.overflow ==> h.flags == 1,
        !buffer.overflow ==> h.flags == 0,
        forall|i: int|
            0 <= i < 15 ==> #[trigger] h.firmware_version@[i] == if i < encode_utf8(
                firmware_version,
            ).len() {
                encode_utf8(firmware_version)[i]
            } else {
                0
            },
{
    law_firmware_version_is_cut(encode_utf8(firmware_version));
}

/// The type of a record is its byte: what went to the dongle is 0, what came back 1, and
/// the ends of the connection are 2 and 3; other bytes are no type.
pub proof fn law_record_types(value: u8)
    ensures
        type_of_byte(0) == Some(RecordType::ClientToDongle),
        type_of_byte(1) == Some(RecordType::DongleToClient),
        type_of_byte(2) == Some(RecordType::Connect),
        type_of_byte(3) == Some(RecordType::Disconnect),
        value > 3 ==> type_of_byte(value) is None,
{
}

/// An error about a record names the byte that is no type and where it stands.
pub proof fn law_record_errors_name_the_place(offset: u64, type_byte: u8)
    ensures
        ({
            let text = record_error_text(RecordError::InvalidType { offset, type_byte });
            let place = decimal_text(offset as nat);
            &&& place.is_suffix_of(text)
            &&& text.subrange(22, 24) =~= lower_hex_text(seq![type_byte])
            &&& text.len() == 24 + 11 + place.len()
        }),
{
    reveal_strlit("invalid record type 0x");
    reveal_strlit(" at offset ");
    let text = record_error_text(RecordError::InvalidType { offset, type_byte });
    let place = decimal_text(offset as nat);
    assert("invalid record type 0x"@.len() == 22);
    assert(" at offset "@.len() == 11);
    assert(lower_hex_text(seq![type_byte]) =~= lower_hex_pair(type_byte)) by {
        reveal_with_fuel(lower_hex_text, 2);
        assert(seq![type_byte].drop_last() =~= Seq::<u8>::empty());
    }
    assert(text.subrange(text.len() - place.len(), text.len() as int) =~= place);
}

/// The firmware version is read up to its first zero byte, as text.
pub proof fn law_firmware_version_is_text(h: CaptureHeader, version: Seq<char>, rest: Seq<u8>)
    requires
        h.firmware_version@ == encode_utf8(version) + seq![0u8] + rest,
        !encode_utf8(version).contains(0),
    ensures
        h.is_version_text(version),
        forall|other: Seq<char>| h.is_version_text(other) ==> other == version,
{
    lemma_until_zero_stops(encode_utf8(version), rest);
    vstd::utf8::encode_utf8_valid_utf8(version);
    vstd::utf8::encode_utf8_decode_utf8(version);
}

proof fn lemma_until_zero_stops(front: Seq<u8>, rest: Seq<u8>)
    requires
        !front.contains(0),
    ensures
        until_zero(front + seq![0u8] + rest) == front,
    decreases front.len(),
{
    let all = front + seq![0u8] + rest;
    if front.len() > 0 {
        assert(front[0] != 0) by {
            assert(front.contains(front[0]));
        }
        let behind = front.drop_first();
        assert forall|k: int| 0 <= k < behind.len() implies behind[k] != 0 by {
            assert(front.contains(front[k + 1]));
        }
        assert(all.drop_first() =~= behind + seq![0u8] + rest);
        lemma_until_zero_stops(behind, rest);
        assert(until_zero(all) =~= front);
    }
}

/// Two headers are the same only if they say the same in every field.
pub proof fn law_same_headers_say_the_same(a: CaptureHeader, b: CaptureHeader)
    requires
        same_header(a, b),
    ensures
        header_bytes(a) == header_bytes(b),
        a.version == b.version && a.header_size == b.header_size,
        a.record_count == b.record_count && a.data_length == b.data_length,
        a.capture_start_ms == b.capture_start_ms,
        a.dongle_ip@ == b.dongle_ip@ && a.dongle_port == b.dongle_port,
        a.flags == b.flags && a.firmware_version@ == b.firmware_version@,
{
}

} // verus!
