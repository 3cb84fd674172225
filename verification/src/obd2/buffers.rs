//! Small byte buffers that stay on the stack for messages of the usual size.
//!
//! Each type owns a `SmallVec` of one inline capacity. Its view is what the
//! `SmallVec` holds, in order.

use smallvec::SmallVec;
use vstd::prelude::*;

verus! {

// ---------------------------------------------------------------------------
// Wire buffers
// ---------------------------------------------------------------------------

/// A command or an answer as it goes over the wire (ASCII). Sixteen bytes cover
/// a command for six PIDs.
#[verifier::external_body]
pub struct Obd2Buffer {
    inner: SmallVec<[u8; 16]>,
}

/// The bytes in a wire buffer.
pub uninterp spec fn wire_bytes(buffer: Obd2Buffer) -> Seq<u8>;

impl View for Obd2Buffer {
    type V = Seq<u8>;

    open spec fn view(&self) -> Seq<u8> {
        wire_bytes(*self)
    }
}

impl Obd2Buffer {
    /// `SmallVec::new`: a buffer with nothing in it.
    #[verifier::external_body]
    pub(crate) fn new() -> (r: Self)
        ensures
            wire_bytes(r) == Seq::<u8>::empty(),
    {
        Obd2Buffer { inner: SmallVec::new() }
    }

    /// `SmallVec::push` appends one byte.
    #[verifier::external_body]
    pub(crate) fn push(&mut self, byte: u8)
        ensures
            wire_bytes(*final(self)) == wire_bytes(*old(self)).push(byte),
    {
        self.inner.push(byte);
    }

    /// `SmallVec::extend_from_slice` appends the bytes of a slice.
    #[verifier::external_body]
    pub(crate) fn extend_from_slice(&mut self, bytes: &[u8])
        ensures
            wire_bytes(*final(self)) == wire_bytes(*old(self)) + bytes@,
    {
        self.inner.extend_from_slice(bytes);
    }

    /// `SmallVec::as_slice`: the bytes in the buffer.
    #[verifier::external_body]
    pub(crate) fn as_slice(&self) -> (r: &[u8])
        ensures
            r@ == wire_bytes(*self),
    {
        self.inner.as_slice()
    }

    /// A buffer that holds a copy of the given bytes.
    pub fn of(bytes: &[u8]) -> (r: Self)
        ensures
            r@ == bytes@,
    {
        let mut buffer = Obd2Buffer::new();
        buffer.extend_from_slice(bytes);
        assert(buffer@ =~= bytes@);
        buffer
    }

    /// The bytes in the buffer.
    pub fn bytes(&self) -> (r: &[u8])
        ensures
            r@ == self@,
    {
        self.as_slice()
    }

    /// A second buffer with the same bytes.
    pub fn duplicate(&self) -> (r: Self)
        ensures
            r@ == self@,
    {
        Obd2Buffer::of(self.as_slice())
    }
}

// ---------------------------------------------------------------------------
// PID data
// ---------------------------------------------------------------------------

/// A PID of service 01.
pub type Pid = u8;

/// The data bytes of one ECU's answer (without service byte and PID). Eight
/// bytes cover every PID of service 01.
#[verifier::external_body]
pub struct PidData {
    inner: SmallVec<[u8; 8]>,
}

/// PIDs that are asked for in one command.
pub type PidGroup = PidData;

/// The bytes in a PID buffer.
pub uninterp spec fn pid_bytes(buffer: PidData) -> Seq<u8>;

impl View for PidData {
    type V = Seq<u8>;

    open spec fn view(&self) -> Seq<u8> {
        pid_bytes(*self)
    }
}

impl PidData {
    /// `SmallVec::new`: a buffer with nothing in it.
    #[verifier::external_body]
    pub(crate) fn new() -> (r: Self)
        ensures
            pid_bytes(r) == Seq::<u8>::empty(),
    {
        PidData { inner: SmallVec::new() }
    }

    /// `SmallVec::push` appends one byte.
    #[verifier::external_body]
    pub(crate) fn push(&mut self, byte: u8)
        ensures
            pid_bytes(*final(self)) == pid_bytes(*old(self)).push(byte),
    {
        self.inner.push(byte);
    }

    /// `SmallVec::from_slice`: a buffer that holds a copy of the given bytes.
    #[verifier::external_body]
    pub(crate) fn from_slice(bytes: &[u8]) -> (r: Self)
        ensures
            pid_bytes(r) == bytes@,
    {
        PidData { inner: SmallVec::from_slice(bytes) }
    }

    /// `SmallVec::as_slice`: the bytes in the buffer.
    #[verifier::external_body]
    pub(crate) fn as_slice(&self) -> (r: &[u8])
        ensures
            r@ == pid_bytes(*self),
    {
        self.inner.as_slice()
    }

    /// A buffer that holds a copy of the given bytes.
    pub fn of(bytes: &[u8]) -> (r: Self)
        ensures
            r@ == bytes@,
    {
        PidData::from_slice(bytes)
    }

    /// The bytes in the buffer.
    pub fn bytes(&self) -> (r: &[u8])
        ensures
            r@ == self@,
    {
        self.as_slice()
    }
}

// ---------------------------------------------------------------------------
// Cached answers
// ---------------------------------------------------------------------------

/// A cached answer to one PID: the data of each ECU that answered, in the order
/// of arrival. Mostly there is exactly one.
#[verifier::external_body]
pub struct CachedResponse {
    inner: SmallVec<[PidData; 1]>,
}

/// The data of each ECU in a cached answer.
pub uninterp spec fn cached_data(response: CachedResponse) -> Seq<Seq<u8>>;

impl View for CachedResponse {
    type V = Seq<Seq<u8>>;

    open spec fn view(&self) -> Seq<Seq<u8>> {
        cached_data(*self)
    }
}

impl CachedResponse {
    /// `SmallVec::new`: an answer without any ECU.
    #[verifier::external_body]
    pub(crate) fn empty() -> (r: Self)
        ensures
            cached_data(r) == Seq::<Seq<u8>>::empty(),
    {
        CachedResponse { inner: SmallVec::new() }
    }

    /// `SmallVec::push` appends one ECU's data.
    #[verifier::external_body]
    pub(crate) fn push(&mut self, data: PidData)
        ensures
            cached_data(*final(self)) == cached_data(*old(self)).push(pid_bytes(data)),
    {
        self.inner.push(data);
    }

    /// `SmallVec::as_slice`: the ECUs' data, one element each.
    #[verifier::external_body]
    pub(crate) fn as_slice(&self) -> (r: &[PidData])
        ensures
            r@.len() == cached_data(*self).len(),
            forall|i: int|
                0 <= i < r@.len() ==> pid_bytes(#[trigger] r@[i]) == cached_data(*self)[i],
    {
        self.inner.as_slice()
    }

    /// An answer without any ECU.
    pub fn new() -> (r: Self)
        ensures
            r@ == Seq::<Seq<u8>>::empty(),
    {
        CachedResponse::empty()
    }

    /// Append one ECU's data.
    pub fn add_ecu(&mut self, data: &[u8])
        ensures
            final(self)@ == old(self)@.push(data@),
    {
        self.push(PidData::from_slice(data));
    }

    /// The ECUs' data, one element each.
    pub fn ecus(&self) -> (r: &[PidData])
        ensures
            r@.len() == self@.len(),
            forall|i: int| 0 <= i < r@.len() ==> (#[trigger] r@[i])@ == self@[i],
    {
        self.as_slice()
    }

    /// A second answer with the same data.
    pub fn duplicate(&self) -> (r: Self)
        ensures
            r@ == self@,
    {
        let ecus = self.as_slice();
        let mut copy = CachedResponse::empty();
        let mut i: usize = 0;
        while i < ecus.len()
            invariant
                i <= ecus@.len() == self@.len(),
                forall|j: int| 0 <= j < ecus@.len() ==> pid_bytes(#[trigger] ecus@[j]) == self@[j],
                copy@ == self@.take(i as int),
            decreases ecus@.len() - i,
        {
            copy.push(PidData::from_slice(ecus[i].as_slice()));
            assert(self@.take(i + 1) =~= self@.take(i as int).push(self@[i as int]));
            i = i + 1;
        }
        assert(self@.take(i as int) =~= self@);
        copy
    }
}

} // verus!
