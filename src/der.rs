//! A DER encoder that writes tag-length-value records into a fixed buffer.
//! Any failure taints the encoder: every later write fails too.
use vstd::prelude::*;
use crate::values::Encodable;

verus! {

/// Largest length a DER record of this encoder may declare.
pub const LENGTH_MAX: u32 = 0x0fff_ffff;

/// A DER length: at most `LENGTH_MAX`.
#[derive(Clone, Copy, Debug, PartialEq, Eq, Structural)]
pub struct Length(u32);

impl View for Length {
    type V = nat;

    closed spec fn view(&self) -> nat {
        self.0 as nat
    }
}

impl Length {
    pub closed spec fn wf(&self) -> bool {
        self.0 <= LENGTH_MAX
    }

    /// The length zero.
    pub fn zero() -> (r: Length)
        ensures
            r@ == 0,
            r.wf(),
    {
        Length(0)
    }

    /// The length `n`, or an `Overflow` error without a position when `n`
    /// exceeds `LENGTH_MAX`.
    pub fn from_usize(n: usize) -> (r: Result<Length, Error>)
        ensures
            n <= LENGTH_MAX ==> (r matches Ok(l) && l@ == n && l.wf()),
            n > LENGTH_MAX ==> r == Err::<Length, Error>((Error { kind: ErrorKind::Overflow, position: None })),
    {
        if n <= LENGTH_MAX as usize {
            Ok(Length(n as u32))
        } else {
            Err(Error::from_kind(ErrorKind::Overflow))
        }
    }

    /// The length as a `usize`.
    pub fn to_usize(&self) -> (r: usize)
        requires
            self.wf(),
        ensures
            r == self@,
    {
        self.0 as usize
    }

    /// The sum of two lengths, or an `Overflow` error when it exceeds
    /// `LENGTH_MAX`.
    pub fn checked_add(&self, other: Length) -> (r: Result<Length, Error>)
        requires
            self.wf(),
            other.wf(),
        ensures
            self@ + other@ <= LENGTH_MAX ==> (r matches Ok(l) && l@ == self@ + other@ && l.wf()),
            self@ + other@ > LENGTH_MAX ==> r == Err::<Length, Error>((Error { kind: ErrorKind::Overflow, position: None })),
    {
        let sum: u64 = self.0 as u64 + other.0 as u64;
        if sum <= LENGTH_MAX as u64 {
            Ok(Length(sum as u32))
        } else {
            Err(Error::from_kind(ErrorKind::Overflow))
        }
    }
}

/// ASN.1 tags of the values this encoder writes.
#[derive(Clone, Copy, Debug, PartialEq, Eq, Structural)]
pub enum Tag {
    Boolean,
    BitString,
    OctetString,
    Null,
    Utf8String,
    Sequence,
    PrintableString,
    Ia5String,
    UtcTime,
    GeneralizedTime,
}

impl Tag {
    pub open spec fn spec_octet(&self) -> u8 {
        match self {
            Tag::Boolean => 0x01,
            Tag::BitString => 0x03,
            Tag::OctetString => 0x04,
            Tag::Null => 0x05,
            Tag::Utf8String => 0x0c,
            Tag::Sequence => 0x30,
            Tag::PrintableString => 0x13,
            Tag::Ia5String => 0x16,
            Tag::UtcTime => 0x17,
            Tag::GeneralizedTime => 0x18,
        }
    }

    /// The identifier octet of the tag.
    pub fn octet(&self) -> (r: u8)
        ensures
            r == self.spec_octet(),
    {
        match self {
            Tag::Boolean => 0x01,
            Tag::BitString => 0x03,
            Tag::OctetString => 0x04,
            Tag::Null => 0x05,
            Tag::Utf8String => 0x0c,
            Tag::Sequence => 0x30,
            Tag::PrintableString => 0x13,
            Tag::Ia5String => 0x16,
            Tag::UtcTime => 0x17,
            Tag::GeneralizedTime => 0x18,
        }
    }
}

/// What went wrong while encoding.
#[derive(Clone, Copy, Debug, PartialEq, Eq, Structural)]
pub enum ErrorKind {
    /// Fields that do not name a calendar date and time.
    DateTime,
    /// The encoder failed earlier and is tainted.
    Failed,
    /// A record's length disagrees with what was written for it.
    Length { tag: Tag },
    /// A length exceeds `LENGTH_MAX`.
    Overflow,
    /// The buffer has no room for what is being written.
    Overlength,
    /// The position lies past the end of the buffer.
    Truncated,
    /// A value cannot be represented as the given type.
    Value { tag: Tag },
}

impl ErrorKind {
    /// This error, found at `position`.
    pub fn at(self, position: Length) -> (r: Error)
        ensures
            r == (Error { kind: self, position: Some(position) }),
    {
        Error { kind: self, position: Some(position) }
    }
}

/// An encoding error, with the position at which it was found when known.
#[derive(Clone, Copy, Debug, PartialEq, Eq, Structural)]
pub struct Error {
    pub kind: ErrorKind,
    pub position: Option<Length>,
}

impl Error {
    pub open spec fn from_kind_spec(kind: ErrorKind) -> Error {
        Error { kind: kind, position: None }
    }

    /// An error of the given kind at no particular position.
    pub fn from_kind(kind: ErrorKind) -> (r: Error)
        ensures
            r == (Error { kind: kind, position: None }),
    {
        Error { kind, position: None }
    }

    /// This error, raised inside a record that starts at `nested_position`:
    /// its position is shifted by that much, and lost when the sum exceeds
    /// `LENGTH_MAX`.
    pub fn nested(self, nested_position: Length) -> (r: Error)
        requires
            nested_position.wf(),
            self.position matches Some(p) ==> p.wf(),
        ensures
            r == nested_error(self, nested_position@),
    {
        let base = match self.position {
            Some(p) => p,
            None => Length::zero(),
        };
        proof {
            base.lemma_spec_new();
        }
        match nested_position.checked_add(base) {
            Ok(p) => {
                proof {
                    p.lemma_spec_new();
                }
                Error { kind: self.kind, position: Some(p) }
            },
            Err(_) => Error { kind: self.kind, position: None },
        }
    }

    /// The kind of the error.
    pub fn kind(&self) -> (r: ErrorKind)
        ensures
            r == self.kind,
    {
        self.kind
    }

    /// Where the error was found.
    pub fn position(&self) -> (r: Option<Length>)
        ensures
            r == self.position,
    {
        self.position
    }
}

/// The state of an encoder: its buffer (`None` once tainted by a failure)
/// and the number of bytes written so far.
pub struct EncoderView {
    pub buffer: Option<Seq<u8>>,
    pub position: nat,
}

/// The error of kind `kind` found at position `pos`.
pub open spec fn error_at(kind: ErrorKind, pos: nat) -> Error {
    Error { kind: kind, position: Some(Length::spec_new(pos)) }
}

/// What appending `data` to an encoder in state `before` returns: the
/// encoder must not be tainted, its buffer must have a representable length
/// and room for `data` after the position.
pub open spec fn append_result(before: EncoderView, data: Seq<u8>) -> Result<(), Error> {
    let pos = before.position;
    if data.len() > LENGTH_MAX {
        Err(error_at(ErrorKind::Overflow, pos))
    } else {
        match before.buffer {
            None => Err(error_at(ErrorKind::Failed, pos)),
            Some(b) => if b.len() > LENGTH_MAX {
                Err(Error { kind: ErrorKind::Overflow, position: None })
            } else if pos + data.len() > b.len() {
                Err(error_at(ErrorKind::Overlength, pos))
            } else {
                Ok(())
            },
        }
    }
}

/// The state after appending `data` to an encoder in state `before`: on
/// success `data` is written at the position, which moves past it; a
/// failure found by this call taints the encoder.
pub open spec fn append_state(before: EncoderView, data: Seq<u8>) -> EncoderView {
    let pos = before.position;
    match append_result(before, data) {
        Ok(_) => EncoderView {
            buffer: Some(
                before.buffer.unwrap().take(pos as int) + data + before.buffer.unwrap().skip(
                    (pos + data.len()) as int,
                ),
            ),
            position: pos + data.len(),
        },
        Err(e) => if e.kind == ErrorKind::Overflow && e.position.is_none() || e.kind == ErrorKind::Failed {
            before
        } else {
            EncoderView { buffer: None, position: pos }
        },
    }
}

/// An error shifted by `pos`, as `Error::nested` computes it.
pub open spec fn nested_error(e: Error, pos: nat) -> Error {
    let p = pos + match e.position {
        Some(l) => l@,
        None => 0nat,
    };
    Error { kind: e.kind, position: if p <= LENGTH_MAX { Some(Length::spec_new(p)) } else { None } }
}

/// The outcome of `Encoder::encode` for a value whose record is `data`: a
/// tainted encoder fails at once; otherwise the record is appended, and on a
/// failure the encoder is tainted and the error shifted by the position.
pub open spec fn encode_outcome(
    before: EncoderView,
    after: EncoderView,
    data: Seq<u8>,
    r: Result<(), Error>,
) -> bool {
    match before.buffer {
        None => r == Err::<(), Error>(error_at(ErrorKind::Failed, before.position)) && after == before,
        Some(_) => match append_result(before, data) {
            Ok(_) => r == Ok::<(), Error>(()) && after == append_state(before, data),
            Err(e) => r == Err::<(), Error>(nested_error(e, before.position)) && after == (EncoderView {
                buffer: None,
                position: before.position,
            }),
        },
    }
}

/// DER encoder.
pub struct Encoder {
    bytes: Option<Vec<u8>>,
    position: Length,
}

impl View for Encoder {
    type V = EncoderView;

    closed spec fn view(&self) -> EncoderView {
        EncoderView {
            buffer: match self.bytes {
                Some(v) => Some(v@),
                None => None,
            },
            position: self.position@,
        }
    }
}

impl Length {
    /// The length `n`, for `n` up to `LENGTH_MAX`.
    pub closed spec fn spec_new(n: nat) -> Length {
        Length(n as u32)
    }

    pub proof fn lemma_spec_new(self)
        requires
            self.wf(),
        ensures
            Length::spec_new(self@) == self,
            self@ <= LENGTH_MAX,
    {
    }
}

impl Encoder {
    /// The position lies within the buffer.
    pub closed spec fn wf(&self) -> bool {
        &&& self.position.wf()
        &&& match self.bytes {
            Some(v) => self.position@ <= v@.len(),
            None => true,
        }
    }

    /// Creates an encoder that writes into `bytes` from its start.
    pub fn new(bytes: Vec<u8>) -> (r: Encoder)
        ensures
            r.wf(),
            r@ == (EncoderView { buffer: Some(bytes@), position: 0 }),
    {
        Encoder { bytes: Some(bytes), position: Length::zero() }
    }

    /// Taints the encoder and returns the error `kind` at the current
    /// position.
    pub fn error<T>(&mut self, kind: ErrorKind) -> (r: Result<T, Error>)
        requires
            old(self).wf(),
        ensures
            final(self).wf(),
            final(self)@ == (EncoderView { buffer: None, position: old(self)@.position }),
            r matches Err(e) && e == error_at(kind, old(self)@.position),
    {
        self.bytes = None;
        proof {
            self.position.lemma_spec_new();
        }
        Err(kind.at(self.position))
    }

    /// Whether an earlier failure tainted the encoder.
    pub fn is_failed(&self) -> (r: bool)
        ensures
            r == self@.buffer.is_none(),
    {
        self.bytes.is_none()
    }

    /// Finishes encoding and returns the bytes written.
    pub fn finish(self) -> (r: Result<Vec<u8>, Error>)
        requires
            self.wf(),
        ensures
            (match self@.buffer {
                Some(b) => r matches Ok(v) && v@ == b.take(self@.position as int),
                None => r matches Err(e) && e == error_at(ErrorKind::Failed, self@.position),
            }),
    {
        let position = self.position;
        proof {
            position.lemma_spec_new();
        }
        match self.bytes {
            Some(mut bytes) => {
                bytes.truncate(position.to_usize());
                Ok(bytes)
            },
            None => Err(ErrorKind::Failed.at(position)),
        }
    }

    /// The size of the buffer as a length.
    fn buffer_len(&self) -> (r: Result<Length, Error>)
        requires
            self.wf(),
        ensures
            (match self@.buffer {
                None => r == Err::<Length, Error>(error_at(ErrorKind::Failed, self@.position)),
                Some(b) => if b.len() > LENGTH_MAX {
                    r == Err::<Length, Error>((Error { kind: ErrorKind::Overflow, position: None }))
                } else {
                    r matches Ok(l) && l@ == b.len() && l.wf()
                },
            }),
    {
        proof {
            self.position.lemma_spec_new();
        }
        match &self.bytes {
            Some(bytes) => Length::from_usize(bytes.len()),
            None => Err(ErrorKind::Failed.at(self.position)),
        }
    }

    /// The number of bytes left after the position.
    fn remaining_len(&self) -> (r: Result<Length, Error>)
        requires
            self.wf(),
        ensures
            (match self@.buffer {
                None => r == Err::<Length, Error>(error_at(ErrorKind::Failed, self@.position)),
                Some(b) => if b.len() > LENGTH_MAX {
                    r == Err::<Length, Error>((Error { kind: ErrorKind::Overflow, position: None }))
                } else {
                    r matches Ok(l) && l@ == b.len() - self@.position && l.wf()
                },
            }),
    {
        let total = match self.buffer_len() {
            Ok(l) => l,
            Err(e) => return Err(e),
        };
        let t = total.to_usize();
        let p = self.position.to_usize();
        if p > t {
            proof {
                self.position.lemma_spec_new();
            }
            return Err(ErrorKind::Truncated.at(self.position));
        }
        Length::from_usize(t - p)
    }

    /// Reserves the next `len` bytes of the buffer, moving the position past
    /// them, and returns where they start.
    pub fn reserve(&mut self, len: usize) -> (r: Result<usize, Error>)
        requires
            old(self).wf(),
        ensures
            final(self).wf(),
            len <= LENGTH_MAX ==> (match append_result(old(self)@, Seq::new(len as nat, |i: int| 0u8)) {
                Ok(_) => r == Ok::<usize, Error>(old(self)@.position as usize) && final(self)@.buffer
                    == old(self)@.buffer && final(self)@.position == old(self)@.position + len,
                Err(e) => r == Err::<usize, Error>(e) && final(self)@ == append_state(
                    old(self)@,
                    Seq::new(len as nat, |i: int| 0u8),
                ),
            }),
            len > LENGTH_MAX ==> r == Err::<usize, Error>(error_at(ErrorKind::Overflow, old(self)@.position))
                && final(self)@ == (EncoderView { buffer: None, position: old(self)@.position }),
    {
        let len = match Length::from_usize(len) {
            Ok(l) => l,
            Err(_) => return self.error(ErrorKind::Overflow),
        };
        let remaining = match self.remaining_len() {
            Ok(l) => l,
            Err(e) => return Err(e),
        };
        if len.to_usize() > remaining.to_usize() {
            return self.error(ErrorKind::Overlength);
        }
        let end = match self.position.checked_add(len) {
            Ok(l) => l,
            Err(e) => return self.error(e.kind),
        };
        let start = self.position.to_usize();
        self.position = end;
        Ok(start)
    }

    /// Writes `slice` at the position and moves the position past it.
    pub(crate) fn bytes(&mut self, slice: &[u8]) -> (r: Result<(), Error>)
        requires
            old(self).wf(),
        ensures
            final(self).wf(),
            r == append_result(old(self)@, slice@),
            final(self)@ == append_state(old(self)@, slice@),
    {
        let ghost before = self@;
        let start = match self.reserve(slice.len()) {
            Ok(s) => s,
            Err(e) => return Err(e),
        };
        let mut buf = match self.bytes.take() {
            Some(v) => v,
            None => Vec::new(),
        };
        let ghost b0 = buf@;
        assert(b0.len() <= usize::MAX);
        let mut i: usize = 0;
        while i < slice.len()
            invariant
                0 <= i <= slice@.len(),
                start + slice@.len() <= b0.len(),
                b0.len() <= usize::MAX,
                buf@.len() == b0.len(),
                forall|j: int| 0 <= j < start ==> buf@[j] == b0[j],
                forall|j: int| start + slice@.len() <= j < b0.len() ==> buf@[j] == b0[j],
                forall|j: int| start <= j < start + i ==> buf@[j] == slice@[j - start],
            decreases slice@.len() - i,
        {
            buf.set(start + i, slice[i]);
            i = i + 1;
        }
        self.bytes = Some(buf);
        proof {
            assert(buf@ =~= b0.take(start as int) + slice@ + b0.skip((start + slice@.len()) as int));
        }
        Ok(())
    }

    /// Writes one byte at the position and moves the position past it.
    pub(crate) fn byte(&mut self, byte: u8) -> (r: Result<(), Error>)
        requires
            old(self).wf(),
        ensures
            final(self).wf(),
            r == append_result(old(self)@, seq![byte]),
            final(self)@ == append_state(old(self)@, seq![byte]),
    {
        let one = [byte];
        proof {
            assert(one@ =~= seq![byte]);
        }
        self.bytes(one.as_slice())
    }
}

impl Encoder {
    /// Appends the record of `value`.
    pub fn encode<T: Encodable>(&mut self, value: &T) -> (r: Result<(), Error>)
        requires
            old(self).wf(),
        ensures
            final(self).wf(),
            encode_outcome(old(self)@, final(self)@, value.spec_der(), r),
    {
        if self.is_failed() {
            return self.error(ErrorKind::Failed);
        }
        match value.encode(self) {
            Ok(()) => Ok(()),
            Err(e) => {
                self.bytes = None;
                proof {
                    self.position.lemma_spec_new();
                }
                Err(e.nested(self.position))
            },
        }
    }
}

} // verus!
