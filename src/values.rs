//! DER values: their encodings as tag-length-value records, and the types
//! that hold what a record may contain.
use vstd::prelude::*;
use vstd::slice::slice_to_vec;
use vstd::string::StringSliceAdditionalSpecFns;
use crate::der::{append_result, append_state, encode_outcome, error_at, EncoderView, Encoder, Error, ErrorKind, Length, Tag, LENGTH_MAX};

verus! {

/// The DER encoding of the length `n`: one byte below `0x80`, else `0x80`
/// plus the number of big-endian bytes that follow.
pub open spec fn der_length(n: nat) -> Seq<u8> {
    if n < 0x80 {
        seq![n as u8]
    } else if n <= 0xff {
        seq![0x81u8, n as u8]
    } else if n <= 0xffff {
        seq![0x82u8, (n / 0x100) as u8, (n % 0x100) as u8]
    } else if n <= 0xff_ffff {
        seq![0x83u8, (n / 0x1_0000) as u8, ((n / 0x100) % 0x100) as u8, (n % 0x100) as u8]
    } else {
        seq![
            0x84u8,
            (n / 0x100_0000) as u8,
            ((n / 0x1_0000) % 0x100) as u8,
            ((n / 0x100) % 0x100) as u8,
            (n % 0x100) as u8,
        ]
    }
}

/// The record of tag `tag` holding `content`.
pub open spec fn tlv(tag: Tag, content: Seq<u8>) -> Seq<u8> {
    seq![tag.spec_octet()] + der_length(content.len()) + content
}

/// Builds the DER encoding of the length `n`.
pub fn length_bytes(n: usize) -> (r: Vec<u8>)
    requires
        n <= LENGTH_MAX,
    ensures
        r@ == der_length(n as nat),
{
    let mut out: Vec<u8> = Vec::new();
    if n < 0x80 {
        out.push(n as u8);
    } else if n <= 0xff {
        out.push(0x81);
        out.push(n as u8);
    } else if n <= 0xffff {
        out.push(0x82);
        out.push((n / 0x100) as u8);
        out.push((n % 0x100) as u8);
    } else if n <= 0xff_ffff {
        out.push(0x83);
        out.push((n / 0x1_0000) as u8);
        out.push(((n / 0x100) % 0x100) as u8);
        out.push((n % 0x100) as u8);
    } else {
        out.push(0x84);
        out.push((n / 0x100_0000) as u8);
        out.push(((n / 0x1_0000) % 0x100) as u8);
        out.push(((n / 0x100) % 0x100) as u8);
        out.push((n % 0x100) as u8);
    }
    proof {
        assert(out@ =~= der_length(n as nat));
    }
    out
}

/// Builds the header of a record of tag `tag` whose content has `n` bytes.
pub fn header_vec(tag: Tag, n: usize) -> (r: Vec<u8>)
    requires
        n <= LENGTH_MAX,
    ensures
        r@ == seq![tag.spec_octet()] + der_length(n as nat),
{
    let mut out: Vec<u8> = Vec::new();
    out.push(tag.octet());
    let lenbytes = length_bytes(n);
    let mut j: usize = 0;
    while j < lenbytes.len()
        invariant
            0 <= j <= lenbytes@.len(),
            out@ == seq![tag.spec_octet()] + lenbytes@.take(j as int),
        decreases lenbytes@.len() - j,
    {
        out.push(lenbytes[j]);
        proof {
            assert(lenbytes@.take(j as int + 1) =~= lenbytes@.take(j as int).push(lenbytes@[j as int]));
        }
        j = j + 1;
    }
    proof {
        assert(lenbytes@.take(lenbytes@.len() as int) =~= lenbytes@);
    }
    out
}

/// Builds the record of tag `tag` holding `content`.
pub fn tlv_vec(tag: Tag, content: &[u8]) -> (r: Vec<u8>)
    requires
        content@.len() <= LENGTH_MAX,
    ensures
        r@ == tlv(tag, content@),
{
    let n: usize = content.len();
    let mut out = header_vec(tag, n);
    let ghost head = out@;
    let mut i: usize = 0;
    while i < n
        invariant
            0 <= i <= n,
            n == content@.len(),
            out@ == head + content@.take(i as int),
        decreases n - i,
    {
        out.push(content[i]);
        proof {
            assert(content@.take(i as int + 1) =~= content@.take(i as int).push(content@[i as int]));
        }
        i = i + 1;
    }
    proof {
        assert(content@.take(n as int) =~= content@);
    }
    out
}

/// A value that can be written as a DER record.
pub trait Encodable {
    /// The record that stands for the value.
    spec fn spec_der(&self) -> Seq<u8>;

    /// The record that stands for the value, as a vector.
    fn encode_to_vec(&self) -> (r: Vec<u8>)
        ensures
            r@ == self.spec_der(),
    ;

    /// Appends the record to `encoder`.
    fn encode(&self, encoder: &mut Encoder) -> (r: Result<(), Error>)
        requires
            old(encoder).wf(),
        ensures
            final(encoder).wf(),
            r == append_result(old(encoder)@, self.spec_der()),
            final(encoder)@ == append_state(old(encoder)@, self.spec_der()),
    ;
}

impl Encodable for bool {
    open spec fn spec_der(&self) -> Seq<u8> {
        tlv(Tag::Boolean, seq![if *self { 0xffu8 } else { 0u8 }])
    }

    fn encode_to_vec(&self) -> (r: Vec<u8>) {
        let content = [if *self { 0xffu8 } else { 0u8 }];
        proof {
            assert(content@ =~= seq![if *self { 0xffu8 } else { 0u8 }]);
        }
        tlv_vec(Tag::Boolean, content.as_slice())
    }

    fn encode(&self, encoder: &mut Encoder) -> (r: Result<(), Error>) {
        let v = self.encode_to_vec();
        encoder.bytes(v.as_slice())
    }
}

/// The ASN.1 `NULL` value.
pub struct Null;

impl Encodable for Null {
    open spec fn spec_der(&self) -> Seq<u8> {
        tlv(Tag::Null, Seq::empty())
    }

    fn encode_to_vec(&self) -> (r: Vec<u8>) {
        let content: [u8; 0] = [];
        proof {
            assert(content@ =~= Seq::<u8>::empty());
        }
        tlv_vec(Tag::Null, content.as_slice())
    }

    fn encode(&self, encoder: &mut Encoder) -> (r: Result<(), Error>) {
        let v = self.encode_to_vec();
        encoder.bytes(v.as_slice())
    }
}

/// An ASN.1 `OCTET STRING`: any bytes, at most `LENGTH_MAX` of them.
pub struct OctetString {
    bytes: Vec<u8>,
}

impl View for OctetString {
    type V = Seq<u8>;

    closed spec fn view(&self) -> Seq<u8> {
        self.bytes@
    }
}

impl OctetString {
    #[verifier::type_invariant]
    spec fn inv(&self) -> bool {
        self.bytes@.len() <= LENGTH_MAX
    }

    /// The octet string holding `bytes`, or a `Length` error when there are
    /// more than `LENGTH_MAX` of them.
    pub fn new(bytes: &[u8]) -> (r: Result<OctetString, Error>)
        ensures
            bytes@.len() <= LENGTH_MAX ==> (r matches Ok(o) && o@ == bytes@),
            bytes@.len() > LENGTH_MAX ==> (r matches Err(e) && e == Error::from_kind_spec(
                ErrorKind::Length { tag: Tag::OctetString },
            )),
    {
        if bytes.len() > LENGTH_MAX as usize {
            return Err(Error::from_kind(ErrorKind::Length { tag: Tag::OctetString }));
        }
        Ok(OctetString { bytes: slice_to_vec(bytes) })
    }
}

impl Encodable for OctetString {
    open spec fn spec_der(&self) -> Seq<u8> {
        tlv(Tag::OctetString, self@)
    }

    fn encode_to_vec(&self) -> (r: Vec<u8>) {
        proof {
            use_type_invariant(self);
        }
        tlv_vec(Tag::OctetString, self.bytes.as_slice())
    }

    fn encode(&self, encoder: &mut Encoder) -> (r: Result<(), Error>) {
        let v = self.encode_to_vec();
        encoder.bytes(v.as_slice())
    }
}


/// Every byte is ASCII, and there are at most `LENGTH_MAX`.
pub open spec fn is_ia5(s: Seq<u8>) -> bool {
    s.len() <= LENGTH_MAX && forall|j: int| 0 <= j < s.len() ==> s[j] < 0x80
}

/// A byte of the `PrintableString` set: letters, digits, space and
/// `' ( ) + , - . / : = ?`.
pub open spec fn is_printable(c: u8) -> bool {
    (0x41 <= c <= 0x5a) || (0x61 <= c <= 0x7a) || (0x30 <= c <= 0x39) || c == 0x20 || (0x27 <= c
        <= 0x29) || (0x2b <= c <= 0x2f) || c == 0x3a || c == 0x3d || c == 0x3f
}

/// Every byte is of the printable set, and there are at most `LENGTH_MAX`.
pub open spec fn is_printable_string(s: Seq<u8>) -> bool {
    s.len() <= LENGTH_MAX && forall|j: int| 0 <= j < s.len() ==> is_printable(#[trigger] s[j])
}

/// An ASN.1 `IA5String`: ASCII bytes.
pub struct Ia5String {
    bytes: Vec<u8>,
}

impl View for Ia5String {
    type V = Seq<u8>;

    closed spec fn view(&self) -> Seq<u8> {
        self.bytes@
    }
}

impl Ia5String {
    #[verifier::type_invariant]
    spec fn inv(&self) -> bool {
        self.bytes@.len() <= LENGTH_MAX
    }

    /// The string of the bytes `bytes`, or a `Value` error when one of
    /// them is not ASCII or there are more than `LENGTH_MAX`.
    pub fn new(bytes: &[u8]) -> (r: Result<Ia5String, Error>)
        ensures
            is_ia5(bytes@) ==> (r matches Ok(o) && o@ == bytes@),
            !is_ia5(bytes@) ==> (r matches Err(e) && e == Error::from_kind_spec(
                ErrorKind::Value { tag: Tag::Ia5String },
            )),
    {
        if bytes.len() > LENGTH_MAX as usize {
            return Err(Error::from_kind(ErrorKind::Value { tag: Tag::Ia5String }));
        }
        let mut i: usize = 0;
        while i < bytes.len()
            invariant
                0 <= i <= bytes@.len(),
                forall|j: int| 0 <= j < i ==> bytes@[j] < 0x80,
            decreases bytes@.len() - i,
        {
            if bytes[i] >= 0x80 {
                return Err(Error::from_kind(ErrorKind::Value { tag: Tag::Ia5String }));
            }
            i = i + 1;
        }
        Ok(Ia5String { bytes: slice_to_vec(bytes) })
    }
}

impl Encodable for Ia5String {
    open spec fn spec_der(&self) -> Seq<u8> {
        tlv(Tag::Ia5String, self@)
    }

    fn encode_to_vec(&self) -> (r: Vec<u8>) {
        proof {
            use_type_invariant(self);
        }
        tlv_vec(Tag::Ia5String, self.bytes.as_slice())
    }

    fn encode(&self, encoder: &mut Encoder) -> (r: Result<(), Error>) {
        let v = self.encode_to_vec();
        encoder.bytes(v.as_slice())
    }
}

/// An ASN.1 `PrintableString`.
pub struct PrintableString {
    bytes: Vec<u8>,
}

impl View for PrintableString {
    type V = Seq<u8>;

    closed spec fn view(&self) -> Seq<u8> {
        self.bytes@
    }
}

impl PrintableString {
    #[verifier::type_invariant]
    spec fn inv(&self) -> bool {
        self.bytes@.len() <= LENGTH_MAX
    }

    /// The string of the bytes `bytes`, or a `Value` error when one of
    /// them is outside the printable set or there are more than
    /// `LENGTH_MAX`.
    pub fn new(bytes: &[u8]) -> (r: Result<PrintableString, Error>)
        ensures
            is_printable_string(bytes@) ==> (r matches Ok(o) && o@ == bytes@),
            !is_printable_string(bytes@) ==> (r matches Err(e) && e == Error::from_kind_spec(
                ErrorKind::Value { tag: Tag::PrintableString },
            )),
    {
        if bytes.len() > LENGTH_MAX as usize {
            return Err(Error::from_kind(ErrorKind::Value { tag: Tag::PrintableString }));
        }
        let mut i: usize = 0;
        while i < bytes.len()
            invariant
                0 <= i <= bytes@.len(),
                forall|j: int| 0 <= j < i ==> is_printable(#[trigger] bytes@[j]),
            decreases bytes@.len() - i,
        {
            let c = bytes[i];
            let ok = (0x41 <= c && c <= 0x5a) || (0x61 <= c && c <= 0x7a) || (0x30 <= c && c <= 0x39)
                || c == 0x20 || (0x27 <= c && c <= 0x29) || (0x2b <= c && c <= 0x2f) || c == 0x3a
                || c == 0x3d || c == 0x3f;
            if !ok {
                return Err(Error::from_kind(ErrorKind::Value { tag: Tag::PrintableString }));
            }
            i = i + 1;
        }
        Ok(PrintableString { bytes: slice_to_vec(bytes) })
    }
}

impl Encodable for PrintableString {
    open spec fn spec_der(&self) -> Seq<u8> {
        tlv(Tag::PrintableString, self@)
    }

    fn encode_to_vec(&self) -> (r: Vec<u8>) {
        proof {
            use_type_invariant(self);
        }
        tlv_vec(Tag::PrintableString, self.bytes.as_slice())
    }

    fn encode(&self, encoder: &mut Encoder) -> (r: Result<(), Error>) {
        let v = self.encode_to_vec();
        encoder.bytes(v.as_slice())
    }
}

/// An ASN.1 `UTF8String`.
pub struct Utf8String {
    bytes: Vec<u8>,
}

impl View for Utf8String {
    type V = Seq<u8>;

    closed spec fn view(&self) -> Seq<u8> {
        self.bytes@
    }
}

impl Utf8String {
    #[verifier::type_invariant]
    spec fn inv(&self) -> bool {
        self.bytes@.len() <= LENGTH_MAX
    }

    /// The string holding the UTF-8 bytes of `s`, or a `Length` error when
    /// there are more than `LENGTH_MAX`.
    pub fn new(s: &str) -> (r: Result<Utf8String, Error>)
        ensures
            s.spec_bytes().len() <= LENGTH_MAX ==> (r matches Ok(o) && o@ == s.spec_bytes()),
            s.spec_bytes().len() > LENGTH_MAX ==> (r matches Err(e) && e == Error::from_kind_spec(
                ErrorKind::Length { tag: Tag::Utf8String },
            )),
    {
        let bytes = s.as_bytes();
        if bytes.len() > LENGTH_MAX as usize {
            return Err(Error::from_kind(ErrorKind::Length { tag: Tag::Utf8String }));
        }
        Ok(Utf8String { bytes: slice_to_vec(bytes) })
    }
}

impl Encodable for Utf8String {
    open spec fn spec_der(&self) -> Seq<u8> {
        tlv(Tag::Utf8String, self@)
    }

    fn encode_to_vec(&self) -> (r: Vec<u8>) {
        proof {
            use_type_invariant(self);
        }
        tlv_vec(Tag::Utf8String, self.bytes.as_slice())
    }

    fn encode(&self, encoder: &mut Encoder) -> (r: Result<(), Error>) {
        let v = self.encode_to_vec();
        encoder.bytes(v.as_slice())
    }
}

/// An ASN.1 `BIT STRING` of whole bytes; its content starts with the count of unused bits.
pub struct BitString {
    bytes: Vec<u8>,
}

impl View for BitString {
    type V = Seq<u8>;

    closed spec fn view(&self) -> Seq<u8> {
        self.bytes@
    }
}

impl BitString {
    #[verifier::type_invariant]
    spec fn inv(&self) -> bool {
        self.bytes@.len() <= LENGTH_MAX
    }

    /// The bit string of the whole bytes `bytes`: its content is a zero
    /// count of unused bits followed by `bytes`. A `Length` error when the
    /// content would exceed `LENGTH_MAX`.
    pub fn new(bytes: &[u8]) -> (r: Result<BitString, Error>)
        ensures
            bytes@.len() < LENGTH_MAX ==> (r matches Ok(o) && o@ == seq![0u8] + bytes@),
            bytes@.len() >= LENGTH_MAX ==> (r matches Err(e) && e == Error::from_kind_spec(
                ErrorKind::Length { tag: Tag::BitString },
            )),
    {
        if bytes.len() >= LENGTH_MAX as usize {
            return Err(Error::from_kind(ErrorKind::Length { tag: Tag::BitString }));
        }
        let mut content: Vec<u8> = Vec::new();
        content.push(0u8);
        let mut i: usize = 0;
        while i < bytes.len()
            invariant
                0 <= i <= bytes@.len(),
                content@ == seq![0u8] + bytes@.take(i as int),
            decreases bytes@.len() - i,
        {
            content.push(bytes[i]);
            proof {
                assert(bytes@.take(i as int + 1) =~= bytes@.take(i as int).push(bytes@[i as int]));
            }
            i = i + 1;
        }
        proof {
            assert(bytes@.take(bytes@.len() as int) =~= bytes@);
        }
        Ok(BitString { bytes: content })
    }
}

impl Encodable for BitString {
    open spec fn spec_der(&self) -> Seq<u8> {
        tlv(Tag::BitString, self@)
    }

    fn encode_to_vec(&self) -> (r: Vec<u8>) {
        proof {
            use_type_invariant(self);
        }
        tlv_vec(Tag::BitString, self.bytes.as_slice())
    }

    fn encode(&self, encoder: &mut Encoder) -> (r: Result<(), Error>) {
        let v = self.encode_to_vec();
        encoder.bytes(v.as_slice())
    }
}


impl Encoder {
    /// Appends an ASN.1 `NULL`.
    pub fn null(&mut self) -> (r: Result<(), Error>)
        requires
            old(self).wf(),
        ensures
            final(self).wf(),
            encode_outcome(old(self)@, final(self)@, tlv(Tag::Null, Seq::empty()), r),
    {
        self.encode(&Null)
    }

    /// Appends `value` as an ASN.1 `OCTET STRING`.
    pub fn octet_string(&mut self, value: &[u8]) -> (r: Result<(), Error>)
        requires
            old(self).wf(),
        ensures
            final(self).wf(),
            value@.len() <= LENGTH_MAX ==> encode_outcome(old(self)@, final(self)@, tlv(Tag::OctetString, value@), r),
            !(value@.len() <= LENGTH_MAX) ==> r == Err::<(), Error>(
                error_at(ErrorKind::Value { tag: Tag::OctetString }, old(self)@.position),
            ) && final(self)@ == (EncoderView { buffer: None, position: old(self)@.position }),
    {
        match OctetString::new(value) {
            Ok(v) => self.encode(&v),
            Err(_) => self.error(ErrorKind::Value { tag: Tag::OctetString }),
        }
    }

    /// Appends `value` as an ASN.1 `IA5String`.
    pub fn ia5_string(&mut self, value: &[u8]) -> (r: Result<(), Error>)
        requires
            old(self).wf(),
        ensures
            final(self).wf(),
            is_ia5(value@) ==> encode_outcome(old(self)@, final(self)@, tlv(Tag::Ia5String, value@), r),
            !(is_ia5(value@)) ==> r == Err::<(), Error>(
                error_at(ErrorKind::Value { tag: Tag::Ia5String }, old(self)@.position),
            ) && final(self)@ == (EncoderView { buffer: None, position: old(self)@.position }),
    {
        match Ia5String::new(value) {
            Ok(v) => self.encode(&v),
            Err(_) => self.error(ErrorKind::Value { tag: Tag::Ia5String }),
        }
    }

    /// Appends `value` as an ASN.1 `PrintableString`.
    pub fn printable_string(&mut self, value: &[u8]) -> (r: Result<(), Error>)
        requires
            old(self).wf(),
        ensures
            final(self).wf(),
            is_printable_string(value@) ==> encode_outcome(old(self)@, final(self)@, tlv(Tag::PrintableString, value@), r),
            !(is_printable_string(value@)) ==> r == Err::<(), Error>(
                error_at(ErrorKind::Value { tag: Tag::PrintableString }, old(self)@.position),
            ) && final(self)@ == (EncoderView { buffer: None, position: old(self)@.position }),
    {
        match PrintableString::new(value) {
            Ok(v) => self.encode(&v),
            Err(_) => self.error(ErrorKind::Value { tag: Tag::PrintableString }),
        }
    }

    /// Appends `value` as an ASN.1 `UTF8String`.
    pub fn utf8_string(&mut self, value: &str) -> (r: Result<(), Error>)
        requires
            old(self).wf(),
        ensures
            final(self).wf(),
            value.spec_bytes().len() <= LENGTH_MAX ==> encode_outcome(old(self)@, final(self)@, tlv(Tag::Utf8String, value.spec_bytes()), r),
            !(value.spec_bytes().len() <= LENGTH_MAX) ==> r == Err::<(), Error>(
                error_at(ErrorKind::Value { tag: Tag::Utf8String }, old(self)@.position),
            ) && final(self)@ == (EncoderView { buffer: None, position: old(self)@.position }),
    {
        match Utf8String::new(value) {
            Ok(v) => self.encode(&v),
            Err(_) => self.error(ErrorKind::Value { tag: Tag::Utf8String }),
        }
    }

    /// Appends the whole bytes `value` as an ASN.1 `BIT STRING`.
    pub fn bit_string(&mut self, value: &[u8]) -> (r: Result<(), Error>)
        requires
            old(self).wf(),
        ensures
            final(self).wf(),
            value@.len() < LENGTH_MAX ==> encode_outcome(old(self)@, final(self)@, tlv(Tag::BitString, seq![0u8] + value@), r),
            !(value@.len() < LENGTH_MAX) ==> r == Err::<(), Error>(
                error_at(ErrorKind::Value { tag: Tag::BitString }, old(self)@.position),
            ) && final(self)@ == (EncoderView { buffer: None, position: old(self)@.position }),
    {
        match BitString::new(value) {
            Ok(v) => self.encode(&v),
            Err(_) => self.error(ErrorKind::Value { tag: Tag::BitString }),
        }
    }
}


/// The records of `items`, one after another.
pub open spec fn concat_der<T: Encodable>(items: Seq<T>) -> Seq<u8>
    decreases items.len(),
{
    if items.len() == 0 {
        Seq::empty()
    } else {
        concat_der(items.drop_last()) + items.last().spec_der()
    }
}

/// The header of a `SEQUENCE` whose content has `n` bytes.
pub open spec fn sequence_header(n: nat) -> Seq<u8> {
    seq![Tag::Sequence.spec_octet()] + der_length(n)
}

impl Encoder {
    /// Appends an ASN.1 `SEQUENCE` of the records of `items`: first its
    /// header, then the records. An `Overflow` error, before anything is
    /// written, when their total length exceeds `LENGTH_MAX`.
    pub fn sequence<T: Encodable>(&mut self, items: &[T]) -> (r: Result<(), Error>)
        requires
            old(self).wf(),
        ensures
            final(self).wf(),
            concat_der(items@).len() > LENGTH_MAX ==> r == Err::<(), Error>(
                Error::from_kind_spec(ErrorKind::Overflow),
            ) && final(self)@ == old(self)@,
            concat_der(items@).len() <= LENGTH_MAX ==> (match append_result(
                old(self)@,
                sequence_header(concat_der(items@).len()),
            ) {
                Err(e) => r == Err::<(), Error>(e) && final(self)@ == append_state(
                    old(self)@,
                    sequence_header(concat_der(items@).len()),
                ),
                Ok(_) => r == append_result(
                    append_state(old(self)@, sequence_header(concat_der(items@).len())),
                    concat_der(items@),
                ) && final(self)@ == append_state(
                    append_state(old(self)@, sequence_header(concat_der(items@).len())),
                    concat_der(items@),
                ),
            }),
    {
        let mut content: Vec<u8> = Vec::new();
        let mut i: usize = 0;
        while i < items.len()
            invariant
                0 <= i <= items@.len(),
                content@ == concat_der(items@.take(i as int)),
            decreases items@.len() - i,
        {
            let mut rec = items[i].encode_to_vec();
            content.append(&mut rec);
            proof {
                assert(items@.take(i as int + 1).drop_last() =~= items@.take(i as int));
            }
            i = i + 1;
        }
        proof {
            assert(items@.take(items@.len() as int) =~= items@);
        }
        if content.len() > LENGTH_MAX as usize {
            return Err(Error::from_kind(ErrorKind::Overflow));
        }
        let head = header_vec(Tag::Sequence, content.len());
        match self.bytes(head.as_slice()) {
            Ok(()) => {},
            Err(e) => return Err(e),
        }
        self.bytes(content.as_slice())
    }
}

} // verus!
