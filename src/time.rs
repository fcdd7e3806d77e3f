//! Calendar date-times and the ASN.1 time values built on them.
use vstd::prelude::*;
use crate::der::{encode_outcome, error_at, Encoder, EncoderView, Error, ErrorKind, Tag};
use crate::values::{tlv, tlv_vec, Encodable};

verus! {

/// Whether `y` is a leap year of the Gregorian calendar.
pub open spec fn is_leap(y: int) -> bool {
    (y % 4 == 0 && y % 100 != 0) || y % 400 == 0
}

/// Number of days of month `m` (1 to 12) of year `y`.
pub open spec fn days_in_month(y: int, m: int) -> int {
    if m == 2 {
        if is_leap(y) { 29 } else { 28 }
    } else if m == 4 || m == 6 || m == 9 || m == 11 {
        30
    } else {
        31
    }
}

/// A valid calendar date and time of day, to the second.
pub open spec fn valid_date_time(year: int, month: int, day: int, hour: int, minute: int, second: int) -> bool {
    &&& 0 <= year <= 9999
    &&& 1 <= month <= 12
    &&& 1 <= day <= days_in_month(year, month)
    &&& 0 <= hour < 24
    &&& 0 <= minute < 60
    &&& 0 <= second < 60
}

/// A date and time of day in UTC, to the second, years 0 to 9999.
#[derive(Clone, Copy, Debug, PartialEq, Eq, Structural)]
pub struct DateTime {
    year: u16,
    month: u8,
    day: u8,
    hour: u8,
    minute: u8,
    second: u8,
}

/// The fields of a date-time.
pub struct DateTimeView {
    pub year: int,
    pub month: int,
    pub day: int,
    pub hour: int,
    pub minute: int,
    pub second: int,
}

impl View for DateTime {
    type V = DateTimeView;

    closed spec fn view(&self) -> DateTimeView {
        DateTimeView {
            year: self.year as int,
            month: self.month as int,
            day: self.day as int,
            hour: self.hour as int,
            minute: self.minute as int,
            second: self.second as int,
        }
    }
}

impl DateTime {
    #[verifier::type_invariant]
    spec fn inv(&self) -> bool {
        valid_date_time(
            self.year as int,
            self.month as int,
            self.day as int,
            self.hour as int,
            self.minute as int,
            self.second as int,
        )
    }

    /// The date-time of the given fields, or a `DateTime` error when they
    /// do not name one.
    pub fn new(year: u16, month: u8, day: u8, hour: u8, minute: u8, second: u8) -> (r: Result<DateTime, Error>)
        ensures
            valid_date_time(year as int, month as int, day as int, hour as int, minute as int, second as int)
                ==> (r matches Ok(d) && d@ == (DateTimeView {
                year: year as int,
                month: month as int,
                day: day as int,
                hour: hour as int,
                minute: minute as int,
                second: second as int,
            })),
            !valid_date_time(year as int, month as int, day as int, hour as int, minute as int, second as int)
                ==> r == Err::<DateTime, Error>(Error::from_kind_spec(ErrorKind::DateTime)),
    {
        if year > 9999 || month < 1 || month > 12 || hour >= 24 || minute >= 60 || second >= 60 {
            return Err(Error::from_kind(ErrorKind::DateTime));
        }
        let leap: bool = (year % 4 == 0 && year % 100 != 0) || year % 400 == 0;
        let days: u8 = if month == 2 {
            if leap { 29 } else { 28 }
        } else if month == 4 || month == 6 || month == 9 || month == 11 {
            30
        } else {
            31
        };
        if day < 1 || day > days {
            return Err(Error::from_kind(ErrorKind::DateTime));
        }
        Ok(DateTime { year, month, day, hour, minute, second })
    }
}

/// The two decimal digits of `v` (below 100), in ASCII.
pub open spec fn two_digits(v: int) -> Seq<u8> {
    seq![(0x30 + v / 10) as u8, (0x30 + v % 10) as u8]
}

/// The digits of month, day, hour, minute and second, then `Z`.
pub open spec fn time_tail(d: DateTimeView) -> Seq<u8> {
    two_digits(d.month) + two_digits(d.day) + two_digits(d.hour) + two_digits(d.minute) + two_digits(
        d.second,
    ) + seq![0x5au8]
}

/// `YYMMDDHHMMSSZ`.
pub open spec fn utc_content(d: DateTimeView) -> Seq<u8> {
    two_digits(d.year % 100) + time_tail(d)
}

/// `YYYYMMDDHHMMSSZ`.
pub open spec fn generalized_content(d: DateTimeView) -> Seq<u8> {
    two_digits(d.year / 100) + two_digits(d.year % 100) + time_tail(d)
}

fn push_two_digits(out: &mut Vec<u8>, v: u16)
    requires
        v < 100,
    ensures
        final(out)@ == old(out)@ + two_digits(v as int),
{
    out.push(0x30 + (v / 10) as u8);
    out.push(0x30 + (v % 10) as u8);
    proof {
        assert(final(out)@ =~= old(out)@ + two_digits(v as int));
    }
}

fn push_time_tail(out: &mut Vec<u8>, d: &DateTime)
    ensures
        final(out)@ == old(out)@ + time_tail(d@),
{
    proof {
        use_type_invariant(d);
    }
    push_two_digits(out, d.month as u16);
    push_two_digits(out, d.day as u16);
    push_two_digits(out, d.hour as u16);
    push_two_digits(out, d.minute as u16);
    push_two_digits(out, d.second as u16);
    out.push(0x5a);
    proof {
        assert(final(out)@ =~= old(out)@ + time_tail(d@));
    }
}

/// An ASN.1 `UTCTime`: a date-time of the years 1950 to 2049, whose
/// century the encoding leaves out.
#[derive(Clone, Copy, Debug, PartialEq, Eq, Structural)]
pub struct UtcTime {
    date_time: DateTime,
}

impl View for UtcTime {
    type V = DateTimeView;

    closed spec fn view(&self) -> DateTimeView {
        self.date_time@
    }
}

impl UtcTime {
    /// The `UTCTime` of `date_time`, or a `Value` error outside the years
    /// 1950 to 2049.
    pub fn new(date_time: DateTime) -> (r: Result<UtcTime, Error>)
        ensures
            1950 <= date_time@.year <= 2049 ==> (r matches Ok(t) && t@ == date_time@),
            !(1950 <= date_time@.year <= 2049) ==> r == Err::<UtcTime, Error>(
                Error::from_kind_spec(ErrorKind::Value { tag: Tag::UtcTime }),
            ),
    {
        if date_time.year < 1950 || date_time.year > 2049 {
            return Err(Error::from_kind(ErrorKind::Value { tag: Tag::UtcTime }));
        }
        Ok(UtcTime { date_time })
    }
}

impl Encodable for UtcTime {
    open spec fn spec_der(&self) -> Seq<u8> {
        tlv(Tag::UtcTime, utc_content(self@))
    }

    fn encode_to_vec(&self) -> (r: Vec<u8>) {
        proof {
            use_type_invariant(&self.date_time);
        }
        let mut content: Vec<u8> = Vec::new();
        push_two_digits(&mut content, self.date_time.year % 100);
        push_time_tail(&mut content, &self.date_time);
        proof {
            assert(content@ =~= utc_content(self@));
        }
        tlv_vec(Tag::UtcTime, content.as_slice())
    }

    fn encode(&self, encoder: &mut Encoder) -> (r: Result<(), Error>) {
        let v = self.encode_to_vec();
        encoder.bytes(v.as_slice())
    }
}

/// An ASN.1 `GeneralizedTime`: a date-time with a four-digit year.
#[derive(Clone, Copy, Debug, PartialEq, Eq, Structural)]
pub struct GeneralizedTime {
    date_time: DateTime,
}

impl View for GeneralizedTime {
    type V = DateTimeView;

    closed spec fn view(&self) -> DateTimeView {
        self.date_time@
    }
}

impl GeneralizedTime {
    /// The `GeneralizedTime` of `date_time`.
    pub fn new(date_time: DateTime) -> (r: GeneralizedTime)
        ensures
            r@ == date_time@,
    {
        GeneralizedTime { date_time }
    }
}

impl Encodable for GeneralizedTime {
    open spec fn spec_der(&self) -> Seq<u8> {
        tlv(Tag::GeneralizedTime, generalized_content(self@))
    }

    fn encode_to_vec(&self) -> (r: Vec<u8>) {
        proof {
            use_type_invariant(&self.date_time);
        }
        let mut content: Vec<u8> = Vec::new();
        push_two_digits(&mut content, self.date_time.year / 100);
        push_two_digits(&mut content, self.date_time.year % 100);
        push_time_tail(&mut content, &self.date_time);
        proof {
            assert(content@ =~= generalized_content(self@));
        }
        tlv_vec(Tag::GeneralizedTime, content.as_slice())
    }

    fn encode(&self, encoder: &mut Encoder) -> (r: Result<(), Error>) {
        let v = self.encode_to_vec();
        encoder.bytes(v.as_slice())
    }
}

impl Encoder {
    /// Appends `value` as an ASN.1 `UTCTime`; a `Value` error, which taints
    /// the encoder, outside the years 1950 to 2049.
    pub fn utc_time(&mut self, value: DateTime) -> (r: Result<(), Error>)
        requires
            old(self).wf(),
        ensures
            final(self).wf(),
            1950 <= value@.year <= 2049 ==> encode_outcome(
                old(self)@,
                final(self)@,
                tlv(Tag::UtcTime, utc_content(value@)),
                r,
            ),
            !(1950 <= value@.year <= 2049) ==> r == Err::<(), Error>(
                error_at(ErrorKind::Value { tag: Tag::UtcTime }, old(self)@.position),
            ) && final(self)@ == (EncoderView { buffer: None, position: old(self)@.position }),
    {
        match UtcTime::new(value) {
            Ok(v) => self.encode(&v),
            Err(_) => self.error(ErrorKind::Value { tag: Tag::UtcTime }),
        }
    }

    /// Appends `value` as an ASN.1 `GeneralizedTime`.
    pub fn generalized_time(&mut self, value: DateTime) -> (r: Result<(), Error>)
        requires
            old(self).wf(),
        ensures
            final(self).wf(),
            encode_outcome(
                old(self)@,
                final(self)@,
                tlv(Tag::GeneralizedTime, generalized_content(value@)),
                r,
            ),
    {
        self.encode(&GeneralizedTime::new(value))
    }
}

} // verus!
