//! The CLEF event that a message is mapped to, and its timestamp.
use std::time::Duration;
use std::time::UNIX_EPOCH;
use vstd::arithmetic::div_mod::lemma_basic_div;
use vstd::arithmetic::div_mod::lemma_div_denominator;
use vstd::arithmetic::div_mod::lemma_fundamental_div_mod;
use vstd::arithmetic::power::lemma_pow0;
use vstd::arithmetic::power::lemma_pow1;
use vstd::arithmetic::power::lemma_pow_adds;
use vstd::arithmetic::power::lemma_pow_increases;
use vstd::arithmetic::power::lemma_pow_positive;
use vstd::arithmetic::power::pow;
use vstd::prelude::*;
use vstd::string::*;

use crate::clock::since_epoch;
use crate::process::json::distinct_names;
use crate::process::json::json_object;
use crate::process::json::quote;
use crate::process::json::json_string;
use crate::process::json::json_text;
use crate::process::json::pairs;
use crate::process::json::parse_object;
use crate::process::json::Fields;
use crate::process::json::Value;
use crate::process::json::ValueView;
use crate::process::str::same_text;
use crate::process::str::text_view;
use crate::process::str::Str;

verus! {

/// The seconds since the Unix epoch at which the year 10000 begins. RFC 3339
/// writes the instants before it.
pub const MAX_SECS: u64 = 253_402_300_800;

/// Nanoseconds in a second.
pub const NANOS_PER_SEC: u32 = 1_000_000_000;

/// A decimal number: the mantissa, with the point `scale` digits from its
/// right end, and a sign.
#[derive(Debug, Clone, Copy, PartialEq, Eq, Structural)]
pub struct Decimal {
    pub negative: bool,
    pub mantissa: u128,
    pub scale: u32,
}

/// The whole nanoseconds in a decimal number of seconds, the sign left aside:
/// the mantissa with the point moved nine digits to the right, cut off at the
/// point.
pub open spec fn decimal_nanos(d: Decimal) -> nat {
    if d.scale >= 9 {
        (d.mantissa as int / pow(10, (d.scale - 9) as nat)) as nat
    } else {
        (d.mantissa as int * pow(10, (9 - d.scale) as nat)) as nat
    }
}

/// The instant that lies a decimal number of seconds after the Unix epoch, as
/// seconds and nanoseconds: the epoch itself for a negative number, and none
/// for a number that leads past the year 9999.
pub open spec fn from_decimal_spec(d: Decimal) -> Option<(u64, u32)> {
    if d.negative {
        Some((0u64, 0u32))
    } else {
        let total = decimal_nanos(d);
        if total / (NANOS_PER_SEC as nat) < MAX_SECS {
            Some(((total / (NANOS_PER_SEC as nat)) as u64, (total % (NANOS_PER_SEC as nat)) as u32))
        } else {
            None
        }
    }
}

/// The nanoseconds of a decimal are within one nanosecond of its value: they
/// are not above it, and one more would be.
pub proof fn lemma_decimal_nanos_is_floor(d: Decimal)
    ensures
        decimal_nanos(d) * pow(10, d.scale as nat) <= d.mantissa * pow(10, 9),
        d.mantissa * pow(10, 9) < (decimal_nanos(d) + 1) * pow(10, d.scale as nat),
{
    let m = d.mantissa as int;
    let s = d.scale as nat;
    lemma_pow_positive(10, s);
    if d.scale >= 9 {
        let e = (s - 9) as nat;
        let p = pow(10, e);
        lemma_pow_positive(10, e);
        lemma_pow_positive(10, 9);
        lemma_pow_adds(10, e, 9);
        assert(pow(10, s) == p * pow(10, 9));
        lemma_fundamental_div_mod(m, p);
        let t = m / p;
        let r = m % p;
        assert(m == p * t + r);
        assert(0 <= r < p);
        let n = pow(10, 9);
        assert(t * (p * n) <= m * n && m * n < (t + 1) * (p * n)) by (nonlinear_arith)
            requires
                m == p * t + r,
                0 <= r < p,
                n > 0,
                t >= 0,
        ;
    } else {
        let e = (9 - s) as nat;
        let q = pow(10, e);
        lemma_pow_positive(10, e);
        lemma_pow_adds(10, e, s);
        assert(pow(10, 9) == q * pow(10, s));
        let n = pow(10, s);
        assert((m * q) * n == m * (q * n)) by (nonlinear_arith);
        assert(((m * q) + 1) * n > m * (q * n)) by (nonlinear_arith)
            requires
                n > 0,
        ;
    }
}

/// A small power of ten.
fn pow10(e: u32) -> (r: u128)
    requires
        e <= 9,
    ensures
        r == pow(10, e as nat),
        1 <= r <= 1_000_000_000,
{
    let mut r: u128 = 1;
    let mut i: u32 = 0;
    proof {
        lemma_pow0(10);
    }
    while i < e
        invariant
            i <= e <= 9,
            r == pow(10, i as nat),
            i == 0 ==> r == 1,
            i == 1 ==> r == 10,
            i == 2 ==> r == 100,
            i == 3 ==> r == 1_000,
            i == 4 ==> r == 10_000,
            i == 5 ==> r == 100_000,
            i == 6 ==> r == 1_000_000,
            i == 7 ==> r == 10_000_000,
            i == 8 ==> r == 100_000_000,
            i == 9 ==> r == 1_000_000_000,
        decreases e - i,
    {
        proof {
            lemma_pow_adds(10, i as nat, 1);
            lemma_pow1(10);
        }
        r = r * 10;
        i += 1;
    }
    r
}

/// An instant from the Unix epoch up to the end of the year 9999, to the
/// nanosecond.
#[derive(Debug, Clone, Copy, PartialEq, Eq)]
pub struct Timestamp {
    secs: u64,
    nanos: u32,
}

/// The instant that `humantime::parse_rfc3339` reads from a text, as the
/// seconds and nanoseconds since the Unix epoch; none where it reports an
/// error.
pub uninterp spec fn rfc3339_instant(text: Seq<char>) -> Option<(u64, u32)>;

/// The text that `humantime::format_rfc3339` writes for the instant that lies
/// the given seconds and nanoseconds after the Unix epoch.
pub uninterp spec fn rfc3339_text(secs: u64, nanos: u32) -> Seq<char>;

/// Reads an RFC 3339 text with `humantime::parse_rfc3339` and hands out the
/// instant as the time since `UNIX_EPOCH`.
#[verifier::external_body]
fn parse_time(text: &str) -> (r: Option<(u64, u32)>)
    ensures
        r == rfc3339_instant(text@),
{
    let at = humantime::parse_rfc3339(text).ok()?;
    let since = at.duration_since(UNIX_EPOCH).ok()?;
    Some((since.as_secs(), since.subsec_nanos()))
}

/// Writes an instant with `humantime::format_rfc3339`, which leaves the
/// fraction out where it is zero and writes nine digits of it where it is
/// not. The instant is to lie before the year 10000, where the text ends.
#[verifier::external_body]
fn format_time(secs: u64, nanos: u32) -> (r: String)
    requires
        secs < MAX_SECS,
        nanos < NANOS_PER_SEC,
    ensures
        r@ == rfc3339_text(secs, nanos),
{
    humantime::format_rfc3339(UNIX_EPOCH + Duration::new(secs, nanos)).to_string()
}

/// The seconds and nanoseconds of a timestamp that may be missing.
pub open spec fn instant_view(t: Option<Timestamp>) -> Option<(u64, u32)> {
    match t {
        Some(t) => Some(t.instant()),
        None => None,
    }
}

/// The instant that an RFC 3339 text names, where it is one that a timestamp
/// can hold.
pub open spec fn rfc3339_spec(text: Seq<char>) -> Option<(u64, u32)> {
    match rfc3339_instant(text) {
        Some((secs, nanos)) => if secs < MAX_SECS && nanos < NANOS_PER_SEC {
            Some((secs, nanos))
        } else {
            None
        },
        None => None,
    }
}

/// The instant that a reading of the clock stands for. A clock before the
/// epoch, which reads nothing, stands for the epoch; a reading that no
/// timestamp can hold stands for the last second of the year 9999.
pub open spec fn reading_spec(reading: Option<(u64, u32)>) -> (u64, u32) {
    match reading {
        Some((secs, nanos)) => if secs < MAX_SECS && nanos < NANOS_PER_SEC {
            (secs, nanos)
        } else {
            ((MAX_SECS - 1) as u64, 0u32)
        },
        None => (0u64, 0u32),
    }
}

impl Timestamp {
    #[verifier::type_invariant]
    spec fn inv(&self) -> bool {
        self.secs < MAX_SECS && self.nanos < NANOS_PER_SEC
    }

    /// The seconds since the Unix epoch, and the nanoseconds of the second.
    pub closed spec fn instant(&self) -> (u64, u32) {
        (self.secs, self.nanos)
    }

    /// The instant that lies `secs` seconds and `nanos` nanoseconds after the
    /// Unix epoch, where it lies before the year 10000 and `nanos` is less
    /// than a second.
    pub fn new(secs: u64, nanos: u32) -> (r: Option<Timestamp>)
        ensures
            secs < MAX_SECS && nanos < NANOS_PER_SEC ==> instant_view(r) == Some((secs, nanos)),
            !(secs < MAX_SECS && nanos < NANOS_PER_SEC) ==> r is None,
    {
        if secs < MAX_SECS && nanos < NANOS_PER_SEC {
            Some(Timestamp { secs, nanos })
        } else {
            None
        }
    }

    /// The Unix epoch.
    pub fn epoch() -> (r: Timestamp)
        ensures
            r.instant() == (0u64, 0u32),
    {
        Timestamp { secs: 0, nanos: 0 }
    }

    /// The seconds since the Unix epoch.
    pub fn secs(&self) -> (r: u64)
        ensures
            r == self.instant().0,
            r < MAX_SECS,
    {
        proof {
            use_type_invariant(self);
        }
        self.secs
    }

    /// The nanoseconds of the second.
    pub fn nanos(&self) -> (r: u32)
        ensures
            r == self.instant().1,
            r < NANOS_PER_SEC,
    {
        proof {
            use_type_invariant(self);
        }
        self.nanos
    }

    /// The time that the system clock shows. A clock before the epoch gives
    /// the epoch, and one past the year 9999 gives its last second.
    ///
    /// What the clock reads is not known, so the instant is that of some
    /// reading.
    pub fn now() -> (r: Timestamp)
        ensures
            exists|reading: Option<(u64, u32)>| r.instant() == #[trigger] reading_spec(reading),
    {
        Timestamp::from_reading(since_epoch())
    }

    /// The instant of a reading of the clock: the seconds since the Unix
    /// epoch and the nanoseconds of the second, or nothing where the clock is
    /// set before the epoch.
    pub fn from_reading(reading: Option<(u64, u32)>) -> (r: Timestamp)
        ensures
            r.instant() == reading_spec(reading),
    {
        match reading {
            Some((secs, nanos)) => {
                if secs < MAX_SECS && nanos < NANOS_PER_SEC {
                    Timestamp { secs, nanos }
                } else {
                    Timestamp { secs: MAX_SECS - 1, nanos: 0 }
                }
            },
            None => Timestamp::epoch(),
        }
    }

    /// Reads an RFC 3339 text.
    pub fn try_parse_rfc3339(ts: &str) -> (r: Option<Timestamp>)
        ensures
            instant_view(r) == rfc3339_spec(ts@),
    {
        match parse_time(ts) {
            Some((secs, nanos)) => Timestamp::new(secs, nanos),
            None => None,
        }
    }

    /// The instant that lies a decimal number of seconds after the Unix epoch.
    ///
    /// A negative number gives the epoch. What the number has beyond the
    /// nanosecond is cut off. There is no instant where the number leads past
    /// the year 9999.
    pub fn from_decimal(ts: Decimal) -> (r: Option<Timestamp>)
        ensures
            instant_view(r) == from_decimal_spec(ts),
    {
        // A timestamp before the epoch is the epoch
        if ts.negative {
            return Some(Timestamp::epoch());
        }
        let total: u128 = if ts.scale >= 9 {
            let digits: u32 = ts.scale - 9;
            let mut total: u128 = ts.mantissa;
            let mut i: u32 = 0;
            proof {
                lemma_pow0(10);
            }
            while i < digits && total > 0
                invariant
                    i <= digits,
                    digits == ts.scale - 9,
                    total == ts.mantissa as int / pow(10, i as nat),
                decreases digits - i,
            {
                proof {
                    lemma_pow_positive(10, i as nat);
                    lemma_pow1(10);
                    lemma_pow_adds(10, i as nat, 1);
                    lemma_div_denominator(ts.mantissa as int, pow(10, i as nat), 10);
                }
                total = total / 10;
                i += 1;
            }
            proof {
                if i < digits {
                    // nothing is left, and nothing will be
                    let p = pow(10, i as nat);
                    let q = pow(10, digits as nat);
                    lemma_pow_positive(10, i as nat);
                    lemma_pow_increases(10, i as nat, digits as nat);
                    lemma_fundamental_div_mod(ts.mantissa as int, p);
                    assert(ts.mantissa < p) by (nonlinear_arith)
                        requires
                            ts.mantissa as int == p * (ts.mantissa as int / p) + (ts.mantissa as int
                                % p),
                            ts.mantissa as int / p == 0,
                            0 <= ts.mantissa as int % p < p,
                    ;
                    lemma_basic_div(ts.mantissa as int, q);
                }
            }
            total
        } else {
            let factor: u128 = pow10(9 - ts.scale);
            match ts.mantissa.checked_mul(factor) {
                Some(total) => total,
                None => {
                    proof {
                        let total = decimal_nanos(ts);
                        assert(total > u128::MAX);
                        assert(total / (NANOS_PER_SEC as nat) >= MAX_SECS);
                    }
                    return None;
                },
            }
        };
        assert(total == decimal_nanos(ts));
        let secs: u128 = total / (NANOS_PER_SEC as u128);
        let nanos: u128 = total % (NANOS_PER_SEC as u128);
        if secs < MAX_SECS as u128 {
            Some(Timestamp { secs: secs as u64, nanos: nanos as u32 })
        } else {
            None
        }
    }

    /// The instant as RFC 3339 text, in UTC, with nine digits of the second's
    /// fraction where it has one.
    pub fn to_rfc3339(&self) -> (r: String)
        ensures
            r@ == rfc3339_text(self.instant().0, self.instant().1),
    {
        proof {
            use_type_invariant(self);
        }
        format_time(self.secs, self.nanos)
    }
}

/// A CLEF event.
#[derive(Debug)]
pub struct Message<'a> {
    /// `@t`
    pub timestamp: Option<Timestamp>,
    /// `@l`
    pub level: Option<Str<'a>>,
    /// `@m`
    pub message: Option<Str<'a>>,
    /// `@mt`
    pub message_template: Option<Str<'a>>,
    /// `@x`: mapped from `full_message`, which GELF suggests might contain a
    /// backtrace
    pub exception: Option<Str<'a>>,
    /// Everything else
    pub additional: Fields,
}

/// What a CLEF event holds.
pub struct MessageView {
    pub timestamp: Option<(u64, u32)>,
    pub level: Option<Seq<char>>,
    pub message: Option<Seq<char>>,
    pub message_template: Option<Seq<char>>,
    pub exception: Option<Seq<char>>,
    pub additional: Map<Seq<char>, ValueView>,
}

impl<'a> View for Message<'a> {
    type V = MessageView;

    open spec fn view(&self) -> MessageView {
        MessageView {
            timestamp: instant_view(self.timestamp),
            level: text_view(self.level),
            message: text_view(self.message),
            message_template: text_view(self.message_template),
            exception: text_view(self.exception),
            additional: self.additional@,
        }
    }
}

/// The view of an event that may be missing.
pub open spec fn event_view(m: Option<Message>) -> Option<MessageView> {
    match m {
        Some(m) => Some(m@),
        None => None,
    }
}

/// The event that holds nothing.
pub open spec fn empty_event() -> MessageView {
    MessageView {
        timestamp: None,
        level: None,
        message: None,
        message_template: None,
        exception: None,
        additional: Map::empty(),
    }
}

/// The event that a plain text message makes: the text is its `@m`.
pub open spec fn plain_event(msg: Seq<char>) -> MessageView {
    MessageView { message: Some(msg), ..empty_event() }
}

/// What a member that is to be a text holds: the text of a string, nothing
/// for `null`. Any other value is refused.
pub open spec fn optional_text(value: ValueView) -> Option<Option<Seq<char>>> {
    match value {
        ValueView::String(s) => Some(Some(s)),
        ValueView::Null => Some(None),
        _ => None,
    }
}

/// What a member that is to be a timestamp holds: the instant of a string in
/// RFC 3339, nothing for `null`. Any other value is refused.
pub open spec fn optional_instant(value: ValueView) -> Option<Option<(u64, u32)>> {
    match value {
        ValueView::String(s) => match rfc3339_spec(s) {
            Some(t) => Some(Some(t)),
            None => None,
        },
        ValueView::Null => Some(None),
        _ => None,
    }
}

/// An event with one more member of a CLEF document. `@t`, `@l`, `@m`, `@mt`
/// and `@x` are the event's own and must hold what they are to hold, or the
/// document is refused. Any other member is an additional property.
pub open spec fn with_member(event: MessageView, name: Seq<char>, value: ValueView) -> Option<
    MessageView,
> {
    if name == "@t"@ {
        match optional_instant(value) {
            Some(timestamp) => Some(MessageView { timestamp, ..event }),
            None => None,
        }
    } else if name == "@l"@ {
        match optional_text(value) {
            Some(level) => Some(MessageView { level, ..event }),
            None => None,
        }
    } else if name == "@m"@ {
        match optional_text(value) {
            Some(message) => Some(MessageView { message, ..event }),
            None => None,
        }
    } else if name == "@mt"@ {
        match optional_text(value) {
            Some(message_template) => Some(MessageView { message_template, ..event }),
            None => None,
        }
    } else if name == "@x"@ {
        match optional_text(value) {
            Some(exception) => Some(MessageView { exception, ..event }),
            None => None,
        }
    } else {
        Some(MessageView { additional: event.additional.insert(name, value), ..event })
    }
}

/// The event that the members of a CLEF document make; none where one of
/// them is refused.
pub open spec fn event_of(members: Seq<(Seq<char>, ValueView)>) -> Option<MessageView>
    decreases members.len(),
{
    if members.len() == 0 {
        Some(empty_event())
    } else {
        match event_of(members.drop_last()) {
            Some(event) => with_member(event, members.last().0, members.last().1),
            None => None,
        }
    }
}

/// The event that a short message carries within itself: where the message
/// begins with `{` and is a JSON object that makes a CLEF event, that event.
pub open spec fn embedded_spec(json: Seq<char>) -> Option<MessageView> {
    if json.len() > 0 && json[0] == '{' {
        match json_object(vstd::utf8::encode_utf8(json)) {
            Some(members) => event_of(members),
            None => None,
        }
    } else {
        None
    }
}

/// The text of the members after the first, each with a comma before it.
pub open spec fn members_text(members: Seq<(Seq<char>, ValueView)>) -> Seq<char>
    decreases members.len(),
{
    if members.len() == 0 {
        Seq::empty()
    } else {
        members_text(members.drop_last()) + ","@ + json_string(members.last().0) + ":"@
            + json_text(members.last().1)
    }
}

/// The text of a member that is always written: `null` where it is missing.
pub open spec fn required_text(s: Option<Seq<char>>) -> Seq<char> {
    match s {
        Some(s) => json_string(s),
        None => "null"@,
    }
}

/// The text of a member that is left out where it is missing.
pub open spec fn skipped_text(label: Seq<char>, s: Option<Seq<char>>) -> Seq<char> {
    match s {
        Some(s) => label + json_string(s),
        None => Seq::empty(),
    }
}

/// The text of the timestamp.
pub open spec fn timestamp_text(t: Option<(u64, u32)>) -> Option<Seq<char>> {
    match t {
        Some((secs, nanos)) => Some(rfc3339_text(secs, nanos)),
        None => None,
    }
}

/// An event as one JSON object: `@t` and `@l` first, then `@m`, `@mt` and
/// `@x` where they are there, then the additional properties in their order.
pub open spec fn json_spec(event: MessageView, members: Seq<(Seq<char>, ValueView)>) -> Seq<
    char,
> {
    "{\"@t\":"@ + required_text(timestamp_text(event.timestamp)) + ",\"@l\":"@ + required_text(
        event.level,
    ) + skipped_text(",\"@m\":"@, event.message) + skipped_text(
        ",\"@mt\":"@,
        event.message_template,
    ) + skipped_text(",\"@x\":"@, event.exception) + members_text(members) + "}"@
}

fn push_required(out: &mut String, s: &Option<Str>)
    ensures
        final(out)@ == old(out)@ + required_text(text_view(*s)),
{
    match s {
        Some(s) => {
            let text = quote(s.as_ref());
            out.append(text.as_str());
        },
        None => {
            out.append("null");
        },
    }
}

fn push_skipped(out: &mut String, label: &str, s: &Option<Str>)
    ensures
        final(out)@ == old(out)@ + skipped_text(label@, text_view(*s)),
{
    match s {
        Some(s) => {
            let text = quote(s.as_ref());
            out.append(label);
            out.append(text.as_str());
            assert(out@ =~= old(out)@ + (label@ + json_string(s@)));
        },
        None => {
            assert(out@ =~= old(out)@ + Seq::<char>::empty());
        },
    }
}

impl<'a> Message<'a> {
    /// The event of a plain text message.
    pub fn from_message(msg: &'a str) -> (m: Message<'a>)
        ensures
            m@ == plain_event(msg@),
            m.message matches Some(text) && text is Borrowed,
    {
        Message {
            timestamp: None,
            level: None,
            message: Some(Str::Borrowed(msg)),
            message_template: None,
            exception: None,
            additional: Fields::new(),
        }
    }

    /// The event that the members of a CLEF document make.
    pub fn from_entries(entries: &Vec<(String, Value)>) -> (m: Option<Message<'a>>)
        ensures
            event_view(m) == event_of(pairs(entries@)),
    {
        let mut event: Message<'a> = Message {
            timestamp: None,
            level: None,
            message: None,
            message_template: None,
            exception: None,
            additional: Fields::new(),
        };
        let ghost members = pairs(entries@);
        let mut i: usize = 0;
        assert(members.take(0) =~= Seq::<(Seq<char>, ValueView)>::empty());
        while i < entries.len()
            invariant
                i <= entries@.len(),
                members == pairs(entries@),
                Some(event@) == event_of(members.take(i as int)),
            decreases entries@.len() - i,
        {
            let name: &str = entries[i].0.as_str();
            let value: &Value = &entries[i].1;
            proof {
                assert(members.take(i + 1).drop_last() =~= members.take(i as int));
                assert(members.take(i + 1).last() == members[i as int]);
                assert(members[i as int] == (name@, value@));
            }
            let ghost before = event@;
            let ghost step = with_member(before, name@, value@);
            if same_text(name, "@t") {
                match value {
                    Value::String(s) => {
                        match Timestamp::try_parse_rfc3339(s.as_str()) {
                            Some(t) => {
                                event.timestamp = Some(t);
                            },
                            None => {
                                proof {
                                    lemma_event_of_prefix(members, i + 1);
                                }
                                return None;
                            },
                        }
                    },
                    Value::Null => {
                        event.timestamp = None;
                    },
                    _ => {
                        proof {
                            lemma_event_of_prefix(members, i + 1);
                        }
                        return None;
                    },
                }
            } else if same_text(name, "@l") {
                match owned_text(value) {
                    Some(text) => {
                        event.level = text;
                    },
                    None => {
                        proof {
                            lemma_event_of_prefix(members, i + 1);
                        }
                        return None;
                    },
                }
            } else if same_text(name, "@m") {
                match owned_text(value) {
                    Some(text) => {
                        event.message = text;
                    },
                    None => {
                        proof {
                            lemma_event_of_prefix(members, i + 1);
                        }
                        return None;
                    },
                }
            } else if same_text(name, "@mt") {
                match owned_text(value) {
                    Some(text) => {
                        event.message_template = text;
                    },
                    None => {
                        proof {
                            lemma_event_of_prefix(members, i + 1);
                        }
                        return None;
                    },
                }
            } else if same_text(name, "@x") {
                match owned_text(value) {
                    Some(text) => {
                        event.exception = text;
                    },
                    None => {
                        proof {
                            lemma_event_of_prefix(members, i + 1);
                        }
                        return None;
                    },
                }
            } else {
                event.additional.insert(name.to_owned(), value.clone());
            }
            assert(Some(event@) == step);
            i += 1;
        }
        assert(members.take(i as int) =~= members);
        Some(event)
    }

    /// The event that a short message carries within itself, if it carries
    /// one.
    pub fn maybe_from_json(json: &'a str) -> (m: Option<Message<'a>>)
        ensures
            event_view(m) == embedded_spec(json@),
    {
        if !json.is_empty() && json.get_char(0) == '{' {
            match parse_object(json.as_bytes()) {
                Ok(entries) => Message::from_entries(&entries),
                Err(_) => None,
            }
        } else {
            None
        }
    }

    /// The event as one JSON object.
    pub fn to_json(&self) -> (r: String)
        ensures
            r@ == json_spec(self@, self.additional.entries()),
            distinct_names(self.additional.entries()),
    {
        let mut out: String = "{\"@t\":".to_owned();
        match &self.timestamp {
            Some(t) => {
                let text = t.to_rfc3339();
                let quoted = quote(text.as_str());
                out.append(quoted.as_str());
            },
            None => {
                out.append("null");
            },
        }
        out.append(",\"@l\":");
        push_required(&mut out, &self.level);
        push_skipped(&mut out, ",\"@m\":", &self.message);
        push_skipped(&mut out, ",\"@mt\":", &self.message_template);
        push_skipped(&mut out, ",\"@x\":", &self.exception);
        let ghost head = out@;
        let ghost members = self.additional.entries();
        let mut i: usize = 0;
        assert(members.take(0) =~= Seq::<(Seq<char>, ValueView)>::empty());
        while i < self.additional.len()
            invariant
                i <= members.len(),
                members == self.additional.entries(),
                out@ == head + members_text(members.take(i as int)),
            decreases members.len() - i,
        {
            proof {
                assert(members.take(i + 1).drop_last() =~= members.take(i as int));
                assert(members.take(i + 1).last() == members[i as int]);
            }
            let name = quote(self.additional.name(i));
            let value = self.additional.value(i).to_json();
            out.append(",");
            out.append(name.as_str());
            out.append(":");
            out.append(value.as_str());
            assert(out@ =~= head + members_text(members.take(i + 1)));
            i += 1;
        }
        assert(members.take(i as int) =~= members);
        out.append("}");
        assert(out@ =~= json_spec(self@, members));
        out
    }
}

/// The text of a member that is to be a text, as a string of its own.
fn owned_text<'a>(value: &Value) -> (r: Option<Option<Str<'a>>>)
    ensures
        match r {
            Some(text) => optional_text(value@) == Some(text_view(text)),
            None => optional_text(value@) is None,
        },
{
    match value {
        Value::String(s) => Some(Some(Str::Owned(s.clone()))),
        Value::Null => Some(None),
        _ => None,
    }
}

/// A document of which a beginning is refused is refused.
pub proof fn lemma_event_of_prefix(members: Seq<(Seq<char>, ValueView)>, k: int)
    requires
        0 <= k <= members.len(),
    ensures
        event_of(members.take(k)) is None ==> event_of(members) is None,
    decreases members.len(),
{
    if k < members.len() {
        assert(members.drop_last().take(k) =~= members.take(k));
        lemma_event_of_prefix(members.drop_last(), k);
    } else {
        assert(members.take(k) =~= members);
    }
}

} // verus!
