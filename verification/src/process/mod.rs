//! Reads messages as GELF and maps them to CLEF.
//!
//! What is in the short message is looked at: where it is a CLEF document of
//! its own, that document is the base of the event, and its timestamp, level,
//! message and exception go before those of the envelope.
//!
//! Of properties with the same name, the one that ranks higher keeps the
//! name:
//!
//!   GELF envelope > GELF payload > embedded CLEF
//!
//! What the logger is set up to send is trusted before what any one event
//! holds. The property that gives way is kept under its name with `__` in
//! front, as in `__host`.
use vstd::prelude::*;
use vstd::string::*;

use crate::diagnostics::bump;
use crate::diagnostics::bumped;
use crate::error::Error;
use crate::io::MemRead;
use crate::process::clef::embedded_spec;
use crate::process::clef::from_decimal_spec;
use crate::process::clef::json_spec;
use crate::process::clef::plain_event;
use crate::process::clef::Timestamp;
use crate::process::json::lossy;
use crate::process::json::has_name;
use crate::process::json::json_object;
use crate::process::json::map_of;
use crate::process::json::distinct_names;
use crate::process::json::parse_object;
use crate::process::json::u64_text;
use crate::process::json::uint_text;
use crate::process::json::utf8_lossy;
use crate::process::json::Fields;
use crate::process::json::Value;
use crate::process::json::ValueView;
use crate::process::gelf::gelf_of;
use crate::process::str::same_text;
use crate::process::str::string_view;
use crate::process::str::text_view;
use crate::process::str::Str;

pub mod clef;
pub mod gelf;
pub mod json;
pub mod laws;
pub mod str;

verus! {

/// What the message of a parse error begins with when the payload is shown.
pub const ERR_PARSE_PREFIX: &'static str = "could not parse GELF from: ";

/// The name of the property that holds the payload as it came.
pub const RAW_PAYLOAD: &'static str = "raw_payload";

/// Configuration for CLEF formatting.
#[derive(Debug, Clone, Copy)]
pub struct Config {
    /// Whether or not to include the raw GELF payload in the event.
    pub include_raw_payload: bool,
}

impl Default for Config {
    fn default() -> (c: Config)
        ensures
            !c.include_raw_payload,
    {
        Config { include_raw_payload: false }
    }
}

/// Build a CLEF processor to handle messages.
pub fn build(config: Config) -> (p: Process)
    ensures
        p.include_raw_payload() == config.include_raw_payload,
{
    Process::new(config)
}

/// The counters of the processor.
#[derive(Debug, Clone, Copy, PartialEq, Eq, Structural)]
pub struct Metrics {
    /// The messages that were handed to the processor.
    pub msg: u64,
}

impl Metrics {
    /// Counters at 0.
    pub open spec fn zero() -> Metrics {
        Metrics { msg: 0 }
    }

    /// Counters at 0.
    pub fn new() -> (m: Metrics)
        ensures
            m == Metrics::zero(),
    {
        Metrics { msg: 0 }
    }

    /// Counts a message.
    pub fn count(&mut self)
        ensures
            final(self).msg == bumped(old(self).msg),
    {
        self.msg = bump(self.msg);
    }

    /// Hands out the counts and sets every counter to 0.
    pub fn take(&mut self) -> (m: Metrics)
        ensures
            m == *old(self),
            *final(self) == Metrics::zero(),
    {
        let m = *self;
        *self = Metrics::new();
        m
    }
}

/// Process a raw message
#[derive(Debug, Clone, Copy)]
pub struct Process {
    include_raw_payload: bool,
}

/// The name of a property of the payload: a leading underscore is taken off.
pub open spec fn stripped(name: Seq<char>) -> Seq<char> {
    if name.len() > 0 && name[0] == '_' {
        name.subrange(1, name.len() as int)
    } else {
        name
    }
}

/// The name under which a property is kept that has given way.
pub open spec fn shadow(name: Seq<char>) -> Seq<char> {
    "__"@ + name
}

/// The properties with one written over them: it takes its name, and what
/// stood under that name before is kept under the shadow of the name.
pub open spec fn overridden(
    fields: Map<Seq<char>, ValueView>,
    name: Seq<char>,
    value: ValueView,
) -> Map<Seq<char>, ValueView> {
    if fields.contains_key(name) {
        fields.insert(name, value).insert(shadow(name), fields[name])
    } else {
        fields.insert(name, value)
    }
}

/// The properties with some written over them, one after the other.
pub open spec fn applied(
    fields: Map<Seq<char>, ValueView>,
    writes: Seq<(Seq<char>, ValueView)>,
) -> Map<Seq<char>, ValueView>
    decreases writes.len(),
{
    if writes.len() == 0 {
        fields
    } else {
        overridden(applied(fields, writes.drop_last()), writes.last().0, writes.last().1)
    }
}

/// The properties of the payload under the names that they are written to.
pub open spec fn user_writes(additional: Seq<(Seq<char>, ValueView)>) -> Seq<
    (Seq<char>, ValueView),
> {
    Seq::new(additional.len(), |i: int| (stripped(additional[i].0), additional[i].1))
}

/// A text of the envelope as a property, where it is there.
pub open spec fn text_write(name: Seq<char>, text: Option<Seq<char>>) -> Seq<
    (Seq<char>, ValueView),
> {
    match text {
        Some(text) => seq![(name, ValueView::String(text))],
        None => Seq::empty(),
    }
}

/// The line of the envelope as a property, where it is there.
pub open spec fn line_write(line: Option<u32>) -> Seq<(Seq<char>, ValueView)> {
    match line {
        Some(line) => seq![("line"@, ValueView::Number(uint_text(line as nat)))],
        None => Seq::empty(),
    }
}

/// The built-in fields of the envelope as properties: `host`, `facility`,
/// `file` and `line`, as far as they are there.
pub open spec fn builtin_writes(gelf: gelf::MessageView) -> Seq<(Seq<char>, ValueView)> {
    text_write("host"@, gelf.host) + text_write("facility"@, gelf.facility) + text_write(
        "file"@,
        gelf.file,
    ) + line_write(gelf.line)
}

/// All that the envelope writes over the properties of the base, in the order
/// in which it is written: first the payload, then the built-in fields, so
/// that these have the last word.
pub open spec fn writes(gelf: gelf::MessageView) -> Seq<(Seq<char>, ValueView)> {
    user_writes(gelf.additional) + builtin_writes(gelf)
}

/// The name of a Syslog level. What lies above 7 is `debug`.
pub open spec fn level_name(level: u8) -> Seq<char> {
    if level == 0 {
        "emerg"@
    } else if level == 1 {
        "alert"@
    } else if level == 2 {
        "crit"@
    } else if level == 3 {
        "err"@
    } else if level == 4 {
        "warning"@
    } else if level == 5 {
        "notice"@
    } else if level == 6 {
        "info"@
    } else {
        "debug"@
    }
}

/// The level of an envelope that names none.
pub const DEFAULT_LEVEL: u8 = 6;

/// The message that the properties offer to an event without one: the
/// `message` property, or else the `msg` property, where it is a string.
pub open spec fn fallback(fields: Map<Seq<char>, ValueView>) -> Option<Seq<char>> {
    let found = if fields.contains_key("message"@) {
        Some(fields["message"@])
    } else if fields.contains_key("msg"@) {
        Some(fields["msg"@])
    } else {
        None
    };
    match found {
        Some(ValueView::String(text)) => Some(text),
        _ => None,
    }
}

/// The timestamp of the event: that of the base, else that of the envelope,
/// else the time at which the event is processed.
pub open spec fn timestamp_spec(
    gelf: gelf::MessageView,
    base: clef::MessageView,
    now: (u64, u32),
) -> (u64, u32) {
    match base.timestamp {
        Some(t) => t,
        None => match gelf.timestamp {
            Some(decimal) => match from_decimal_spec(decimal) {
                Some(t) => t,
                None => now,
            },
            None => now,
        },
    }
}

/// The level of the event: that of the base, else the name of the level of
/// the envelope.
pub open spec fn level_spec(gelf: gelf::MessageView, base: clef::MessageView) -> Seq<char> {
    match base.level {
        Some(level) => level,
        None => level_name(
            match gelf.level {
                Some(level) => level,
                None => DEFAULT_LEVEL,
            },
        ),
    }
}

/// The exception of the event: that of the base, else the full message of the
/// envelope, unless that only says the short message again.
pub open spec fn exception_spec(gelf: gelf::MessageView, base: clef::MessageView) -> Option<
    Seq<char>,
> {
    match base.exception {
        Some(exception) => Some(exception),
        None => match gelf.full_message {
            Some(full) => if full != gelf.short_message {
                Some(full)
            } else {
                None
            },
            None => None,
        },
    }
}

/// The CLEF event of a GELF message, made on `base`, at `now`.
pub open spec fn to_clef_spec(
    gelf: gelf::MessageView,
    base: clef::MessageView,
    now: (u64, u32),
) -> clef::MessageView {
    let additional = applied(base.additional, writes(gelf));
    clef::MessageView {
        timestamp: Some(timestamp_spec(gelf, base, now)),
        level: Some(level_spec(gelf, base)),
        message: if base.message is None && base.message_template is None {
            fallback(additional)
        } else {
            base.message
        },
        message_template: base.message_template,
        exception: exception_spec(gelf, base),
        additional,
    }
}

/// The base of the event of a message: the CLEF document in its short
/// message, or else the short message as plain text.
pub open spec fn base_spec(short_message: Seq<char>) -> clef::MessageView {
    match embedded_spec(short_message) {
        Some(event) => event,
        None => plain_event(short_message),
    }
}

/// The envelope with the payload as it came among its properties, unless a
/// property of that name is there already.
pub open spec fn with_raw_payload(gelf: gelf::MessageView, bytes: Seq<u8>) -> gelf::MessageView {
    if has_name(gelf.additional, RAW_PAYLOAD@) {
        gelf
    } else {
        gelf::MessageView {
            additional: gelf.additional.push((RAW_PAYLOAD@, ValueView::String(utf8_lossy(bytes)))),
            ..gelf
        }
    }
}

/// The GELF message that a payload holds. The error is given with its message
/// where that is known; what `serde_json` says of a text that is no JSON
/// object is not.
pub open spec fn read_spec(include_raw_payload: bool, bytes: Seq<u8>) -> Result<
    gelf::MessageView,
    Option<Seq<char>>,
> {
    let read: Result<gelf::MessageView, Option<Seq<char>>> = match json_object(bytes) {
        Some(members) => match gelf_of(members) {
            Ok(gelf) => Ok(gelf),
            Err(text) => Err(Some(text)),
        },
        None => Err(None),
    };
    if include_raw_payload {
        match read {
            Ok(gelf) => Ok(with_raw_payload(gelf, bytes)),
            Err(_) => Err(Some(ERR_PARSE_PREFIX@ + utf8_lossy(bytes))),
        }
    } else {
        read
    }
}

/// Whether what was read is what was to be read.
pub open spec fn reads_as(
    r: Result<gelf::Message, Error>,
    want: Result<gelf::MessageView, Option<Seq<char>>>,
) -> bool {
    match want {
        Ok(gelf) => r matches Ok(m) && m@ == gelf,
        Err(Some(text)) => r matches Err(e) && e@ == text,
        Err(None) => r is Err,
    }
}

/// Adding a write at the end is writing it last.
pub proof fn lemma_applied_push(
    fields: Map<Seq<char>, ValueView>,
    writes: Seq<(Seq<char>, ValueView)>,
    last: (Seq<char>, ValueView),
)
    ensures
        applied(fields, writes.push(last)) == overridden(applied(fields, writes), last.0, last.1),
{
    assert(writes.push(last).drop_last() =~= writes);
}

impl Process {
    /// Whether the raw payload goes into the event.
    pub closed spec fn include_raw_payload(&self) -> bool {
        self.include_raw_payload
    }

    /// A processor.
    pub fn new(config: Config) -> (p: Process)
        ensures
            p.include_raw_payload() == config.include_raw_payload,
    {
        Process { include_raw_payload: config.include_raw_payload }
    }

    /// Reads a payload as a GELF message.
    pub fn read_bytes(&self, bytes: &[u8]) -> (r: Result<gelf::Message, Error>)
        ensures
            reads_as(r, read_spec(self.include_raw_payload(), bytes@)),
    {
        let read = match parse_object(bytes) {
            Ok(entries) => gelf::Message::from_entries(&entries),
            Err(e) => Err(e),
        };
        if self.include_raw_payload {
            let payload = lossy(bytes);
            match read {
                Ok(gelf) => {
                    let mut gelf = gelf;
                    gelf.add(RAW_PAYLOAD, Value::String(payload));
                    Ok(gelf)
                },
                Err(_) => {
                    let text = ERR_PARSE_PREFIX.to_owned().concat(payload.as_str());
                    Err(Error::msg(text.as_str()))
                },
            }
        } else {
            read
        }
    }

    /// Reads a message as GELF: its bytes as they are where it lends them,
    /// else what a reader over it gives.
    pub fn read_gelf<M: MemRead>(&self, msg: M) -> (r: Result<gelf::Message, Error>)
        ensures
            msg.content() is None ==> r is Err,
            msg.content() matches Some(bytes) ==> reads_as(
                r,
                read_spec(self.include_raw_payload(), bytes),
            ),
    {
        proof {
            msg.lemma_direct_is_content();
        }
        if let Some(bytes) = msg.bytes() {
            return self.read_bytes(bytes);
        }
        let mut reader = match msg.into_reader() {
            Ok(reader) => reader,
            Err(e) => {
                return Err(e);
            },
        };
        let mut payload: Vec<u8> = Vec::new();
        reader.read_to_end(&mut payload);
        assert(payload@ =~= msg.content()->0);
        self.read_bytes(payload.as_slice())
    }

    /// Reads a message as GELF, maps it to CLEF at the time of the system
    /// clock, and hands the event to `with`.
    ///
    /// A message that cannot be read is an error, and `with` is not called.
    /// Else the outcome is that of `with`.
    pub fn with_clef<M: MemRead, F: FnOnce(clef::Message) -> Result<(), Error>>(
        &self,
        msg: M,
        with: F,
    ) -> (r: Result<(), Error>)
        requires
            forall|event: clef::Message| with.requires((event,)),
        ensures
            msg.content() is None ==> r is Err,
            msg.content() matches Some(bytes) ==> match read_spec(
                self.include_raw_payload(),
                bytes,
            ) {
                Ok(gelf) => exists|event: clef::Message, now: (u64, u32)|
                    #![trigger
                        with.ensures((event,), r),
                        to_clef_spec(gelf, base_spec(gelf.short_message), now)
                    ]
                    {
                        &&& event@ == to_clef_spec(gelf, base_spec(gelf.short_message), now)
                        &&& with.ensures((event,), r)
                    },
                Err(Some(text)) => r matches Err(e) && e@ == text,
                Err(None) => r is Err,
            },
    {
        match self.read_gelf(msg) {
            Ok(gelf) => {
                let event = gelf.to_clef();
                with(event)
            },
            Err(e) => Err(e),
        }
    }

    /// Reads a message as GELF, maps it to CLEF at the time of the system
    /// clock, and hands back the event as one line of JSON, with the newline
    /// at its end.
    pub fn read_as_clef<M: MemRead>(&self, msg: M) -> (r: Result<String, Error>)
        ensures
            msg.content() is None ==> r is Err,
            msg.content() matches Some(bytes) ==> match read_spec(
                self.include_raw_payload(),
                bytes,
            ) {
                Ok(gelf) => r matches Ok(line) && exists|
                    members: Seq<(Seq<char>, ValueView)>,
                    now: (u64, u32),
                |
                    {
                        &&& distinct_names(members)
                        &&& map_of(members) == to_clef_spec(
                            gelf,
                            base_spec(gelf.short_message),
                            now,
                        ).additional
                        &&& line@ == #[trigger] json_spec(
                            to_clef_spec(gelf, base_spec(gelf.short_message), now),
                            members,
                        ) + "\n"@
                    },
                Err(Some(text)) => r matches Err(e) && e@ == text,
                Err(None) => r is Err,
            },
    {
        match self.read_gelf(msg) {
            Ok(gelf) => {
                let event = gelf.to_clef();
                let mut line = event.to_json();
                line.append("\n");
                Ok(line)
            },
            Err(e) => Err(e),
        }
    }
}

/// Writes a property over the others. What stood under its name is kept under
/// the shadow of the name.
pub fn override_value(fields: &mut Fields, name: &str, value: Value)
    ensures
        final(fields)@ == overridden(old(fields)@, name@, value@),
{
    if let Some(old) = fields.insert(name.to_owned(), value) {
        fields.insert("__".to_owned().concat(name), old);
    }
}

/// The first of the properties with these names that is there.
pub fn find_first<'b>(fields: &'b Fields, names: &[&str]) -> (r: Option<&'b Value>)
    ensures
        match r {
            Some(value) => exists|i: int|
                0 <= i < names@.len() && fields@.contains_key(#[trigger] names@[i]@) && value@
                    == fields@[names@[i]@] && forall|j: int|
                    0 <= j < i ==> !fields@.contains_key(#[trigger] names@[j]@),
            None => forall|j: int|
                0 <= j < names@.len() ==> !fields@.contains_key(#[trigger] names@[j]@),
        },
{
    let mut i: usize = 0;
    while i < names.len()
        invariant
            i <= names@.len(),
            forall|j: int| 0 <= j < i ==> !fields@.contains_key(#[trigger] names@[j]@),
        decreases names@.len() - i,
    {
        if let Some(value) = fields.get(names[i]) {
            return Some(value);
        }
        i += 1;
    }
    None
}

/// The name of a property of the payload: a leading underscore is taken off.
pub fn strip_underscore(name: &str) -> (r: &str)
    ensures
        r@ == stripped(name@),
{
    if !name.is_empty() && name.get_char(0) == '_' {
        name.substring_char(1, name.unicode_len())
    } else {
        name
    }
}

/// The name of a Syslog level.
pub fn level_str(level: u8) -> (r: &'static str)
    ensures
        r@ == level_name(level),
{
    // These are the standard Syslog levels
    match level {
        0 => "emerg",
        1 => "alert",
        2 => "crit",
        3 => "err",
        4 => "warning",
        5 => "notice",
        6 => "info",
        7 => "debug",
        _ => "debug",
    }
}

impl gelf::Message {
    /// Convert a GELF message into CLEF, at the time of the system clock.
    ///
    /// The clock is asked only for the event: whatever it says, the event is
    /// the one of `to_clef_at` at some time.
    pub fn to_clef<'a>(&'a self) -> (event: clef::Message<'a>)
        ensures
            exists|now: (u64, u32)|
                event@ == #[trigger] to_clef_spec(self@, base_spec(self.short_message@), now),
            embedded_spec(self.short_message@) is None ==> (event.message matches Some(text)
                && text is Borrowed),
    {
        let now = Timestamp::now();
        self.to_clef_at(now)
    }

    /// Convert a GELF message into CLEF, at the time `now`.
    ///
    /// The short message is looked at: where it is a CLEF document, that
    /// document is the base of the event; else the short message is the
    /// message of the event.
    pub fn to_clef_at<'a>(&'a self, now: Timestamp) -> (event: clef::Message<'a>)
        ensures
            event@ == to_clef_spec(self@, base_spec(self.short_message@), now.instant()),
            embedded_spec(self.short_message@) is None ==> (event.message matches Some(text)
                && text is Borrowed),
    {
        let base = match clef::Message::maybe_from_json(self.short_message.as_str()) {
            Some(event) => event,
            None => clef::Message::from_message(self.short_message.as_str()),
        };
        self.to_clef_from(base, now)
    }

    /// Convert a GELF message into CLEF, on the base given, at the time
    /// `now`.
    ///
    /// What the base has of timestamp, level, message and exception stays.
    /// The properties of the payload are written over those of the base, and
    /// the built-in fields of the envelope over both.
    pub fn to_clef_from<'a>(&'a self, base: clef::Message<'a>, now: Timestamp) -> (event:
        clef::Message<'a>)
        ensures
            event@ == to_clef_spec(self@, base@, now.instant()),
            base.message is Some ==> event.message == base.message,
    {
        let mut clef = base;
        let ghost fields = base@.additional;

        // Set the log level, giving priority to the embedded CLEF level
        if clef.level.is_none() {
            let level = match self.level {
                Some(level) => level,
                None => DEFAULT_LEVEL,
            };
            clef.level = Some(Str::Borrowed(level_str(level)));
        }

        // Set the timestamp, giving priority to the embedded CLEF timestamp
        if clef.timestamp.is_none() {
            let from_envelope = match self.timestamp {
                Some(decimal) => Timestamp::from_decimal(decimal),
                None => None,
            };
            clef.timestamp = Some(
                match from_envelope {
                    Some(timestamp) => timestamp,
                    None => now,
                },
            );
        }

        // Set the exception, giving priority to the embedded CLEF exception.
        if clef.exception.is_none() {
            clef.exception = self.exception();
        }

        // Set additional properties first; these override any in an embedded CLEF payload,
        // because we trust the configuration of the logger ahead of any one event.
        self.write_payload(&mut clef.additional);

        // Set GELF built-in properties; we also trust these ahead of any one event's properties.
        self.write_builtins(&mut clef.additional);
        proof {
            lemma_applied_add(fields, user_writes(self@.additional), builtin_writes(self@));
        }

        // If we reach the end without a message or message template then try find a
        // suitable substitute in the events properties
        if clef.message.is_none() && clef.message_template.is_none() {
            clef.message = message_among(&clef.additional);
        }
        clef
    }

    /// The full message, unless it only says the short message again.
    fn exception<'a>(&'a self) -> (r: Option<Str<'a>>)
        ensures
            text_view(r) == exception_spec(self@, clef::empty_event()),
    {
        match &self.full_message {
            // If the full message is the same as the short message then don't
            // bother setting it. Some clients will defensively send the same
            // value in both fields.
            Some(full) => {
                if !same_text(full.as_str(), self.short_message.as_str()) {
                    Some(Str::Borrowed(full.as_str()))
                } else {
                    None
                }
            },
            None => None,
        }
    }

    /// Writes the properties of the payload over `fields`.
    fn write_payload(&self, fields: &mut Fields)
        ensures
            final(fields)@ == applied(old(fields)@, user_writes(self@.additional)),
    {
        let ghost user = user_writes(self@.additional);
        let ghost start = fields@;
        let mut i: usize = 0;
        assert(user.take(0) =~= Seq::<(Seq<char>, ValueView)>::empty());
        while i < self.additional.len()
            invariant
                i <= self.additional@.len(),
                user == user_writes(self@.additional),
                fields@ == applied(start, user.take(i as int)),
            decreases self.additional@.len() - i,
        {
            let name = strip_underscore(self.additional[i].0.as_str());
            let value = self.additional[i].1.clone();
            proof {
                assert(user.take(i + 1) =~= user.take(i as int).push(user[i as int]));
                lemma_applied_push(start, user.take(i as int), user[i as int]);
            }
            override_value(fields, name, value);
            i += 1;
        }
        assert(user.take(i as int) =~= user);
    }

    /// Writes the built-in fields of the envelope over `fields`.
    fn write_builtins(&self, fields: &mut Fields)
        ensures
            final(fields)@ == applied(old(fields)@, builtin_writes(self@)),
    {
        let ghost gelf = self@;
        let ghost start = fields@;
        let ghost none = Seq::<(Seq<char>, ValueView)>::empty();
        write_text(fields, "host", &self.host);
        write_text(fields, "facility", &self.facility);
        write_text(fields, "file", &self.file);
        let ghost texts = text_write("host"@, gelf.host) + text_write("facility"@, gelf.facility)
            + text_write("file"@, gelf.file);
        proof {
            lemma_applied_add(
                start,
                text_write("host"@, gelf.host),
                text_write("facility"@, gelf.facility),
            );
            lemma_applied_add(
                start,
                text_write("host"@, gelf.host) + text_write("facility"@, gelf.facility),
                text_write("file"@, gelf.file),
            );
            lemma_applied_add(start, texts, line_write(gelf.line));
        }
        if let Some(line) = self.line {
            let text = u64_text(line as u64);
            proof {
                lemma_applied_push(fields@, none, ("line"@, ValueView::Number(text@)));
                assert(none.push(("line"@, ValueView::Number(text@))) =~= line_write(gelf.line));
            }
            override_value(fields, "line", Value::Number(text));
        }
    }
}

/// Writes a text of the envelope over `fields`, where it is there.
fn write_text(fields: &mut Fields, name: &str, text: &Option<String>)
    ensures
        final(fields)@ == applied(old(fields)@, text_write(name@, string_view(*text))),
{
    if let Some(text) = text {
        proof {
            let none = Seq::<(Seq<char>, ValueView)>::empty();
            lemma_applied_push(fields@, none, (name@, ValueView::String(text@)));
            assert(none.push((name@, ValueView::String(text@))) =~= text_write(
                name@,
                Some(text@),
            ));
        }
        override_value(fields, name, Value::String(text.clone()));
    }
}

/// The message that the properties offer to an event without one.
fn message_among<'a>(fields: &Fields) -> (r: Option<Str<'a>>)
    ensures
        text_view(r) == fallback(fields@),
{
    let names: [&str; 2] = ["message", "msg"];
    let found = find_first(fields, names.as_slice());
    proof {
        assert(names@[0]@ == "message"@);
        assert(names@[1]@ == "msg"@);
    }
    match found {
        Some(Value::String(text)) => Some(Str::Owned(text.clone())),
        _ => None,
    }
}

/// Writing one batch after another is writing them as one.
pub proof fn lemma_applied_add(
    fields: Map<Seq<char>, ValueView>,
    first: Seq<(Seq<char>, ValueView)>,
    second: Seq<(Seq<char>, ValueView)>,
)
    ensures
        applied(fields, first + second) == applied(applied(fields, first), second),
    decreases second.len(),
{
    if second.len() == 0 {
        assert(first + second =~= first);
    } else {
        lemma_applied_add(fields, first, second.drop_last());
        assert((first + second).drop_last() =~= first + second.drop_last());
        assert((first + second).last() == second.last());
    }
}

} // verus!
