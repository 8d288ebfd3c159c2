//! The GELF envelope.
use vstd::prelude::*;
use vstd::string::*;

use crate::error::Error;
use crate::process::clef::Decimal;
use crate::process::json::has_name;
use crate::process::json::json_decimal;
use crate::process::json::quote;
use crate::process::json::json_string;
use crate::process::json::pairs;
use crate::process::json::read_decimal;
use crate::process::json::parse_u64;
use crate::process::json::parse_uint;
use crate::process::json::Value;
use crate::process::json::ValueView;
use crate::process::str::same_text;
use crate::process::str::string_view;

verus! {

/// Message of the error for an envelope without a short message.
pub const ERR_MISSING_SHORT_MESSAGE: &'static str = "missing field `short_message`";

/// Message of the error for an envelope with a field of the wrong type.
pub const ERR_INVALID_FIELD: &'static str = "a field of the GELF message holds an invalid value";

/// A GELF message.
#[derive(Debug)]
pub struct Message {
    // GELF built-ins
    pub version: Option<String>,
    pub host: Option<String>,
    pub short_message: String,
    pub full_message: Option<String>,
    pub timestamp: Option<Decimal>,
    pub level: Option<u8>,
    // Deprecated built-ins, still may be present
    pub facility: Option<String>,
    pub line: Option<u32>,
    pub file: Option<String>,
    // Everything else, in the order in which it stands in the envelope
    pub additional: Vec<(String, Value)>,
}

/// What a GELF message holds.
pub struct MessageView {
    pub version: Option<Seq<char>>,
    pub host: Option<Seq<char>>,
    pub short_message: Seq<char>,
    pub full_message: Option<Seq<char>>,
    pub timestamp: Option<Decimal>,
    pub level: Option<u8>,
    pub facility: Option<Seq<char>>,
    pub line: Option<u32>,
    pub file: Option<Seq<char>>,
    pub additional: Seq<(Seq<char>, ValueView)>,
}

impl View for Message {
    type V = MessageView;

    open spec fn view(&self) -> MessageView {
        MessageView {
            version: string_view(self.version),
            host: string_view(self.host),
            short_message: self.short_message@,
            full_message: string_view(self.full_message),
            timestamp: self.timestamp,
            level: self.level,
            facility: string_view(self.facility),
            line: self.line,
            file: string_view(self.file),
            additional: pairs(self.additional@),
        }
    }
}

/// An envelope of which the members are read one by one: the short message
/// may be still to come.
pub struct Draft {
    pub short_message: Option<Seq<char>>,
    pub rest: MessageView,
}

/// The envelope before its first member.
pub open spec fn empty_draft() -> Draft {
    Draft {
        short_message: None,
        rest: MessageView {
            version: None,
            host: None,
            short_message: Seq::empty(),
            full_message: None,
            timestamp: None,
            level: None,
            facility: None,
            line: None,
            file: None,
            additional: Seq::empty(),
        },
    }
}

/// What a member that may be a text holds: the text of a string, nothing for
/// `null`. Any other value is refused.
pub open spec fn optional_string(value: ValueView) -> Option<Option<Seq<char>>> {
    match value {
        ValueView::String(s) => Some(Some(s)),
        ValueView::Null => Some(None),
        _ => None,
    }
}

/// The decimal of its parts.
pub open spec fn decimal_of(parts: Option<(bool, u128, u32)>) -> Option<Decimal> {
    match parts {
        Some((negative, mantissa, scale)) => Some(Decimal { negative, mantissa, scale }),
        None => None,
    }
}

/// What a member that may be a decimal holds: the decimal of a number, or of
/// a string that holds one, nothing for `null`. Any other value is refused.
pub open spec fn optional_decimal(value: ValueView) -> Option<Option<Decimal>> {
    match value {
        ValueView::Null => Some(None),
        ValueView::Number(text) => match decimal_of(json_decimal(text)) {
            Some(d) => Some(Some(d)),
            None => None,
        },
        ValueView::String(s) => match decimal_of(json_decimal(json_string(s))) {
            Some(d) => Some(Some(d)),
            None => None,
        },
        _ => None,
    }
}

/// What a member that may be a whole number up to `max` holds: the number
/// that is written in digits alone, nothing for `null`. Any other value is
/// refused.
pub open spec fn optional_uint(value: ValueView, max: nat) -> Option<Option<nat>> {
    match value {
        ValueView::Null => Some(None),
        ValueView::Number(text) => match parse_uint(text) {
            Some(n) => if n <= max {
                Some(Some(n))
            } else {
                None
            },
            None => None,
        },
        _ => None,
    }
}

/// The level that a member holds.
pub open spec fn optional_level(value: ValueView) -> Option<Option<u8>> {
    match optional_uint(value, u8::MAX as nat) {
        Some(Some(n)) => Some(Some(n as u8)),
        Some(None) => Some(None),
        None => None,
    }
}

/// The line that a member holds.
pub open spec fn optional_line(value: ValueView) -> Option<Option<u32>> {
    match optional_uint(value, u32::MAX as nat) {
        Some(Some(n)) => Some(Some(n as u32)),
        Some(None) => Some(None),
        None => None,
    }
}

/// An envelope with one more member. The built-in fields must hold what they
/// are to hold, or the envelope is refused. Any other member is additional.
pub open spec fn draft_with(draft: Draft, name: Seq<char>, value: ValueView) -> Option<Draft> {
    let rest = draft.rest;
    if name == "version"@ {
        match optional_string(value) {
            Some(version) => Some(Draft { rest: MessageView { version, ..rest }, ..draft }),
            None => None,
        }
    } else if name == "host"@ {
        match optional_string(value) {
            Some(host) => Some(Draft { rest: MessageView { host, ..rest }, ..draft }),
            None => None,
        }
    } else if name == "short_message"@ {
        match value {
            ValueView::String(s) => Some(Draft { short_message: Some(s), ..draft }),
            _ => None,
        }
    } else if name == "full_message"@ {
        match optional_string(value) {
            Some(full_message) => Some(Draft { rest: MessageView { full_message, ..rest }, ..draft }),
            None => None,
        }
    } else if name == "timestamp"@ {
        match optional_decimal(value) {
            Some(timestamp) => Some(Draft { rest: MessageView { timestamp, ..rest }, ..draft }),
            None => None,
        }
    } else if name == "level"@ {
        match optional_level(value) {
            Some(level) => Some(Draft { rest: MessageView { level, ..rest }, ..draft }),
            None => None,
        }
    } else if name == "facility"@ {
        match optional_string(value) {
            Some(facility) => Some(Draft { rest: MessageView { facility, ..rest }, ..draft }),
            None => None,
        }
    } else if name == "line"@ {
        match optional_line(value) {
            Some(line) => Some(Draft { rest: MessageView { line, ..rest }, ..draft }),
            None => None,
        }
    } else if name == "file"@ {
        match optional_string(value) {
            Some(file) => Some(Draft { rest: MessageView { file, ..rest }, ..draft }),
            None => None,
        }
    } else {
        Some(
            Draft {
                rest: MessageView { additional: rest.additional.push((name, value)), ..rest },
                ..draft
            },
        )
    }
}

/// The envelope that members make, read one by one; none where one of them is
/// refused.
pub open spec fn draft_of(members: Seq<(Seq<char>, ValueView)>) -> Option<Draft>
    decreases members.len(),
{
    if members.len() == 0 {
        Some(empty_draft())
    } else {
        match draft_of(members.drop_last()) {
            Some(draft) => draft_with(draft, members.last().0, members.last().1),
            None => None,
        }
    }
}

/// The GELF message that the members of an object make. An object with a
/// built-in field of the wrong type is refused, and so is one without a
/// short message.
pub open spec fn gelf_of(members: Seq<(Seq<char>, ValueView)>) -> Result<MessageView, Seq<char>> {
    match draft_of(members) {
        None => Err(ERR_INVALID_FIELD@),
        Some(draft) => match draft.short_message {
            None => Err(ERR_MISSING_SHORT_MESSAGE@),
            Some(short_message) => Ok(MessageView { short_message, ..draft.rest }),
        },
    }
}

/// The view of what reading an envelope gives.
pub open spec fn gelf_view(r: Result<Message, Error>) -> Result<MessageView, Seq<char>> {
    match r {
        Ok(m) => Ok(m@),
        Err(e) => Err(e@),
    }
}

/// An envelope of which a beginning is refused is refused.
pub proof fn lemma_draft_of_prefix(members: Seq<(Seq<char>, ValueView)>, k: int)
    requires
        0 <= k <= members.len(),
    ensures
        draft_of(members.take(k)) is None ==> draft_of(members) is None,
    decreases members.len(),
{
    if k < members.len() {
        assert(members.drop_last().take(k) =~= members.take(k));
        lemma_draft_of_prefix(members.drop_last(), k);
    } else {
        assert(members.take(k) =~= members);
    }
}

fn owned_string(value: &Value) -> (r: Option<Option<String>>)
    ensures
        match r {
            Some(text) => optional_string(value@) == Some(string_view(text)),
            None => optional_string(value@) is None,
        },
{
    match value {
        Value::String(s) => Some(Some(s.clone())),
        Value::Null => Some(None),
        _ => None,
    }
}

fn owned_decimal(value: &Value) -> (r: Option<Option<Decimal>>)
    ensures
        r == optional_decimal(value@),
{
    let parts = match value {
        Value::Null => {
            return Some(None);
        },
        Value::Number(text) => read_decimal(text.as_str()),
        Value::String(s) => {
            let text = quote(s.as_str());
            read_decimal(text.as_str())
        },
        _ => {
            return None;
        },
    };
    match parts {
        Some((negative, mantissa, scale)) => Some(Some(Decimal { negative, mantissa, scale })),
        None => None,
    }
}

fn owned_uint(value: &Value, max: u64) -> (r: Option<Option<u64>>)
    ensures
        match r {
            Some(Some(n)) => optional_uint(value@, max as nat) == Some(Some(n as nat)),
            Some(None) => optional_uint(value@, max as nat) == Some(None::<nat>),
            None => optional_uint(value@, max as nat) is None,
        },
{
    match value {
        Value::Null => Some(None),
        Value::Number(text) => match parse_u64(text.as_str()) {
            Some(n) => if n <= max {
                Some(Some(n))
            } else {
                None
            },
            None => None,
        },
        _ => None,
    }
}

impl Message {
    /// The GELF message that the members of an object make.
    pub fn from_entries(entries: &Vec<(String, Value)>) -> (r: Result<Message, Error>)
        ensures
            gelf_view(r) == gelf_of(pairs(entries@)),
    {
        let mut short_message: Option<String> = None;
        let mut message = Message {
            version: None,
            host: None,
            short_message: String::new(),
            full_message: None,
            timestamp: None,
            level: None,
            facility: None,
            line: None,
            file: None,
            additional: Vec::new(),
        };
        let ghost members = pairs(entries@);
        let mut i: usize = 0;
        proof {
            assert(members.take(0) =~= Seq::<(Seq<char>, ValueView)>::empty());
            assert(message@.additional =~= Seq::<(Seq<char>, ValueView)>::empty());
        }
        while i < entries.len()
            invariant
                i <= entries@.len(),
                members == pairs(entries@),
                draft_of(members.take(i as int)) == Some(
                    Draft { short_message: string_view(short_message), rest: message@ },
                ),
            decreases entries@.len() - i,
        {
            let name: &str = entries[i].0.as_str();
            let value: &Value = &entries[i].1;
            proof {
                assert(members.take(i + 1).drop_last() =~= members.take(i as int));
                assert(members.take(i + 1).last() == members[i as int]);
                assert(members[i as int] == (name@, value@));
                lemma_draft_of_prefix(members, i + 1);
            }
            let ghost before = Draft { short_message: string_view(short_message), rest: message@ };
            let ghost step = draft_with(before, name@, value@);
            if same_text(name, "version") {
                match owned_string(value) {
                    Some(text) => {
                        message.version = text;
                    },
                    None => {
                        return Err(Error::msg(ERR_INVALID_FIELD));
                    },
                }
            } else if same_text(name, "host") {
                match owned_string(value) {
                    Some(text) => {
                        message.host = text;
                    },
                    None => {
                        return Err(Error::msg(ERR_INVALID_FIELD));
                    },
                }
            } else if same_text(name, "short_message") {
                match value {
                    Value::String(s) => {
                        short_message = Some(s.clone());
                    },
                    _ => {
                        return Err(Error::msg(ERR_INVALID_FIELD));
                    },
                }
            } else if same_text(name, "full_message") {
                match owned_string(value) {
                    Some(text) => {
                        message.full_message = text;
                    },
                    None => {
                        return Err(Error::msg(ERR_INVALID_FIELD));
                    },
                }
            } else if same_text(name, "timestamp") {
                match owned_decimal(value) {
                    Some(decimal) => {
                        message.timestamp = decimal;
                    },
                    None => {
                        return Err(Error::msg(ERR_INVALID_FIELD));
                    },
                }
            } else if same_text(name, "level") {
                match owned_uint(value, 255) {
                    Some(Some(n)) => {
                        message.level = Some(n as u8);
                    },
                    Some(None) => {
                        message.level = None;
                    },
                    None => {
                        return Err(Error::msg(ERR_INVALID_FIELD));
                    },
                }
            } else if same_text(name, "facility") {
                match owned_string(value) {
                    Some(text) => {
                        message.facility = text;
                    },
                    None => {
                        return Err(Error::msg(ERR_INVALID_FIELD));
                    },
                }
            } else if same_text(name, "line") {
                match owned_uint(value, 0xffff_ffff) {
                    Some(Some(n)) => {
                        message.line = Some(n as u32);
                    },
                    Some(None) => {
                        message.line = None;
                    },
                    None => {
                        return Err(Error::msg(ERR_INVALID_FIELD));
                    },
                }
            } else if same_text(name, "file") {
                match owned_string(value) {
                    Some(text) => {
                        message.file = text;
                    },
                    None => {
                        return Err(Error::msg(ERR_INVALID_FIELD));
                    },
                }
            } else {
                message.additional.push((name.to_owned(), value.clone()));
                assert(message@.additional =~= before.rest.additional.push((name@, value@)));
            }
            assert(step == Some(
                Draft { short_message: string_view(short_message), rest: message@ },
            ));
            i += 1;
        }
        assert(members.take(i as int) =~= members);
        match short_message {
            Some(text) => {
                message.short_message = text;
                Ok(message)
            },
            None => Err(Error::msg(ERR_MISSING_SHORT_MESSAGE)),
        }
    }

    /// Puts a member among the additional ones, unless one of its name is
    /// there already. Says whether it did.
    pub fn add(&mut self, k: &str, v: Value) -> (added: bool)
        ensures
            added == !has_name(old(self)@.additional, k@),
            added ==> final(self)@ == (MessageView {
                additional: old(self)@.additional.push((k@, v@)),
                ..old(self)@
            }),
            !added ==> final(self)@ == old(self)@,
    {
        let key = k.to_owned();
        let mut i: usize = 0;
        while i < self.additional.len()
            invariant
                i <= self.additional@.len(),
                key@ == k@,
                *self == *old(self),
                forall|j: int| 0 <= j < i ==> (#[trigger] self@.additional[j]).0 != k@,
            decreases self.additional@.len() - i,
        {
            if self.additional[i].0 == key {
                assert(self@.additional[i as int].0 == k@);
                return false;
            }
            i += 1;
        }
        self.additional.push((key, v));
        assert(self@.additional =~= old(self)@.additional.push((k@, v@)));
        true
    }
}

} // verus!
