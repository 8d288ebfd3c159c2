//! JSON values as the gateway sees them, and the calls that read and write
//! JSON text.
//!
//! The gateway looks at the members of one object at a time. Of a member it
//! needs to know whether it is a string, a number or `null`; whatever lies
//! deeper is carried along as text.
use vstd::prelude::*;
use vstd::string::*;

use crate::error::Error;

verus! {

/// A JSON value. Numbers, arrays and objects are held as compact JSON text.
#[derive(Debug, PartialEq, Eq)]
pub enum Value {
    Null,
    Bool(bool),
    Number(String),
    String(String),
    Array(String),
    Object(String),
}

/// What a JSON value holds.
pub enum ValueView {
    Null,
    Bool(bool),
    Number(Seq<char>),
    String(Seq<char>),
    Array(Seq<char>),
    Object(Seq<char>),
}

impl View for Value {
    type V = ValueView;

    open spec fn view(&self) -> ValueView {
        match self {
            Value::Null => ValueView::Null,
            Value::Bool(b) => ValueView::Bool(*b),
            Value::Number(t) => ValueView::Number(t@),
            Value::String(s) => ValueView::String(s@),
            Value::Array(t) => ValueView::Array(t@),
            Value::Object(t) => ValueView::Object(t@),
        }
    }
}

impl Clone for Value {
    fn clone(&self) -> (r: Value)
        ensures
            r@ == self@,
    {
        match self {
            Value::Null => Value::Null,
            Value::Bool(b) => Value::Bool(*b),
            Value::Number(t) => Value::Number(t.clone()),
            Value::String(s) => Value::String(s.clone()),
            Value::Array(t) => Value::Array(t.clone()),
            Value::Object(t) => Value::Object(t.clone()),
        }
    }
}

/// The JSON text of a string, with its quotes, as `serde_json::to_string`
/// writes it.
pub uninterp spec fn json_string(s: Seq<char>) -> Seq<char>;

/// The members of the JSON object that `bytes` hold, as `serde_json::from_slice`
/// reads them into a `serde_json::Map`, each in the order of the map and with
/// its value as a `Value` of this module; none where `serde_json` reports an
/// error.
pub uninterp spec fn json_object(bytes: Seq<u8>) -> Option<Seq<(Seq<char>, ValueView)>>;

/// The decimal that `serde_json::from_str` reads from JSON text as a
/// `rust_decimal::Decimal`: whether its sign is negative, its mantissa without
/// the sign, and its scale; none where an error is reported.
pub uninterp spec fn json_decimal(text: Seq<char>) -> Option<(bool, u128, u32)>;

/// The characters that `String::from_utf8_lossy` makes of bytes.
pub uninterp spec fn utf8_lossy(bytes: Seq<u8>) -> Seq<char>;

/// The JSON text of a value.
pub open spec fn json_text(v: ValueView) -> Seq<char> {
    match v {
        ValueView::Null => "null"@,
        ValueView::Bool(b) => if b {
            "true"@
        } else {
            "false"@
        },
        ValueView::Number(t) => t,
        ValueView::String(s) => json_string(s),
        ValueView::Array(t) => t,
        ValueView::Object(t) => t,
    }
}

/// Writes a string as JSON text with `serde_json::to_string`, which puts it in
/// quotes and escapes what JSON does not take as it is. Writing a string to
/// memory does not fail.
#[verifier::external_body]
pub(crate) fn quote(s: &str) -> (r: String)
    ensures
        r@ == json_string(s@),
{
    match serde_json::to_string(s) {
        Ok(text) => text,
        Err(_) => String::new(),
    }
}

/// Reads JSON text as a `serde_json::Map` with `serde_json::from_slice`, and
/// hands out its members in the order of the map. A string is handed out
/// as it is, a number, an array and an object as the text that `serde_json`
/// writes for it. Where `serde_json` reports an error, its message is handed
/// out; nothing is known of that message.
#[verifier::external_body]
fn read_object(bytes: &[u8]) -> (r: Result<Vec<(String, Value)>, String>)
    ensures
        r is Ok <==> json_object(bytes@) is Some,
        r matches Ok(entries) ==> Some(pairs(entries@)) == json_object(bytes@),
{
    let map: serde_json::Map<String, serde_json::Value> =
        serde_json::from_slice(bytes).map_err(|e| e.to_string())?;
    Ok(map.into_iter().map(|(k, v)| (k, match v {
        serde_json::Value::Null => Value::Null,
        serde_json::Value::Bool(b) => Value::Bool(b),
        serde_json::Value::Number(n) => Value::Number(n.to_string()),
        serde_json::Value::String(s) => Value::String(s),
        v @ serde_json::Value::Array(_) => Value::Array(v.to_string()),
        v @ serde_json::Value::Object(_) => Value::Object(v.to_string()),
    })).collect())
}

/// Reads JSON text as a `rust_decimal::Decimal` with `serde_json::from_str`,
/// and hands out the sign, the mantissa without the sign, and the scale.
#[verifier::external_body]
pub(crate) fn read_decimal(text: &str) -> (r: Option<(bool, u128, u32)>)
    ensures
        r == json_decimal(text@),
{
    let d: rust_decimal::Decimal = serde_json::from_str(text).ok()?;
    Some((d.is_sign_negative(), d.mantissa().unsigned_abs(), d.scale()))
}

/// Makes a string of bytes with `String::from_utf8_lossy`, which puts the
/// replacement character where the bytes are not UTF-8.
#[verifier::external_body]
pub(crate) fn lossy(bytes: &[u8]) -> (r: String)
    ensures
        r@ == utf8_lossy(bytes@),
{
    String::from_utf8_lossy(bytes).into_owned()
}

/// The names and values of members.
pub open spec fn pairs(entries: Seq<(String, Value)>) -> Seq<(Seq<char>, ValueView)> {
    Seq::new(entries.len(), |i: int| (entries[i].0@, entries[i].1@))
}

/// The members of the JSON object that `bytes` hold. Where they hold no JSON
/// object, the error carries what `serde_json` says of it.
pub fn parse_object(bytes: &[u8]) -> (r: Result<Vec<(String, Value)>, Error>)
    ensures
        r is Ok <==> json_object(bytes@) is Some,
        r matches Ok(entries) ==> Some(pairs(entries@)) == json_object(bytes@),
{
    match read_object(bytes) {
        Ok(entries) => Ok(entries),
        Err(text) => Err(Error::msg(text.as_str())),
    }
}

impl Value {
    /// The string, where the value is one.
    pub fn as_str(&self) -> (r: Option<&str>)
        ensures
            self@ matches ValueView::String(s) ==> r matches Some(t) && t@ == s,
            !(self@ is String) ==> r is None,
    {
        match self {
            Value::String(s) => Some(s.as_str()),
            _ => None,
        }
    }

    /// The JSON text of the value.
    pub fn to_json(&self) -> (r: String)
        ensures
            r@ == json_text(self@),
    {
        match self {
            Value::Null => "null".to_owned(),
            Value::Bool(b) => if *b {
                "true".to_owned()
            } else {
                "false".to_owned()
            },
            Value::Number(t) => t.clone(),
            Value::String(s) => quote(s.as_str()),
            Value::Array(t) => t.clone(),
            Value::Object(t) => t.clone(),
        }
    }
}

/// The digit that stands for a number below ten.
pub open spec fn digit_char(d: nat) -> char {
    if d == 0 {
        '0'
    } else if d == 1 {
        '1'
    } else if d == 2 {
        '2'
    } else if d == 3 {
        '3'
    } else if d == 4 {
        '4'
    } else if d == 5 {
        '5'
    } else if d == 6 {
        '6'
    } else if d == 7 {
        '7'
    } else if d == 8 {
        '8'
    } else {
        '9'
    }
}

/// The number that a digit stands for.
pub open spec fn digit_value(c: char) -> Option<nat> {
    if c == '0' {
        Some(0nat)
    } else if c == '1' {
        Some(1nat)
    } else if c == '2' {
        Some(2nat)
    } else if c == '3' {
        Some(3nat)
    } else if c == '4' {
        Some(4nat)
    } else if c == '5' {
        Some(5nat)
    } else if c == '6' {
        Some(6nat)
    } else if c == '7' {
        Some(7nat)
    } else if c == '8' {
        Some(8nat)
    } else if c == '9' {
        Some(9nat)
    } else {
        None
    }
}

/// The number that a text of digits stands for; none where the text is empty
/// or holds anything but digits.
pub open spec fn parse_uint(text: Seq<char>) -> Option<nat>
    decreases text.len(),
{
    if text.len() == 0 {
        None
    } else {
        match digit_value(text.last()) {
            None => None,
            Some(d) => if text.len() == 1 {
                Some(d)
            } else {
                match parse_uint(text.drop_last()) {
                    None => None,
                    Some(n) => Some(n * 10 + d),
                }
            },
        }
    }
}

/// The digits of a number, without a zero in front.
pub open spec fn uint_text(n: nat) -> Seq<char>
    decreases n,
{
    if n < 10 {
        seq![digit_char(n)]
    } else {
        uint_text(n / 10).push(digit_char(n % 10))
    }
}

fn digit_of(c: char) -> (r: Option<u64>)
    ensures
        digit_value(c) matches Some(d) ==> r == Some(d as u64),
        digit_value(c) is None ==> r is None,
{
    if c == '0' {
        Some(0)
    } else if c == '1' {
        Some(1)
    } else if c == '2' {
        Some(2)
    } else if c == '3' {
        Some(3)
    } else if c == '4' {
        Some(4)
    } else if c == '5' {
        Some(5)
    } else if c == '6' {
        Some(6)
    } else if c == '7' {
        Some(7)
    } else if c == '8' {
        Some(8)
    } else if c == '9' {
        Some(9)
    } else {
        None
    }
}

fn digit_str(d: u64) -> (r: &'static str)
    requires
        d < 10,
    ensures
        r@ == seq![digit_char(d as nat)],
{
    proof {
        reveal_strlit("0");
        reveal_strlit("1");
        reveal_strlit("2");
        reveal_strlit("3");
        reveal_strlit("4");
        reveal_strlit("5");
        reveal_strlit("6");
        reveal_strlit("7");
        reveal_strlit("8");
        reveal_strlit("9");
    }
    let r = if d == 0 {
        "0"
    } else if d == 1 {
        "1"
    } else if d == 2 {
        "2"
    } else if d == 3 {
        "3"
    } else if d == 4 {
        "4"
    } else if d == 5 {
        "5"
    } else if d == 6 {
        "6"
    } else if d == 7 {
        "7"
    } else if d == 8 {
        "8"
    } else {
        "9"
    };
    assert(r@ =~= seq![digit_char(d as nat)]);
    r
}

/// Reads a text of digits as a number; none where the text is not one, or
/// the number is too large.
pub fn parse_u64(text: &str) -> (r: Option<u64>)
    ensures
        r matches Some(n) ==> parse_uint(text@) == Some(n as nat),
        r is None ==> (parse_uint(text@) matches Some(n) ==> n > u64::MAX),
{
    let len = text.unicode_len();
    if len == 0 {
        return None;
    }
    let mut acc: u64 = 0;
    let mut i: usize = 0;
    while i < len
        invariant
            i <= len,
            len == text@.len(),
            i > 0 ==> parse_uint(text@.take(i as int)) == Some(acc as nat),
            i == 0 ==> acc == 0,
        decreases len - i,
    {
        let c = text.get_char(i);
        let ghost prefix = text@.take(i as int);
        let ghost next = text@.take(i + 1);
        assert(next.drop_last() =~= prefix);
        assert(next.last() == c);
        match digit_of(c) {
            None => {
                proof {
                    lemma_parse_uint_prefix(text@, i + 1);
                }
                return None;
            },
            Some(d) => {
                let shifted = match acc.checked_mul(10) {
                    Some(s) => s.checked_add(d),
                    None => None,
                };
                match shifted {
                    Some(s) => {
                        acc = s;
                    },
                    None => {
                        proof {
                            lemma_parse_uint_prefix(text@, i + 1);
                            lemma_parse_uint_grows(text@, i + 1);
                        }
                        return None;
                    },
                }
            },
        }
        i += 1;
    }
    assert(text@.take(len as int) =~= text@);
    Some(acc)
}

/// A text is read as a number only if each of its beginnings is.
pub proof fn lemma_parse_uint_prefix(text: Seq<char>, k: int)
    requires
        1 <= k <= text.len(),
    ensures
        parse_uint(text) is Some ==> parse_uint(text.take(k)) is Some,
    decreases text.len(),
{
    if k < text.len() {
        assert(text.drop_last().take(k) =~= text.take(k));
        lemma_parse_uint_prefix(text.drop_last(), k);
    } else {
        assert(text.take(k) =~= text);
    }
}

/// The number of a text is not below the number of any of its beginnings.
pub proof fn lemma_parse_uint_grows(text: Seq<char>, k: int)
    requires
        1 <= k <= text.len(),
    ensures
        parse_uint(text) matches Some(n) ==> (parse_uint(text.take(k)) matches Some(m) && m <= n),
    decreases text.len(),
{
    if k < text.len() {
        assert(text.drop_last().take(k) =~= text.take(k));
        lemma_parse_uint_grows(text.drop_last(), k);
    } else {
        assert(text.take(k) =~= text);
    }
}

/// Writes a number in digits.
pub fn u64_text(n: u64) -> (r: String)
    ensures
        r@ == uint_text(n as nat),
    decreases n,
{
    if n < 10 {
        digit_str(n).to_owned()
    } else {
        let front = u64_text(n / 10);
        front.concat(digit_str(n % 10))
    }
}

/// The members of an object, each name once.
///
/// It stands where a map by name would: a name is found, put in and replaced
/// as in a map. The members keep the order in which they were put in.
#[derive(Debug)]
pub struct Fields {
    entries: Vec<(String, Value)>,
}

/// Whether no name stands twice.
pub open spec fn distinct_names(entries: Seq<(Seq<char>, ValueView)>) -> bool {
    forall|i: int, j: int|
        0 <= i < j < entries.len() ==> (#[trigger] entries[i]).0 != (#[trigger] entries[j]).0
}

/// Whether a member with this name is among `entries`.
pub open spec fn has_name(entries: Seq<(Seq<char>, ValueView)>, name: Seq<char>) -> bool {
    exists|i: int| 0 <= i < entries.len() && (#[trigger] entries[i]).0 == name
}

/// The place of the member with this name.
pub open spec fn place_of(entries: Seq<(Seq<char>, ValueView)>, name: Seq<char>) -> int {
    choose|i: int| 0 <= i < entries.len() && (#[trigger] entries[i]).0 == name
}

/// The members as a map from name to value.
pub open spec fn map_of(entries: Seq<(Seq<char>, ValueView)>) -> Map<Seq<char>, ValueView> {
    Map::new(
        |name: Seq<char>| has_name(entries, name),
        |name: Seq<char>| entries[place_of(entries, name)].1,
    )
}

impl Fields {
    #[verifier::type_invariant]
    spec fn inv(&self) -> bool {
        distinct_names(pairs(self.entries@))
    }

    /// The members in their order.
    pub closed spec fn entries(&self) -> Seq<(Seq<char>, ValueView)> {
        pairs(self.entries@)
    }

    /// No members.
    pub fn new() -> (f: Fields)
        ensures
            f.entries() == Seq::<(Seq<char>, ValueView)>::empty(),
            f@ == Map::<Seq<char>, ValueView>::empty(),
    {
        let f = Fields { entries: Vec::new() };
        assert(f.entries() =~= Seq::<(Seq<char>, ValueView)>::empty());
        assert(f@ =~= Map::<Seq<char>, ValueView>::empty());
        f
    }

    /// The number of members. No two of them have the same name.
    pub fn len(&self) -> (n: usize)
        ensures
            n == self.entries().len(),
            distinct_names(self.entries()),
    {
        proof {
            use_type_invariant(self);
        }
        self.entries.len()
    }

    /// The name of the member at `i`.
    pub fn name(&self, i: usize) -> (r: &str)
        requires
            i < self.entries().len(),
        ensures
            r@ == self.entries()[i as int].0,
    {
        self.entries[i].0.as_str()
    }

    /// The value of the member at `i`.
    pub fn value(&self, i: usize) -> (r: &Value)
        requires
            i < self.entries().len(),
        ensures
            r@ == self.entries()[i as int].1,
    {
        &self.entries[i].1
    }

    /// The value of the member with this name.
    pub fn get(&self, name: &str) -> (r: Option<&Value>)
        ensures
            r matches Some(v) ==> self@.contains_key(name@) && v@ == self@[name@],
            r is None ==> !self@.contains_key(name@),
    {
        proof {
            use_type_invariant(self);
        }
        let key = name.to_owned();
        match find(&self.entries, &key) {
            Some(i) => {
                proof {
                    lemma_map_of_at(self.entries(), i as int);
                }
                Some(&self.entries[i].1)
            },
            None => None,
        }
    }

    /// Whether there is a member with this name.
    pub fn contains_key(&self, name: &str) -> (r: bool)
        ensures
            r == self@.contains_key(name@),
    {
        let key = name.to_owned();
        match find(&self.entries, &key) {
            Some(i) => {
                assert(self.entries()[i as int].0 == name@);
                true
            },
            None => false,
        }
    }

    /// Puts a member in. Where the name is there already, the value takes the
    /// place of the old one, which is handed back; else the member is put at
    /// the end.
    pub fn insert(&mut self, name: String, value: Value) -> (r: Option<Value>)
        ensures
            final(self)@ == old(self)@.insert(name@, value@),
            r matches Some(v) ==> old(self)@.contains_key(name@) && v@ == old(self)@[name@],
            r is None ==> !old(self)@.contains_key(name@),
            r is None ==> final(self).entries() == old(self).entries().push((name@, value@)),
            r is Some ==> final(self).entries().len() == old(self).entries().len(),
    {
        let mut taken = Fields { entries: Vec::new() };
        assert(pairs(taken.entries@) =~= Seq::<(Seq<char>, ValueView)>::empty());
        std::mem::swap(self, &mut taken);
        proof {
            use_type_invariant(&taken);
        }
        let mut entries = taken.entries;
        let ghost before = pairs(entries@);
        match find(&entries, &name) {
            Some(i) => {
                let mut entry: (String, Value) = (name, value);
                let ghost put = (entry.0@, entry.1@);
                std::mem::swap(&mut entries[i], &mut entry);
                proof {
                    assert(pairs(entries@) =~= before.update(i as int, put));
                    lemma_map_of_at(before, i as int);
                    lemma_map_of_update(before, i as int, put.1);
                }
                *self = Fields { entries };
                Some(entry.1)
            },
            None => {
                let ghost put = (name@, value@);
                entries.push((name, value));
                proof {
                    assert(pairs(entries@) =~= before.push(put));
                    lemma_map_of_push(before, put);
                }
                *self = Fields { entries };
                None
            },
        }
    }
}

/// The place of the member with this name.
fn find(entries: &Vec<(String, Value)>, name: &String) -> (r: Option<usize>)
    ensures
        r matches Some(i) ==> i < entries@.len() && pairs(entries@)[i as int].0 == name@,
        r is None ==> !has_name(pairs(entries@), name@),
{
    let mut i: usize = 0;
    while i < entries.len()
        invariant
            i <= entries@.len(),
            forall|j: int| 0 <= j < i ==> (#[trigger] pairs(entries@)[j]).0 != name@,
        decreases entries@.len() - i,
    {
        if entries[i].0 == *name {
            return Some(i);
        }
        i += 1;
    }
    None
}

impl View for Fields {
    type V = Map<Seq<char>, ValueView>;

    open spec fn view(&self) -> Map<Seq<char>, ValueView> {
        map_of(self.entries())
    }
}

/// Among members with distinct names, the map has under a name the value that
/// stands with it.
pub proof fn lemma_map_of_at(entries: Seq<(Seq<char>, ValueView)>, i: int)
    requires
        distinct_names(entries),
        0 <= i < entries.len(),
    ensures
        map_of(entries).contains_key(entries[i].0),
        map_of(entries)[entries[i].0] == entries[i].1,
{
    assert(has_name(entries, entries[i].0));
    let j = place_of(entries, entries[i].0);
    assert(entries[j].0 == entries[i].0);
    assert(i == j);
}

/// A new value at a place is a new value under the name of the place.
pub proof fn lemma_map_of_update(entries: Seq<(Seq<char>, ValueView)>, i: int, value: ValueView)
    requires
        distinct_names(entries),
        0 <= i < entries.len(),
    ensures
        distinct_names(entries.update(i, (entries[i].0, value))),
        map_of(entries.update(i, (entries[i].0, value))) == map_of(entries).insert(
            entries[i].0,
            value,
        ),
{
    let name = entries[i].0;
    let after = entries.update(i, (name, value));
    assert(distinct_names(after)) by {
        assert forall|a: int, b: int| 0 <= a < b < after.len() implies (#[trigger] after[a]).0 != (
        #[trigger] after[b]).0 by {
            assert(after[a].0 == entries[a].0);
            assert(after[b].0 == entries[b].0);
        }
    }
    assert forall|k: Seq<char>| #[trigger] has_name(after, k) <==> has_name(entries, k) by {
        if has_name(after, k) {
            let j = place_of(after, k);
            assert(entries[j].0 == k);
        }
        if has_name(entries, k) {
            let j = place_of(entries, k);
            assert(after[j].0 == k);
        }
    }
    assert forall|k: Seq<char>| #[trigger] has_name(after, k) implies map_of(after)[k] == map_of(
        entries,
    ).insert(name, value)[k] by {
        let j = place_of(after, k);
        assert(after[j].0 == k);
        lemma_map_of_at(after, j);
        if k != name {
            assert(j != i);
            lemma_map_of_at(entries, j);
        }
    }
    assert(has_name(entries, name));
    assert(map_of(after) =~= map_of(entries).insert(name, value));
}

/// A member with a new name at the end is a new entry of the map.
pub proof fn lemma_map_of_push(entries: Seq<(Seq<char>, ValueView)>, put: (Seq<char>, ValueView))
    requires
        distinct_names(entries),
        !has_name(entries, put.0),
    ensures
        distinct_names(entries.push(put)),
        map_of(entries.push(put)) == map_of(entries).insert(put.0, put.1),
{
    let after = entries.push(put);
    assert(distinct_names(after)) by {
        assert forall|a: int, b: int| 0 <= a < b < after.len() implies (#[trigger] after[a]).0 != (
        #[trigger] after[b]).0 by {
            if b == entries.len() {
                assert(entries[a].0 != put.0);
            } else {
                assert(after[a] == entries[a] && after[b] == entries[b]);
            }
        }
    }
    assert forall|k: Seq<char>| #[trigger] has_name(after, k) <==> (has_name(entries, k) || k
        == put.0) by {
        if has_name(after, k) {
            let j = place_of(after, k);
            if j < entries.len() {
                assert(entries[j].0 == k);
            }
        }
        if has_name(entries, k) {
            let j = place_of(entries, k);
            assert(after[j].0 == k);
        }
        if k == put.0 {
            assert(after[entries.len() as int].0 == k);
        }
    }
    assert forall|k: Seq<char>| #[trigger] has_name(after, k) implies map_of(after)[k] == map_of(
        entries,
    ).insert(put.0, put.1)[k] by {
        let j = place_of(after, k);
        assert(after[j].0 == k);
        lemma_map_of_at(after, j);
        if k != put.0 {
            assert(j < entries.len());
            lemma_map_of_at(entries, j);
        }
    }
    assert(map_of(after) =~= map_of(entries).insert(put.0, put.1));
}

} // verus!
