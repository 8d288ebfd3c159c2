//! What holds of every event that a message is mapped to.
use vstd::prelude::*;

use crate::process::applied;
use crate::process::base_spec;
use crate::process::clef::embedded_spec;
use crate::process::clef::lemma_decimal_nanos_is_floor;
use crate::process::clef::decimal_nanos;
use crate::process::clef::Decimal;
use crate::process::clef::MessageView;
use crate::process::clef::MAX_SECS;
use crate::process::clef::NANOS_PER_SEC;
use crate::process::fallback;
use crate::process::gelf;
use crate::process::json::ValueView;
use crate::process::level_name;
use crate::process::overridden;
use crate::process::shadow;
use crate::process::to_clef_spec;
use crate::process::writes;

verus! {

/// Whether a text is one of the eight names of Syslog levels.
pub open spec fn is_syslog_name(name: Seq<char>) -> bool {
    ||| name == "emerg"@
    ||| name == "alert"@
    ||| name == "crit"@
    ||| name == "err"@
    ||| name == "warning"@
    ||| name == "notice"@
    ||| name == "info"@
    ||| name == "debug"@
}

/// The message of an event is the short message, where the short message
/// carries no CLEF document of its own.
pub proof fn lemma_message_is_short_message(gelf: gelf::MessageView, now: (u64, u32))
    requires
        embedded_spec(gelf.short_message) is None,
    ensures
        to_clef_spec(gelf, base_spec(gelf.short_message), now).message == Some(gelf.short_message),
        to_clef_spec(gelf, base_spec(gelf.short_message), now).message_template is None,
{
}

/// An event has a message or a message template, and not both, unless its
/// base has both or the base has neither and the properties offer no message
/// in its place.
pub proof fn lemma_one_message_text(gelf: gelf::MessageView, base: MessageView, now: (u64, u32))
    requires
        !(base.message is Some && base.message_template is Some),
    ensures
        ({
            let event = to_clef_spec(gelf, base, now);
            let one = (event.message is Some) != (event.message_template is Some);
            &&& !(event.message is Some && event.message_template is Some)
            &&& !one <==> base.message is None && base.message_template is None && fallback(
                event.additional,
            ) is None
        }),
{
}

/// The level of an event is one of the eight Syslog names, where its base
/// names none of its own.
pub proof fn lemma_level_is_syslog_name(gelf: gelf::MessageView, base: MessageView, now: (u64, u32))
    requires
        base.level is None,
    ensures
        to_clef_spec(gelf, base, now).level matches Some(name) && is_syslog_name(name),
{
    let level = match gelf.level {
        Some(level) => level,
        None => 6u8,
    };
    assert(is_syslog_name(level_name(level)));
}

/// The timestamp of an event is that of the envelope to the nanosecond: it is
/// not after the decimal number of seconds that the envelope gives, and less
/// than a nanosecond before it. This holds where the base has no timestamp of
/// its own and the number is not negative and leads to a year up to 9999.
pub proof fn lemma_timestamp_within_a_nanosecond(
    gelf: gelf::MessageView,
    base: MessageView,
    now: (u64, u32),
    decimal: Decimal,
)
    requires
        base.timestamp is None,
        gelf.timestamp == Some(decimal),
        !decimal.negative,
        decimal_nanos(decimal) / (NANOS_PER_SEC as nat) < MAX_SECS,
    ensures
        ({
            let at = to_clef_spec(gelf, base, now).timestamp->0;
            let nanos = at.0 * NANOS_PER_SEC + at.1;
            &&& at.1 < NANOS_PER_SEC
            &&& nanos * vstd::arithmetic::power::pow(10, decimal.scale as nat) <= decimal.mantissa
                * vstd::arithmetic::power::pow(10, 9)
            &&& decimal.mantissa * vstd::arithmetic::power::pow(10, 9) < (nanos + 1)
                * vstd::arithmetic::power::pow(10, decimal.scale as nat)
        }),
{
    lemma_decimal_nanos_is_floor(decimal);
    let total = decimal_nanos(decimal);
    let n = NANOS_PER_SEC as nat;
    vstd::arithmetic::div_mod::lemma_fundamental_div_mod(total as int, n as int);
    assert(total == n * (total / n) + total % n);
    assert((total / n) * n == n * (total / n)) by (nonlinear_arith);
}

/// A name with `__` in front is another name, and tells the name.
pub proof fn lemma_shadow(a: Seq<char>, b: Seq<char>)
    ensures
        shadow(a) != a,
        shadow(a) == shadow(b) ==> a == b,
{
    reveal_strlit("__");
    assert(shadow(a).len() == a.len() + 2);
    if shadow(a) == shadow(b) {
        assert(shadow(a).subrange(2, shadow(a).len() as int) =~= a);
        assert(shadow(b).subrange(2, shadow(b).len() as int) =~= b);
    }
}

/// A property that is written over one of the same name takes the name, and
/// the one that gives way is found under the shadow of the name.
pub proof fn lemma_override_keeps_both(
    fields: Map<Seq<char>, ValueView>,
    name: Seq<char>,
    value: ValueView,
)
    requires
        fields.contains_key(name),
    ensures
        overridden(fields, name, value)[name] == value,
        overridden(fields, name, value)[shadow(name)] == fields[name],
        overridden(fields, name, value).contains_key(name),
        overridden(fields, name, value).contains_key(shadow(name)),
{
    lemma_shadow(name, name);
}

/// Whether a write leaves a name alone: it is neither to the name nor to a
/// name that has it for its shadow.
pub open spec fn leaves_alone(write: (Seq<char>, ValueView), name: Seq<char>) -> bool {
    write.0 != name && shadow(write.0) != name
}

/// Writes that leave a name alone leave what stands under it.
pub proof fn lemma_left_alone(
    fields: Map<Seq<char>, ValueView>,
    writes: Seq<(Seq<char>, ValueView)>,
    name: Seq<char>,
)
    requires
        forall|j: int| 0 <= j < writes.len() ==> leaves_alone(#[trigger] writes[j], name),
    ensures
        applied(fields, writes).contains_key(name) == fields.contains_key(name),
        fields.contains_key(name) ==> applied(fields, writes)[name] == fields[name],
    decreases writes.len(),
{
    if writes.len() > 0 {
        assert forall|j: int| 0 <= j < writes.drop_last().len() implies leaves_alone(
            #[trigger] writes.drop_last()[j],
            name,
        ) by {
            assert(writes.drop_last()[j] == writes[j]);
        }
        lemma_left_alone(fields, writes.drop_last(), name);
        assert(leaves_alone(writes[writes.len() - 1], name));
    }
}

/// Where a property of the envelope and a property of the base share a name,
/// the one of the envelope stands under the name in the event, and the one of
/// the base under the shadow of the name.
///
/// `i` is the place of the envelope's property among the writes. This holds
/// where no other write is to the name, none before it is to a name of which
/// the name is the shadow, and none after it is to the shadow of the name or
/// to a name of which the name is the shadow.
pub proof fn lemma_precedence(
    fields: Map<Seq<char>, ValueView>,
    writes: Seq<(Seq<char>, ValueView)>,
    i: int,
)
    requires
        0 <= i < writes.len(),
        fields.contains_key(writes[i].0),
        forall|j: int|
            0 <= j < writes.len() && j != i ==> leaves_alone(#[trigger] writes[j], writes[i].0),
        forall|j: int| i < j < writes.len() ==> (#[trigger] writes[j]).0 != shadow(writes[i].0),
    ensures
        applied(fields, writes).contains_key(writes[i].0),
        applied(fields, writes)[writes[i].0] == writes[i].1,
        applied(fields, writes).contains_key(shadow(writes[i].0)),
        applied(fields, writes)[shadow(writes[i].0)] == fields[writes[i].0],
    decreases writes.len(),
{
    let name = writes[i].0;
    let before = writes.drop_last();
    let last = writes.last();
    if i == writes.len() - 1 {
        assert forall|j: int| 0 <= j < before.len() implies leaves_alone(
            #[trigger] before[j],
            name,
        ) by {
            assert(before[j] == writes[j]);
        }
        lemma_left_alone(fields, before, name);
        lemma_override_keeps_both(applied(fields, before), name, last.1);
    } else {
        assert(before[i] == writes[i]);
        assert forall|j: int| 0 <= j < before.len() && j != i implies leaves_alone(
            #[trigger] before[j],
            before[i].0,
        ) by {
            assert(before[j] == writes[j]);
        }
        assert forall|j: int| i < j < before.len() implies (#[trigger] before[j]).0 != shadow(
            before[i].0,
        ) by {
            assert(before[j] == writes[j]);
        }
        lemma_precedence(fields, before, i);
        assert(leaves_alone(writes[writes.len() - 1], name));
        assert(writes[writes.len() - 1].0 != shadow(name));
        lemma_shadow(last.0, name);
    }
}

/// Where a property of the envelope and a property of the embedded CLEF
/// document share a name, the event has the one of the envelope under the
/// name and the one of the document under the name with `__` in front.
///
/// `i` is the place of the envelope's property among what the envelope
/// writes. The conditions are those of `lemma_precedence`.
pub proof fn lemma_envelope_takes_precedence(
    gelf: gelf::MessageView,
    base: MessageView,
    now: (u64, u32),
    i: int,
)
    requires
        0 <= i < writes(gelf).len(),
        base.additional.contains_key(writes(gelf)[i].0),
        forall|j: int|
            0 <= j < writes(gelf).len() && j != i ==> leaves_alone(
                #[trigger] writes(gelf)[j],
                writes(gelf)[i].0,
            ),
        forall|j: int|
            i < j < writes(gelf).len() ==> (#[trigger] writes(gelf)[j]).0 != shadow(
                writes(gelf)[i].0,
            ),
    ensures
        to_clef_spec(gelf, base, now).additional[writes(gelf)[i].0] == writes(gelf)[i].1,
        to_clef_spec(gelf, base, now).additional[shadow(writes(gelf)[i].0)]
            == base.additional[writes(gelf)[i].0],
{
    lemma_precedence(base.additional, writes(gelf), i);
}

} // verus!
