//! Text for diagnostics: how tags and payloads are shown.

use crate::nbt::types::{payload_values, tag_values, ID, Payload, PayloadValue, Tag, TagValue};
use vstd::prelude::*;
use vstd::string::StringExecFns;

verus! {

/// The decimal digits of the natural number `n`, without leading zeros.
pub open spec fn digits(n: nat) -> Seq<char>
    decreases n,
{
    if n < 10 {
        seq!["0123456789"@[n as int]]
    } else {
        digits(n / 10).push("0123456789"@[(n % 10) as int])
    }
}

/// The number `v` in decimal, with a minus sign where it is negative.
pub open spec fn decimal(v: int) -> Seq<char> {
    if v < 0 {
        "-"@ + digits((-v) as nat)
    } else {
        digits(v as nat)
    }
}

/// The texts `parts` with `", "` between each two of them.
pub open spec fn listed(parts: Seq<Seq<char>>) -> Seq<char>
    decreases parts.len(),
{
    if parts.len() == 0 {
        Seq::empty()
    } else if parts.len() == 1 {
        parts[0]
    } else {
        listed(parts.drop_last()) + ", "@ + parts.last()
    }
}

/// The texts `parts` as a list in square brackets.
pub open spec fn bracketed(parts: Seq<Seq<char>>) -> Seq<char> {
    "["@ + listed(parts) + "]"@
}

/// How a payload is shown. Numbers are in decimal; a float is shown by the number that is its
/// bit pattern; a string is shown as it is; arrays, lists and compounds are lists in square
/// brackets.
pub open spec fn payload_text(p: PayloadValue) -> Seq<char>
    decreases p,
{
    match p {
        PayloadValue::Byte(v) => decimal(v as int),
        PayloadValue::Short(v) => decimal(v as int),
        PayloadValue::Int(v) => decimal(v as int),
        PayloadValue::Long(v) => decimal(v as int),
        PayloadValue::Float(bits) => decimal(bits as int),
        PayloadValue::Double(bits) => decimal(bits as int),
        PayloadValue::ByteArray(items) => bracketed(
            Seq::new(items.len(), |i: int| decimal(items[i] as int)),
        ),
        PayloadValue::String(text) => text,
        PayloadValue::List(items) => bracketed(payload_texts(items)),
        PayloadValue::Compound(entries) => bracketed(tag_texts(entries)),
        PayloadValue::IntArray(items) => bracketed(
            Seq::new(items.len(), |i: int| decimal(items[i] as int)),
        ),
        PayloadValue::LongArray(items) => bracketed(
            Seq::new(items.len(), |i: int| decimal(items[i] as int)),
        ),
    }
}

/// How each of the payloads `items` is shown.
pub open spec fn payload_texts(items: Seq<PayloadValue>) -> Seq<Seq<char>>
    decreases items,
{
    Seq::new(
        items.len(),
        |i: int|
            if 0 <= i < items.len() {
                payload_text(items[i])
            } else {
                Seq::empty()
            },
    )
}

/// How a tag is shown: its kind; then, unless it is the end marker, a colon and its payload.
/// The name is not shown.
pub open spec fn tag_text(t: TagValue) -> Seq<char>
    decreases t,
{
    match t {
        TagValue::End => ID::End.label(),
        TagValue::Tag(_, payload) => payload.kind().label() + ": "@ + payload_text(payload),
    }
}

/// How each of the tags `tags` is shown.
pub open spec fn tag_texts(tags: Seq<TagValue>) -> Seq<Seq<char>>
    decreases tags,
{
    Seq::new(
        tags.len(),
        |i: int|
            if 0 <= i < tags.len() {
                tag_text(tags[i])
            } else {
                Seq::empty()
            },
    )
}

/// `to_string` of std on an `i128`: the number in decimal, with a minus sign where it is
/// negative and without leading zeros.
#[verifier::external_body]
fn decimal_string(v: i128) -> (text: String)
    ensures
        text@ == decimal(v as int),
{
    v.to_string()
}

/// Adds `part` to the list that `out` holds after its opening bracket, with `", "` before it
/// unless it is the first.
fn list_part(out: &mut String, part: &str, first: bool, Ghost(before): Ghost<Seq<Seq<char>>>)
    requires
        old(out)@ == "["@ + listed(before),
        first == (before.len() == 0),
    ensures
        final(out)@ == "["@ + listed(before.push(part@)),
{
    let ghost after = before.push(part@);
    assert(after.drop_last() =~= before);
    if first {
        out.append(part);
        assert(out@ =~= "["@ + part@);
    } else {
        out.append(", ");
        out.append(part);
        assert(out@ =~= "["@ + (listed(before) + ", "@ + part@));
    }
}

/// The numbers `items` in decimal, as a list in square brackets.
fn bytes_text(items: &Vec<u8>) -> (text: String)
    ensures
        text@ == bracketed(Seq::new(items@.len(), |i: int| decimal(items@[i] as int))),
{
    let ghost parts = Seq::new(items@.len(), |i: int| decimal(items@[i] as int));
    let mut out = String::from_str("[");
    let mut i: usize = 0;
    assert(parts.take(0) =~= Seq::empty());
    assert(out@ =~= "["@ + listed(parts.take(0)));
    while i < items.len()
        invariant
            i <= items.len(),
            parts == Seq::new(items@.len(), |i: int| decimal(items@[i] as int)),
            out@ == "["@ + listed(parts.take(i as int)),
        decreases items.len() - i,
    {
        let part = decimal_string(items[i] as i128);
        list_part(&mut out, part.as_str(), i == 0, Ghost(parts.take(i as int)));
        assert(parts.take(i as int).push(part@) =~= parts.take(i + 1));
        i = i + 1;
    }
    assert(parts.take(i as int) =~= parts);
    out.append("]");
    out
}

/// The numbers `items` in decimal, as a list in square brackets.
fn ints_text(items: &Vec<i32>) -> (text: String)
    ensures
        text@ == bracketed(Seq::new(items@.len(), |i: int| decimal(items@[i] as int))),
{
    let ghost parts = Seq::new(items@.len(), |i: int| decimal(items@[i] as int));
    let mut out = String::from_str("[");
    let mut i: usize = 0;
    assert(parts.take(0) =~= Seq::empty());
    assert(out@ =~= "["@ + listed(parts.take(0)));
    while i < items.len()
        invariant
            i <= items.len(),
            parts == Seq::new(items@.len(), |i: int| decimal(items@[i] as int)),
            out@ == "["@ + listed(parts.take(i as int)),
        decreases items.len() - i,
    {
        let part = decimal_string(items[i] as i128);
        list_part(&mut out, part.as_str(), i == 0, Ghost(parts.take(i as int)));
        assert(parts.take(i as int).push(part@) =~= parts.take(i + 1));
        i = i + 1;
    }
    assert(parts.take(i as int) =~= parts);
    out.append("]");
    out
}

/// The numbers `items` in decimal, as a list in square brackets.
fn longs_text(items: &Vec<i64>) -> (text: String)
    ensures
        text@ == bracketed(Seq::new(items@.len(), |i: int| decimal(items@[i] as int))),
{
    let ghost parts = Seq::new(items@.len(), |i: int| decimal(items@[i] as int));
    let mut out = String::from_str("[");
    let mut i: usize = 0;
    assert(parts.take(0) =~= Seq::empty());
    assert(out@ =~= "["@ + listed(parts.take(0)));
    while i < items.len()
        invariant
            i <= items.len(),
            parts == Seq::new(items@.len(), |i: int| decimal(items@[i] as int)),
            out@ == "["@ + listed(parts.take(i as int)),
        decreases items.len() - i,
    {
        let part = decimal_string(items[i] as i128);
        list_part(&mut out, part.as_str(), i == 0, Ghost(parts.take(i as int)));
        assert(parts.take(i as int).push(part@) =~= parts.take(i + 1));
        i = i + 1;
    }
    assert(parts.take(i as int) =~= parts);
    out.append("]");
    out
}

impl ID {
    /// The name of the identifier, in capitals.
    pub fn to_string(&self) -> (text: String)
        ensures
            text@ == self.label(),
    {
        String::from_str(self.stringify())
    }
}

impl Tag {
    /// The tag as text: its kind; then, unless it is the end marker, a colon and its payload.
    pub fn to_string(&self) -> (text: String)
        ensures
            text@ == tag_text(self@),
        decreases self,
    {
        match self {
            Tag::End => ID::End.to_string(),
            Tag::Tag(_, payload) => {
                let mut out = payload.to_id().to_string();
                let shown = payload.to_string();
                out.append(": ");
                out.append(shown.as_str());
                out
            },
        }
    }
}

impl Payload {
    /// The payload as text.
    pub fn to_string(&self) -> (text: String)
        ensures
            text@ == payload_text(self@),
        decreases self,
    {
        match self {
            Payload::Byte(p) => decimal_string(*p as i128),
            Payload::Short(p) => decimal_string(*p as i128),
            Payload::Int(p) => decimal_string(*p as i128),
            Payload::Long(p) => decimal_string(*p as i128),
            Payload::Float(p) => decimal_string(*p as i128),
            Payload::Double(p) => decimal_string(*p as i128),
            Payload::String(p) => p.clone(),
            Payload::List(p) => {
                let ghost parts = payload_texts(payload_values(p@));
                let mut out = String::from_str("[");
                let mut i: usize = 0;
                assert(parts.take(0) =~= Seq::empty());
                assert(out@ =~= "["@ + listed(parts.take(0)));
                while i < p.len()
                    invariant
                        i <= p.len(),
                        *self == Payload::List(*p),
                        parts == payload_texts(payload_values(p@)),
                        out@ == "["@ + listed(parts.take(i as int)),
                    decreases p.len() - i,
                {
                    assert(decreases_to!(self => self->List_0));
                    assert(decreases_to!(p => p[i as int]));
                    let part = p[i].to_string();
                    list_part(&mut out, part.as_str(), i == 0, Ghost(parts.take(i as int)));
                    assert(parts.take(i as int).push(part@) =~= parts.take(i + 1));
                    i = i + 1;
                }
                assert(parts.take(i as int) =~= parts);
                out.append("]");
                out
            },
            Payload::Compound(p) => {
                let ghost parts = tag_texts(tag_values(p@));
                let mut out = String::from_str("[");
                let mut i: usize = 0;
                assert(parts.take(0) =~= Seq::empty());
                assert(out@ =~= "["@ + listed(parts.take(0)));
                while i < p.len()
                    invariant
                        i <= p.len(),
                        *self == Payload::Compound(*p),
                        parts == tag_texts(tag_values(p@)),
                        out@ == "["@ + listed(parts.take(i as int)),
                    decreases p.len() - i,
                {
                    assert(decreases_to!(self => self->Compound_0));
                    assert(decreases_to!(p => p[i as int]));
                    let part = p[i].to_string();
                    list_part(&mut out, part.as_str(), i == 0, Ghost(parts.take(i as int)));
                    assert(parts.take(i as int).push(part@) =~= parts.take(i + 1));
                    i = i + 1;
                }
                assert(parts.take(i as int) =~= parts);
                out.append("]");
                out
            },
            Payload::ByteArray(p) => bytes_text(p),
            Payload::IntArray(p) => ints_text(p),
            Payload::LongArray(p) => longs_text(p),
        }
    }
}

} // verus!
