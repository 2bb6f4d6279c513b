//! The tag model: tags, payloads and type identifiers, and what they are as mathematical
//! values.

use vstd::prelude::*;
use vstd::string::StrSliceExecFns;

verus! {

/// The type identifiers of the format, in the order of their raw values 0 to 12.
#[derive(Clone, Copy, PartialEq, Eq, Debug, Structural)]
pub enum ID {
    End,
    Byte,
    Short,
    Int,
    Long,
    Float,
    Double,
    ByteArray,
    String,
    List,
    Compound,
    IntArray,
    LongArray,
}

/// The value carried by a tag.
#[derive(Debug, PartialEq)]
pub enum Payload {
    Byte(i8),
    Short(i16),
    Int(i32),
    Long(i64),
    /// The IEEE 754 bit pattern of a 32-bit float. Two floats are equal exactly when their
    /// bits are.
    Float(u32),
    /// The IEEE 754 bit pattern of a 64-bit float.
    Double(u64),
    ByteArray(Vec<u8>),
    String(String),
    /// The elements of a list, which are of one kind in a list that was decoded.
    List(Vec<Payload>),
    /// The entries of a compound, in the order in which their names first came. In a compound
    /// that was decoded they are named tags, and no two of them share a name.
    Compound(Vec<Tag>),
    IntArray(Vec<i32>),
    LongArray(Vec<i64>),
}

/// A node of a document: the end marker, or a name with its payload.
#[derive(Debug, PartialEq)]
pub enum Tag {
    End,
    Tag(String, Payload),
}

/// What a [`Payload`] is, as a mathematical value.
pub enum PayloadValue {
    Byte(i8),
    Short(i16),
    Int(i32),
    Long(i64),
    Float(u32),
    Double(u64),
    ByteArray(Seq<u8>),
    String(Seq<char>),
    List(Seq<PayloadValue>),
    Compound(Seq<TagValue>),
    IntArray(Seq<i32>),
    LongArray(Seq<i64>),
}

/// What a [`Tag`] is, as a mathematical value.
pub enum TagValue {
    End,
    Tag(Seq<char>, PayloadValue),
}

/// What the payload `p` is, as a mathematical value.
pub open spec fn payload_value(p: Payload) -> PayloadValue
    decreases p,
{
    match p {
        Payload::Byte(v) => PayloadValue::Byte(v),
        Payload::Short(v) => PayloadValue::Short(v),
        Payload::Int(v) => PayloadValue::Int(v),
        Payload::Long(v) => PayloadValue::Long(v),
        Payload::Float(v) => PayloadValue::Float(v),
        Payload::Double(v) => PayloadValue::Double(v),
        Payload::ByteArray(v) => PayloadValue::ByteArray(v@),
        Payload::String(v) => PayloadValue::String(v@),
        Payload::List(v) => PayloadValue::List(payload_values(v@)),
        Payload::Compound(v) => PayloadValue::Compound(tag_values(v@)),
        Payload::IntArray(v) => PayloadValue::IntArray(v@),
        Payload::LongArray(v) => PayloadValue::LongArray(v@),
    }
}

/// The values of the payloads `items`, in their order.
pub open spec fn payload_values(items: Seq<Payload>) -> Seq<PayloadValue>
    decreases items,
{
    Seq::new(
        items.len(),
        |i: int|
            if 0 <= i < items.len() {
                payload_value(items[i])
            } else {
                arbitrary()
            },
    )
}

/// What the tag `t` is, as a mathematical value.
pub open spec fn tag_value(t: Tag) -> TagValue
    decreases t,
{
    match t {
        Tag::End => TagValue::End,
        Tag::Tag(name, payload) => TagValue::Tag(name@, payload_value(payload)),
    }
}

/// The values of the tags `tags`, in their order.
pub open spec fn tag_values(tags: Seq<Tag>) -> Seq<TagValue>
    decreases tags,
{
    Seq::new(
        tags.len(),
        |i: int|
            if 0 <= i < tags.len() {
                tag_value(tags[i])
            } else {
                arbitrary()
            },
    )
}

impl View for Payload {
    type V = PayloadValue;

    open spec fn view(&self) -> PayloadValue {
        payload_value(*self)
    }
}

impl View for Tag {
    type V = TagValue;

    open spec fn view(&self) -> TagValue {
        tag_value(*self)
    }
}

/// The name of a tag; the end marker has the empty name.
pub open spec fn name_of(tag: TagValue) -> Seq<char> {
    match tag {
        TagValue::End => Seq::empty(),
        TagValue::Tag(name, _) => name,
    }
}

/// Whether an entry of `entries` has the name `name`.
pub open spec fn has_name(entries: Seq<TagValue>, name: Seq<char>) -> bool {
    exists|i: int| 0 <= i < entries.len() && name_of(#[trigger] entries[i]) == name
}

/// The index of the first entry of `entries` that has the name `name`.
pub open spec fn index_of_name(entries: Seq<TagValue>, name: Seq<char>) -> int {
    choose|i: int|
        0 <= i < entries.len() && name_of(#[trigger] entries[i]) == name && forall|j: int|
            0 <= j < i ==> name_of(#[trigger] entries[j]) != name
}

/// `entries` with `tag` put under its name: in place of the entry that has that name, or at
/// the end where there is none.
pub open spec fn put(entries: Seq<TagValue>, tag: TagValue) -> Seq<TagValue> {
    if has_name(entries, name_of(tag)) {
        entries.update(index_of_name(entries, name_of(tag)), tag)
    } else {
        entries.push(tag)
    }
}

/// The entries of a compound whose children were read in the order `tags`: each name keeps
/// the place of its first child and the value of its last.
pub open spec fn settle(tags: Seq<TagValue>) -> Seq<TagValue>
    decreases tags.len(),
{
    if tags.len() == 0 {
        Seq::empty()
    } else {
        put(settle(tags.drop_last()), tags.last())
    }
}

/// Whether no two entries of `entries` share a name.
pub open spec fn distinct_names(entries: Seq<TagValue>) -> bool {
    forall|i: int, j: int|
        0 <= i < j < entries.len() ==> name_of(#[trigger] entries[i]) != name_of(
            #[trigger] entries[j],
        )
}

impl PayloadValue {
    /// Whether, at every depth, the elements of each list are of one kind, and the entries of
    /// each compound are named tags of which no two share a name.
    pub open spec fn well_formed(self) -> bool
        decreases self,
    {
        match self {
            PayloadValue::List(items) => forall|i: int|
                0 <= i < items.len() ==> (#[trigger] items[i]).well_formed() && items[i].kind()
                    == items[0].kind(),
            PayloadValue::Compound(entries) => distinct_names(entries) && forall|i: int|
                0 <= i < entries.len() ==> entries[i] is Tag
                    && (#[trigger] entries[i]).well_formed(),
            _ => true,
        }
    }
}

impl TagValue {
    /// Whether the payload of the tag, where it has one, is well formed.
    pub open spec fn well_formed(self) -> bool
        decreases self,
    {
        match self {
            TagValue::End => true,
            TagValue::Tag(_, payload) => payload.well_formed(),
        }
    }
}

impl ID {
    /// The raw value of the identifier: its place in the order of the format, from 0.
    pub open spec fn raw_value(self) -> i8 {
        match self {
            ID::End => 0,
            ID::Byte => 1,
            ID::Short => 2,
            ID::Int => 3,
            ID::Long => 4,
            ID::Float => 5,
            ID::Double => 6,
            ID::ByteArray => 7,
            ID::String => 8,
            ID::List => 9,
            ID::Compound => 10,
            ID::IntArray => 11,
            ID::LongArray => 12,
        }
    }

    /// The name of the identifier, in capitals.
    pub open spec fn label(self) -> Seq<char> {
        match self {
            ID::End => "END"@,
            ID::Byte => "BYTE"@,
            ID::Short => "SHORT"@,
            ID::Int => "INT"@,
            ID::Long => "LONG"@,
            ID::Float => "FLOAT"@,
            ID::Double => "DOUBLE"@,
            ID::ByteArray => "BYTE ARRAY"@,
            ID::String => "STRING"@,
            ID::List => "LIST"@,
            ID::Compound => "COMPOUND"@,
            ID::IntArray => "INT ARRAY"@,
            ID::LongArray => "LONG ARRAY"@,
        }
    }

    /// The raw value of the identifier.
    pub fn to_raw(&self) -> (raw: i8)
        ensures
            raw == self.raw_value(),
    {
        match self {
            ID::End => 0,
            ID::Byte => 1,
            ID::Short => 2,
            ID::Int => 3,
            ID::Long => 4,
            ID::Float => 5,
            ID::Double => 6,
            ID::ByteArray => 7,
            ID::String => 8,
            ID::List => 9,
            ID::Compound => 10,
            ID::IntArray => 11,
            ID::LongArray => 12,
        }
    }

    /// The identifier with the raw value `id`, which must be one of the thirteen.
    pub fn from_raw(id: i8) -> (kind: Self)
        requires
            0 <= id <= 12,
        ensures
            kind.raw_value() == id,
    {
        match id {
            0 => ID::End,
            1 => ID::Byte,
            2 => ID::Short,
            3 => ID::Int,
            4 => ID::Long,
            5 => ID::Float,
            6 => ID::Double,
            7 => ID::ByteArray,
            8 => ID::String,
            9 => ID::List,
            10 => ID::Compound,
            11 => ID::IntArray,
            _ => ID::LongArray,
        }
    }

    /// The name of the identifier, in capitals.
    pub fn stringify(&self) -> (text: &'static str)
        ensures
            text@ == self.label(),
    {
        match self {
            ID::End => "END",
            ID::Byte => "BYTE",
            ID::Short => "SHORT",
            ID::Int => "INT",
            ID::Long => "LONG",
            ID::Float => "FLOAT",
            ID::Double => "DOUBLE",
            ID::ByteArray => "BYTE ARRAY",
            ID::String => "STRING",
            ID::List => "LIST",
            ID::Compound => "COMPOUND",
            ID::IntArray => "INT ARRAY",
            ID::LongArray => "LONG ARRAY",
        }
    }
}

impl PayloadValue {
    /// The kind of the payload.
    pub open spec fn kind(self) -> ID {
        match self {
            PayloadValue::Byte(_) => ID::Byte,
            PayloadValue::Short(_) => ID::Short,
            PayloadValue::Int(_) => ID::Int,
            PayloadValue::Long(_) => ID::Long,
            PayloadValue::Float(_) => ID::Float,
            PayloadValue::Double(_) => ID::Double,
            PayloadValue::ByteArray(_) => ID::ByteArray,
            PayloadValue::String(_) => ID::String,
            PayloadValue::List(_) => ID::List,
            PayloadValue::Compound(_) => ID::Compound,
            PayloadValue::IntArray(_) => ID::IntArray,
            PayloadValue::LongArray(_) => ID::LongArray,
        }
    }

    /// The number of elements, characters or children, for the kinds that have one.
    pub open spec fn count(self) -> Option<nat> {
        match self {
            PayloadValue::List(items) => Some(items.len()),
            PayloadValue::String(text) => Some(text.len()),
            PayloadValue::IntArray(items) => Some(items.len()),
            PayloadValue::LongArray(items) => Some(items.len()),
            PayloadValue::Compound(entries) => Some(entries.len()),
            _ => None,
        }
    }
}

impl TagValue {
    /// The kind of the tag: that of its payload, or `End`.
    pub open spec fn kind(self) -> ID {
        match self {
            TagValue::End => ID::End,
            TagValue::Tag(_, payload) => payload.kind(),
        }
    }
}

impl Tag {
    /// The end marker.
    pub fn end() -> (tag: Tag)
        ensures
            tag == Tag::End,
    {
        Tag::End
    }

    /// A tag with the name `name` and the payload `payload`.
    pub fn new(name: String, payload: Payload) -> (tag: Tag)
        ensures
            tag == Tag::Tag(name, payload),
    {
        Tag::Tag(name, payload)
    }

    /// Whether the tag is the end marker.
    pub fn is_end(&self) -> (b: bool)
        ensures
            b == (self@ is End),
    {
        match self {
            Tag::End => true,
            Tag::Tag(_, _) => false,
        }
    }

    /// Whether the tag has no name to show: the end marker, or a tag with the empty name.
    pub fn anon(&self) -> (b: bool)
        ensures
            b == match self@ {
                TagValue::End => true,
                TagValue::Tag(name, _) => name.len() == 0,
            },
    {
        match self {
            Tag::End => true,
            Tag::Tag(name, _) => name.as_str().is_empty(),
        }
    }

    /// The payload of the tag; the end marker has none.
    pub fn payload(&self) -> (payload: Option<&Payload>)
        ensures
            payload == match self {
                Tag::End => None,
                Tag::Tag(_, payload) => Some(payload),
            },
    {
        match self {
            Tag::End => None,
            Tag::Tag(_, payload) => Some(payload),
        }
    }

    /// The name of the tag, unless it is empty.
    pub fn name(&self) -> (name: Option<&String>)
        ensures
            name == match self {
                Tag::End => None,
                Tag::Tag(name, _) => if name@.len() == 0 {
                    None
                } else {
                    Some(name)
                },
            },
    {
        match self {
            Tag::End => None,
            Tag::Tag(name, _) => if name.as_str().is_empty() {
                None
            } else {
                Some(name)
            },
        }
    }

    /// The kind of the tag.
    pub fn id(&self) -> (kind: ID)
        ensures
            kind == self@.kind(),
    {
        match self {
            Tag::End => ID::End,
            Tag::Tag(_, payload) => payload.to_id(),
        }
    }

    /// The number of elements, characters or children of the payload, for the kinds that
    /// have one.
    pub fn len(&self) -> (count: Option<usize>)
        ensures
            match count {
                Some(n) => self@ matches TagValue::Tag(_, payload) && payload.count() == Some(
                    n as nat,
                ),
                None => self@ matches TagValue::Tag(_, payload) ==> payload.count() is None,
            },
    {
        match self {
            Tag::End => None,
            Tag::Tag(_, payload) => payload.len(),
        }
    }
}

impl Payload {
    /// The kind of the payload.
    pub fn to_id(&self) -> (kind: ID)
        ensures
            kind == self@.kind(),
    {
        match self {
            Payload::Byte(_) => ID::Byte,
            Payload::Short(_) => ID::Short,
            Payload::Int(_) => ID::Int,
            Payload::Long(_) => ID::Long,
            Payload::Float(_) => ID::Float,
            Payload::Double(_) => ID::Double,
            Payload::ByteArray(_) => ID::ByteArray,
            Payload::String(_) => ID::String,
            Payload::List(_) => ID::List,
            Payload::Compound(_) => ID::Compound,
            Payload::IntArray(_) => ID::IntArray,
            Payload::LongArray(_) => ID::LongArray,
        }
    }

    /// The raw value of the kind of the payload.
    pub fn to_raw_id(&self) -> (raw: i8)
        ensures
            raw == self@.kind().raw_value(),
    {
        self.to_id().to_raw()
    }

    /// The number that a byte holds; nothing for any other kind.
    pub fn to_i8(&self) -> (v: Option<i8>)
        ensures
            v == match self@ {
                PayloadValue::Byte(v) => Some(v),
                _ => None,
            },
    {
        match self {
            Payload::Byte(p) => Some(*p),
            _ => None,
        }
    }

    /// The number that a short holds; nothing for any other kind.
    pub fn to_i16(&self) -> (v: Option<i16>)
        ensures
            v == match self@ {
                PayloadValue::Short(v) => Some(v),
                _ => None,
            },
    {
        match self {
            Payload::Short(p) => Some(*p),
            _ => None,
        }
    }

    /// The number that an int holds; nothing for any other kind.
    pub fn to_i32(&self) -> (v: Option<i32>)
        ensures
            v == match self@ {
                PayloadValue::Int(v) => Some(v),
                _ => None,
            },
    {
        match self {
            Payload::Int(p) => Some(*p),
            _ => None,
        }
    }

    /// The number that a long holds; nothing for any other kind.
    pub fn to_i64(&self) -> (v: Option<i64>)
        ensures
            v == match self@ {
                PayloadValue::Long(v) => Some(v),
                _ => None,
            },
    {
        match self {
            Payload::Long(p) => Some(*p),
            _ => None,
        }
    }

    /// The bit pattern of a 32-bit float.
    pub fn to_f32(&self) -> (bits: Option<u32>)
        ensures
            bits == match self@ {
                PayloadValue::Float(bits) => Some(bits),
                _ => None,
            },
    {
        match self {
            Payload::Float(p) => Some(*p),
            _ => None,
        }
    }

    /// The bit pattern of a 64-bit float.
    pub fn to_f64(&self) -> (bits: Option<u64>)
        ensures
            bits == match self@ {
                PayloadValue::Double(bits) => Some(bits),
                _ => None,
            },
    {
        match self {
            Payload::Double(p) => Some(*p),
            _ => None,
        }
    }

    /// The elements of a list; nothing for any other kind.
    pub fn to_vec(&self) -> (items: Option<&Vec<Payload>>)
        ensures
            items == match self {
                Payload::List(items) => Some(items),
                _ => None,
            },
    {
        match self {
            Payload::List(p) => Some(p),
            _ => None,
        }
    }

    /// The bytes of a byte array; nothing for any other kind.
    pub fn to_u8_vec(&self) -> (items: Option<&Vec<u8>>)
        ensures
            items == match self {
                Payload::ByteArray(items) => Some(items),
                _ => None,
            },
    {
        match self {
            Payload::ByteArray(p) => Some(p),
            _ => None,
        }
    }

    /// The numbers of an int array; nothing for any other kind.
    pub fn to_i32_vec(&self) -> (items: Option<&Vec<i32>>)
        ensures
            items == match self {
                Payload::IntArray(items) => Some(items),
                _ => None,
            },
    {
        match self {
            Payload::IntArray(p) => Some(p),
            _ => None,
        }
    }

    /// The numbers of a long array; nothing for any other kind.
    pub fn to_i64_vec(&self) -> (items: Option<&Vec<i64>>)
        ensures
            items == match self {
                Payload::LongArray(items) => Some(items),
                _ => None,
            },
    {
        match self {
            Payload::LongArray(p) => Some(p),
            _ => None,
        }
    }

    /// The text of a string; nothing for any other kind.
    pub fn to_str(&self) -> (text: Option<&str>)
        ensures
            match self@ {
                PayloadValue::String(s) => text matches Some(t) && t@ == s,
                _ => text is None,
            },
    {
        match self {
            Payload::String(p) => Some(p.as_str()),
            _ => None,
        }
    }

    /// The children of a compound, in the order in which their names first came.
    pub fn to_map(&self) -> (entries: Option<&Vec<Tag>>)
        ensures
            entries == match self {
                Payload::Compound(entries) => Some(entries),
                _ => None,
            },
    {
        match self {
            Payload::Compound(p) => Some(p),
            _ => None,
        }
    }

    /// The number of elements of a list or of an int or long array, of characters of a
    /// string, or of entries of a compound; nothing for any other kind, a byte array too.
    pub fn len(&self) -> (count: Option<usize>)
        ensures
            match count {
                Some(n) => self@.count() == Some(n as nat),
                None => self@.count() is None,
            },
    {
        match self {
            Payload::List(p) => Some(p.len()),
            Payload::String(p) => Some(p.as_str().unicode_len()),
            Payload::IntArray(p) => Some(p.len()),
            Payload::LongArray(p) => Some(p.len()),
            Payload::Compound(p) => Some(p.len()),
            _ => None,
        }
    }
}

/// Whether two tags have the same name; the end marker has the empty name.
fn same_name(a: &Tag, b: &Tag) -> (same: bool)
    ensures
        same == (name_of(a@) == name_of(b@)),
{
    match a {
        Tag::End => match b {
            Tag::End => true,
            Tag::Tag(name, _) => {
                assert(name@.len() == 0 <==> name@ =~= Seq::empty());
                name.as_str().is_empty()
            },
        },
        Tag::Tag(name, _) => match b {
            Tag::End => {
                assert(name@.len() == 0 <==> name@ =~= Seq::empty());
                name.as_str().is_empty()
            },
            Tag::Tag(other, _) => *name == *other,
        },
    }
}

/// Puts `tag` under its name: in place of the entry that has that name, or at the end where
/// there is none.
pub fn put_entry(entries: &mut Vec<Tag>, tag: Tag)
    ensures
        tag_values(final(entries)@) == put(tag_values(old(entries)@), tag@),
{
    let ghost before = tag_values(entries@);
    let ghost name = name_of(tag@);
    let mut i: usize = 0;
    while i < entries.len()
        invariant
            i <= entries.len(),
            *entries == *old(entries),
            before == tag_values(entries@),
            name == name_of(tag@),
            forall|j: int| 0 <= j < i ==> name_of(#[trigger] before[j]) != name,
        decreases entries.len() - i,
    {
        if same_name(&entries[i], &tag) {
            proof {
                assert(name_of(before[i as int]) == name);
                assert(has_name(before, name));
                let k = index_of_name(before, name);
                assert(k == i);
            }
            let ghost value = tag@;
            entries.set(i, tag);
            assert(tag_values(entries@) =~= before.update(i as int, value));
            return ;
        }
        i = i + 1;
    }
    let ghost value = tag@;
    entries.push(tag);
    assert(tag_values(entries@) =~= before.push(value));
}

} // verus!
