//! The IPP value model: the tagged union of RFC 8010 value kinds, its
//! mathematical model, and the per-value wire encoding and decoding.

use vstd::prelude::*;
use vstd::utf8::encode_utf8;

use crate::error::IppParseError;
use crate::tags::ValueTag;
use crate::text::{
    lossy_decode, utf8_lossy_to_string, IppCharset, IppKeyword, IppLanguage, IppMimeMediaType,
    IppName, IppString, IppTextValue,
};
use crate::wire::{
    get_i32_be, get_u16_be, i8_to_u8, put_bytes, put_i32_be, put_u16_be, put_u32_be, sub_vec,
    spec_i32_as_u32, spec_i8_as_u8, spec_u16_be, spec_u16_from_be, spec_u32_as_i32, spec_u32_be,
    spec_u32_from_be, spec_u8_as_i8, u8_to_i8,
};

verus! {

broadcast use vstd::std_specs::vec::group_vec_axioms;

/// An IPP attribute value, as defined in RFC 8010.
///
/// String-carrying variants hold bounded strings whose byte limits follow
/// the registered attribute syntaxes; an `Array` holds the members of a
/// multi-valued attribute, a `Collection` an ordered list of named members.
/// Unrecognized value tags are preserved in `Other`.
#[derive(Debug, PartialEq, Eq)]
pub enum IppValue {
    Integer(i32),
    Enum(i32),
    OctetString(IppTextValue),
    TextWithoutLanguage(IppTextValue),
    NameWithoutLanguage(IppName),
    TextWithLanguage { language: IppLanguage, text: IppTextValue },
    NameWithLanguage { language: IppLanguage, name: IppName },
    Charset(IppCharset),
    NaturalLanguage(IppLanguage),
    Uri(IppString),
    UriScheme(IppString),
    RangeOfInteger { min: i32, max: i32 },
    Boolean(bool),
    Keyword(IppKeyword),
    Array(Vec<IppValue>),
    Collection(Vec<CollectionMember>),
    MimeMediaType(IppMimeMediaType),
    DateTime {
        year: u16,
        month: u8,
        day: u8,
        hour: u8,
        minutes: u8,
        seconds: u8,
        deci_seconds: u8,
        utc_dir: char,
        utc_hours: u8,
        utc_mins: u8,
    },
    MemberAttrName(IppKeyword),
    Resolution { cross_feed: i32, feed: i32, units: i8 },
    NoValue,
    Other { tag: u8, data: Vec<u8> },
}

/// One member of a collection value: a member name and the value under it.
#[derive(Debug, PartialEq, Eq)]
pub struct CollectionMember {
    pub name: IppName,
    pub value: IppValue,
}

/// The model of one collection member: a name and a value.
pub struct MemberModel {
    pub name: Seq<char>,
    pub value: ValueModel,
}

/// The mathematical model of an [`IppValue`]: strings become character
/// sequences, vectors become sequences.
pub enum ValueModel {
    Integer(i32),
    Enum(i32),
    OctetString(Seq<char>),
    TextWithoutLanguage(Seq<char>),
    NameWithoutLanguage(Seq<char>),
    TextWithLanguage { language: Seq<char>, text: Seq<char> },
    NameWithLanguage { language: Seq<char>, name: Seq<char> },
    Charset(Seq<char>),
    NaturalLanguage(Seq<char>),
    Uri(Seq<char>),
    UriScheme(Seq<char>),
    RangeOfInteger { min: i32, max: i32 },
    Boolean(bool),
    Keyword(Seq<char>),
    Array(Seq<ValueModel>),
    Collection(Seq<MemberModel>),
    MimeMediaType(Seq<char>),
    DateTime {
        year: u16,
        month: u8,
        day: u8,
        hour: u8,
        minutes: u8,
        seconds: u8,
        deci_seconds: u8,
        utc_dir: char,
        utc_hours: u8,
        utc_mins: u8,
    },
    MemberAttrName(Seq<char>),
    Resolution { cross_feed: i32, feed: i32, units: i8 },
    NoValue,
    Other { tag: u8, data: Seq<u8> },
}

impl IppValue {
    /// The model of this value: strings become character sequences,
    /// vectors become sequences.
    pub open spec fn model(self) -> ValueModel
        decreases self, 0int,
        via Self::model_decreases
    {
        match self {
            IppValue::Integer(i) => ValueModel::Integer(i),
            IppValue::Enum(i) => ValueModel::Enum(i),
            IppValue::OctetString(s) => ValueModel::OctetString(s@),
            IppValue::TextWithoutLanguage(s) => ValueModel::TextWithoutLanguage(s@),
            IppValue::NameWithoutLanguage(s) => ValueModel::NameWithoutLanguage(s@),
            IppValue::TextWithLanguage { language, text } => ValueModel::TextWithLanguage {
                language: language@,
                text: text@,
            },
            IppValue::NameWithLanguage { language, name } => ValueModel::NameWithLanguage {
                language: language@,
                name: name@,
            },
            IppValue::Charset(s) => ValueModel::Charset(s@),
            IppValue::NaturalLanguage(s) => ValueModel::NaturalLanguage(s@),
            IppValue::Uri(s) => ValueModel::Uri(s@),
            IppValue::UriScheme(s) => ValueModel::UriScheme(s@),
            IppValue::RangeOfInteger { min, max } => ValueModel::RangeOfInteger { min, max },
            IppValue::Boolean(b) => ValueModel::Boolean(b),
            IppValue::Keyword(s) => ValueModel::Keyword(s@),
            IppValue::Array(elems) => ValueModel::Array(array_models(elems@, 0)),
            IppValue::Collection(members) => ValueModel::Collection(member_models(members@, 0)),
            IppValue::MimeMediaType(s) => ValueModel::MimeMediaType(s@),
            IppValue::DateTime {
                year,
                month,
                day,
                hour,
                minutes,
                seconds,
                deci_seconds,
                utc_dir,
                utc_hours,
                utc_mins,
            } => ValueModel::DateTime {
                year,
                month,
                day,
                hour,
                minutes,
                seconds,
                deci_seconds,
                utc_dir,
                utc_hours,
                utc_mins,
            },
            IppValue::MemberAttrName(s) => ValueModel::MemberAttrName(s@),
            IppValue::Resolution { cross_feed, feed, units } => ValueModel::Resolution {
                cross_feed,
                feed,
                units,
            },
            IppValue::NoValue => ValueModel::NoValue,
            IppValue::Other { tag, data } => ValueModel::Other { tag, data: data@ },
        }
    }

    #[via_fn]
    proof fn model_decreases(self) {
        match self {
            IppValue::Array(elems) => {
                assert(decreases_to!(self => elems));
                assert(decreases_to!(elems => elems@));
            },
            IppValue::Collection(members) => {
                assert(decreases_to!(self => members));
                assert(decreases_to!(members => members@));
            },
            _ => {},
        }
    }
}

/// The models of the array elements from index `i` on.
pub open spec fn array_models(elems: Seq<IppValue>, i: int) -> Seq<ValueModel>
    decreases elems, (if i <= elems.len() { elems.len() - i } else { 0int }),
{
    if 0 <= i < elems.len() {
        seq![elems[i].model()] + array_models(elems, i + 1)
    } else {
        Seq::empty()
    }
}

/// The models of the collection members from index `i` on.
pub open spec fn member_models(members: Seq<CollectionMember>, i: int) -> Seq<MemberModel>
    decreases members, (if i <= members.len() { members.len() - i } else { 0int }),
{
    if 0 <= i < members.len() {
        seq![MemberModel { name: members[i].name@, value: members[i].value.model() }]
            + member_models(members, i + 1)
    } else {
        Seq::empty()
    }
}

/// `array_models` holds each element's model, in order.
pub proof fn lemma_array_models(elems: Seq<IppValue>, i: int)
    requires
        0 <= i <= elems.len(),
    ensures
        array_models(elems, i).len() == elems.len() - i,
        forall|k: int| i <= k < elems.len() ==> array_models(elems, i)[k - i] == elems[k].model(),
    decreases elems.len() - i,
{
    if i < elems.len() {
        lemma_array_models(elems, i + 1);
    }
}

/// Pushing one element extends the element models by its model.
pub proof fn lemma_array_models_push(elems: Seq<IppValue>)
    requires
        elems.len() > 0,
    ensures
        array_models(elems, 0) == array_models(elems.drop_last(), 0).push(elems.last().model()),
{
    lemma_array_models(elems, 0);
    lemma_array_models(elems.drop_last(), 0);
    let l = array_models(elems, 0);
    let r = array_models(elems.drop_last(), 0).push(elems.last().model());
    assert forall|k: int| 0 <= k < l.len() implies l[k] == r[k] by {
        assert(array_models(elems, 0)[k - 0] == elems[k].model());
        if k < elems.len() - 1 {
            assert(array_models(elems.drop_last(), 0)[k - 0] == elems.drop_last()[k].model());
        }
    }
    assert(l =~= r);
}

/// `member_models` holds each member's name and value model, in order.
pub proof fn lemma_member_models(members: Seq<CollectionMember>, i: int)
    requires
        0 <= i <= members.len(),
    ensures
        member_models(members, i).len() == members.len() - i,
        forall|k: int| i <= k < members.len() ==> member_models(members, i)[k - i]
            == (MemberModel { name: members[k].name@, value: members[k].value.model() }),
    decreases members.len() - i,
{
    if i < members.len() {
        lemma_member_models(members, i + 1);
    }
}

/// Pushing one member extends the member models by its model.
pub proof fn lemma_member_models_push(members: Seq<CollectionMember>)
    requires
        members.len() > 0,
    ensures
        member_models(members, 0) == member_models(members.drop_last(), 0).push(
            MemberModel { name: members.last().name@, value: members.last().value.model() },
        ),
{
    lemma_member_models(members, 0);
    lemma_member_models(members.drop_last(), 0);
    let l = member_models(members, 0);
    let r = member_models(members.drop_last(), 0).push(
        MemberModel { name: members.last().name@, value: members.last().value.model() },
    );
    assert forall|k: int| 0 <= k < l.len() implies l[k] == r[k] by {
        assert(member_models(members, 0)[k - 0] == (MemberModel {
            name: members[k].name@,
            value: members[k].value.model(),
        }));
        if k < members.len() - 1 {
            assert(member_models(members.drop_last(), 0)[k - 0] == (MemberModel {
                name: members.drop_last()[k].name@,
                value: members.drop_last()[k].value.model(),
            }));
        }
    }
    assert(l =~= r);
}

/// An array value strictly contains each of its elements; a collection
/// strictly contains each member's value. These facts drive the
/// termination of the recursive walks over a value.
pub proof fn lemma_array_elem_decreases(v: IppValue, i: int)
    requires
        v is Array,
        0 <= i < v->Array_0@.len(),
    ensures
        decreases_to!(v => v->Array_0@[i]),
{
    assert(decreases_to!(v => v->Array_0));
    assert(decreases_to!(v->Array_0 => v->Array_0@));
    assert(decreases_to!(v->Array_0@ => v->Array_0@[i]));
}

/// See [`lemma_array_elem_decreases`]; the same for collection members.
pub proof fn lemma_collection_member_decreases(v: IppValue, i: int)
    requires
        v is Collection,
        0 <= i < v->Collection_0@.len(),
    ensures
        decreases_to!(v => v->Collection_0@[i].value),
{
    assert(decreases_to!(v => v->Collection_0));
    assert(decreases_to!(v->Collection_0 => v->Collection_0@));
    assert(decreases_to!(v->Collection_0@ => v->Collection_0@[i]));
    assert(decreases_to!(v->Collection_0@[i] => v->Collection_0@[i].value));
}

impl View for IppValue {
    type V = ValueModel;

    open spec fn view(&self) -> ValueModel {
        self.model()
    }
}

/// The value tag a model serializes under. An array takes the tag of its
/// first element; an empty array the `Unknown` tag.
pub open spec fn spec_tag_of(v: ValueModel) -> u8
    decreases v,
{
    match v {
        ValueModel::Integer(_) => 0x21,
        ValueModel::Enum(_) => 0x23,
        ValueModel::OctetString(_) => 0x30,
        ValueModel::TextWithoutLanguage(_) => 0x41,
        ValueModel::NameWithoutLanguage(_) => 0x42,
        ValueModel::TextWithLanguage { .. } => 0x35,
        ValueModel::NameWithLanguage { .. } => 0x36,
        ValueModel::Charset(_) => 0x47,
        ValueModel::NaturalLanguage(_) => 0x48,
        ValueModel::Uri(_) => 0x45,
        ValueModel::UriScheme(_) => 0x46,
        ValueModel::RangeOfInteger { .. } => 0x33,
        ValueModel::Boolean(_) => 0x22,
        ValueModel::Keyword(_) => 0x44,
        ValueModel::Array(elems) => if elems.len() == 0 {
            0x12
        } else {
            spec_tag_of(elems[0])
        },
        ValueModel::Collection(_) => 0x34,
        ValueModel::MimeMediaType(_) => 0x49,
        ValueModel::DateTime { .. } => 0x31,
        ValueModel::MemberAttrName(_) => 0x4A,
        ValueModel::Resolution { .. } => 0x32,
        ValueModel::NoValue => 0x13,
        ValueModel::Other { tag, .. } => tag,
    }
}

impl IppValue {
    /// The value tag this value serializes under.
    pub fn to_tag(&self) -> (r: u8)
        ensures
            r == spec_tag_of(self@),
        decreases *self,
    {
        match self {
            IppValue::Integer(_) => ValueTag::Integer.as_u8(),
            IppValue::Enum(_) => ValueTag::Enum.as_u8(),
            IppValue::OctetString(_) => ValueTag::OctetStringUnspecified.as_u8(),
            IppValue::TextWithoutLanguage(_) => ValueTag::TextWithoutLanguage.as_u8(),
            IppValue::NameWithoutLanguage(_) => ValueTag::NameWithoutLanguage.as_u8(),
            IppValue::TextWithLanguage { .. } => ValueTag::TextWithLanguage.as_u8(),
            IppValue::NameWithLanguage { .. } => ValueTag::NameWithLanguage.as_u8(),
            IppValue::Charset(_) => ValueTag::Charset.as_u8(),
            IppValue::NaturalLanguage(_) => ValueTag::NaturalLanguage.as_u8(),
            IppValue::Uri(_) => ValueTag::Uri.as_u8(),
            IppValue::UriScheme(_) => ValueTag::UriScheme.as_u8(),
            IppValue::RangeOfInteger { .. } => ValueTag::RangeOfInteger.as_u8(),
            IppValue::Boolean(_) => ValueTag::Boolean.as_u8(),
            IppValue::Keyword(_) => ValueTag::Keyword.as_u8(),
            IppValue::Array(elems) => if elems.len() == 0 {
                ValueTag::Unknown.as_u8()
            } else {
                elems[0].to_tag()
            },
            IppValue::Collection(_) => ValueTag::BegCollection.as_u8(),
            IppValue::MimeMediaType(_) => ValueTag::MimeMediaType.as_u8(),
            IppValue::DateTime { .. } => ValueTag::DateTime.as_u8(),
            IppValue::MemberAttrName(_) => ValueTag::MemberAttrName.as_u8(),
            IppValue::Resolution { .. } => ValueTag::Resolution.as_u8(),
            IppValue::NoValue => ValueTag::NoValue.as_u8(),
            IppValue::Other { tag, .. } => *tag,
        }
    }
}


/// Whether a value fits the wire's length fields: preserved foreign data
/// (`Other`) must fit its 16-bit length prefix. Bounded strings fit by
/// construction.
pub open spec fn enc_fits(v: ValueModel) -> bool
    decreases v, 0int,
{
    match v {
        ValueModel::Other { data, .. } => data.len() <= 0xFFFF,
        ValueModel::Array(elems) => all_enc_fit(elems, 0),
        ValueModel::Collection(members) => members_enc_fit(members, 0),
        _ => true,
    }
}

/// Whether every array element from index `i` on fits the wire.
pub open spec fn all_enc_fit(elems: Seq<ValueModel>, i: int) -> bool
    decreases elems, (if i <= elems.len() { elems.len() - i } else { 0int }),
{
    if 0 <= i < elems.len() {
        enc_fits(elems[i]) && all_enc_fit(elems, i + 1)
    } else {
        true
    }
}

/// Whether every member value from index `i` on fits the wire.
pub open spec fn members_enc_fit(members: Seq<MemberModel>, i: int) -> bool
    decreases members, (if i <= members.len() { members.len() - i } else { 0int }),
{
    if 0 <= i < members.len() {
        enc_fits(members[i].value) && members_enc_fit(members, i + 1)
    } else {
        true
    }
}

/// Each element of a fitting array fits.
pub proof fn lemma_all_enc_fit(elems: Seq<ValueModel>, i: int, k: int)
    requires
        all_enc_fit(elems, i),
        0 <= i <= k < elems.len(),
    ensures
        enc_fits(elems[k]),
    decreases k - i,
{
    if i < k {
        lemma_all_enc_fit(elems, i + 1, k);
    }
}

/// Each member value of a fitting collection fits.
pub proof fn lemma_members_enc_fit(members: Seq<MemberModel>, i: int, k: int)
    requires
        members_enc_fit(members, i),
        0 <= i <= k < members.len(),
    ensures
        enc_fits(members[k].value),
    decreases k - i,
{
    if i < k {
        lemma_members_enc_fit(members, i + 1, k);
    }
}

/// The single byte a `DateTime` direction character occupies on the wire.
pub open spec fn spec_char_byte(c: char) -> u8 {
    ((c as u32) % 0x100) as u8
}

/// A length-prefixed string field: a 16-bit byte count, then the UTF-8
/// bytes.
pub open spec fn spec_text_field(s: Seq<char>) -> Seq<u8> {
    spec_u16_be(encode_utf8(s).len() as u16) + encode_utf8(s)
}

/// The payload of a language-tagged value: a total length, then two
/// length-prefixed string fields.
pub open spec fn spec_lang_field(language: Seq<char>, text: Seq<char>) -> Seq<u8> {
    spec_u16_be((encode_utf8(language).len() + encode_utf8(text).len() + 4) as u16)
        + spec_text_field(language) + spec_text_field(text)
}

/// The bytes a value occupies on the wire, excluding its value tag and
/// attribute name but including its 16-bit length prefix. An array emits
/// each element's bytes with a tag byte and an empty name between
/// elements; a collection emits its member records and the end-collection
/// record.
pub open spec fn spec_value_bytes(v: ValueModel) -> Seq<u8>
    decreases v, 0int,
{
    match v {
        ValueModel::Integer(i) => seq![0u8, 4u8] + spec_u32_be(spec_i32_as_u32(i)),
        ValueModel::Enum(i) => seq![0u8, 4u8] + spec_u32_be(spec_i32_as_u32(i)),
        ValueModel::OctetString(s) => spec_text_field(s),
        ValueModel::TextWithoutLanguage(s) => spec_text_field(s),
        ValueModel::NameWithoutLanguage(s) => spec_text_field(s),
        ValueModel::TextWithLanguage { language, text } => spec_lang_field(language, text),
        ValueModel::NameWithLanguage { language, name } => spec_lang_field(language, name),
        ValueModel::Charset(s) => spec_text_field(s),
        ValueModel::NaturalLanguage(s) => spec_text_field(s),
        ValueModel::Uri(s) => spec_text_field(s),
        ValueModel::UriScheme(s) => spec_text_field(s),
        ValueModel::RangeOfInteger { min, max } => seq![0u8, 8u8]
            + spec_u32_be(spec_i32_as_u32(min)) + spec_u32_be(spec_i32_as_u32(max)),
        ValueModel::Boolean(b) => seq![0u8, 1u8, (if b { 1u8 } else { 0u8 })],
        ValueModel::Keyword(s) => spec_text_field(s),
        ValueModel::Array(elems) => if elems.len() == 0 {
            Seq::empty()
        } else {
            spec_value_bytes(elems[0]) + spec_array_tail(spec_tag_of(elems[0]), elems, 1)
        },
        ValueModel::Collection(members) => seq![0u8, 0u8] + spec_collection_bytes(members, 0),
        ValueModel::MimeMediaType(s) => spec_text_field(s),
        ValueModel::DateTime {
            year,
            month,
            day,
            hour,
            minutes,
            seconds,
            deci_seconds,
            utc_dir,
            utc_hours,
            utc_mins,
        } => seq![0u8, 11u8] + spec_u16_be(year) + seq![
            month,
            day,
            hour,
            minutes,
            seconds,
            deci_seconds,
            spec_char_byte(utc_dir),
            utc_hours,
            utc_mins,
        ],
        ValueModel::MemberAttrName(s) => spec_text_field(s),
        ValueModel::Resolution { cross_feed, feed, units } => seq![0u8, 9u8]
            + spec_u32_be(spec_i32_as_u32(cross_feed)) + spec_u32_be(spec_i32_as_u32(feed))
            + seq![spec_i8_as_u8(units)],
        ValueModel::NoValue => seq![0u8, 0u8],
        ValueModel::Other { data, .. } => spec_u16_be(data.len() as u16) + data,
    }
}

/// The bytes of the array elements from index `i` on, each preceded by the
/// array's tag byte and an empty attribute name.
pub open spec fn spec_array_tail(tag: u8, elems: Seq<ValueModel>, i: int) -> Seq<u8>
    decreases elems, (if i <= elems.len() { elems.len() - i } else { 0int }),
{
    if 0 <= i < elems.len() {
        seq![tag, 0u8, 0u8] + spec_value_bytes(elems[i]) + spec_array_tail(tag, elems, i + 1)
    } else {
        Seq::empty()
    }
}

/// The member records of a collection from index `i` on, closed by the
/// end-collection record.
pub open spec fn spec_collection_bytes(members: Seq<MemberModel>, i: int) -> Seq<u8>
    decreases members, (if i <= members.len() { members.len() - i } else { 0int }),
{
    if 0 <= i < members.len() {
        seq![0x4Au8, 0u8, 0u8] + spec_text_field(members[i].name)
            + seq![spec_tag_of(members[i].value), 0u8, 0u8] + spec_value_bytes(members[i].value)
            + spec_collection_bytes(members, i + 1)
    } else {
        seq![0x37u8, 0u8, 0u8, 0u8, 0u8]
    }
}

/// Append a length-prefixed string field.
pub(crate) fn put_text_field(buf: &mut Vec<u8>, s: &str)
    requires
        encode_utf8(s@).len() <= 0xFFFF,
    ensures
        final(buf)@ == old(buf)@ + spec_text_field(s@),
{
    let b = s.as_bytes();
    put_u16_be(buf, b.len() as u16);
    put_bytes(buf, b);
}

impl IppValue {
    /// Serialize the value payload: the 16-bit length prefix and the
    /// payload bytes, excluding the value tag. Arrays and collections emit
    /// their framing records as RFC 8010 asks.
    #[verifier::loop_isolation(false)]
    #[verifier::rlimit(100)]
    pub fn to_bytes(&self) -> (r: Vec<u8>)
        requires
            enc_fits(self@),
        ensures
            r@ == spec_value_bytes(self@),
        decreases *self,
    {
        let mut buf: Vec<u8> = Vec::new();
        match self {
            IppValue::Integer(i) => {
                put_u16_be(&mut buf, 4);
                put_i32_be(&mut buf, *i);
                assert(buf@ =~= spec_value_bytes(self@));
            },
            IppValue::Enum(i) => {
                put_u16_be(&mut buf, 4);
                put_i32_be(&mut buf, *i);
                assert(buf@ =~= spec_value_bytes(self@));
            },
            IppValue::OctetString(t) => {
                put_text_field(&mut buf, t.as_str());
            },
            IppValue::TextWithoutLanguage(t) => {
                put_text_field(&mut buf, t.as_str());
            },
            IppValue::NameWithoutLanguage(n) => {
                put_text_field(&mut buf, n.as_str());
            },
            IppValue::TextWithLanguage { language, text } => {
                let l1 = language.len();
                let l2 = text.len();
                put_u16_be(&mut buf, (l1 + l2 + 4) as u16);
                put_text_field(&mut buf, language.as_str());
                put_text_field(&mut buf, text.as_str());
                assert(buf@ =~= spec_value_bytes(self@));
            },
            IppValue::NameWithLanguage { language, name } => {
                let l1 = language.len();
                let l2 = name.len();
                put_u16_be(&mut buf, (l1 + l2 + 4) as u16);
                put_text_field(&mut buf, language.as_str());
                put_text_field(&mut buf, name.as_str());
                assert(buf@ =~= spec_value_bytes(self@));
            },
            IppValue::Charset(s) => {
                put_text_field(&mut buf, s.as_str());
            },
            IppValue::NaturalLanguage(s) => {
                put_text_field(&mut buf, s.as_str());
            },
            IppValue::Uri(s) => {
                put_text_field(&mut buf, s.as_str());
            },
            IppValue::UriScheme(s) => {
                put_text_field(&mut buf, s.as_str());
            },
            IppValue::RangeOfInteger { min, max } => {
                put_u16_be(&mut buf, 8);
                put_i32_be(&mut buf, *min);
                put_i32_be(&mut buf, *max);
                assert(buf@ =~= spec_value_bytes(self@));
            },
            IppValue::Boolean(b) => {
                put_u16_be(&mut buf, 1);
                buf.push(if *b { 1 } else { 0 });
                assert(buf@ =~= spec_value_bytes(self@));
            },
            IppValue::Keyword(s) => {
                put_text_field(&mut buf, s.as_str());
            },
            IppValue::Array(elems) => {
                let n = elems.len();
                if n > 0 {
                    let tag = elems[0].to_tag();
                    let ghost marr = array_models(elems@, 0);
                    proof {
                        lemma_array_models(elems@, 0);
                        lemma_array_elem_decreases(*self, 0);
                        assert(self@ == ValueModel::Array(marr));
                        assert(marr[0 - 0] == elems@[0].model());
                        assert(enc_fits(ValueModel::Array(marr)));
                        lemma_all_enc_fit(marr, 0, 0);
                        assert(enc_fits(marr[0]));
                    }
                    let mut first = elems[0].to_bytes();
                    buf.append(&mut first);
                    proof {
                        assert(buf@ =~= spec_value_bytes(marr[0]));
                        assert(spec_value_bytes(self@) == spec_value_bytes(marr[0])
                            + spec_array_tail(spec_tag_of(marr[0]), marr, 1));
                        assert(tag == spec_tag_of(marr[0]));
                    }
                    for i in 1..n
                        invariant
                            n == elems.len(),
                            1 <= i <= n,
                            buf@ + spec_array_tail(tag as u8, marr, i as int)
                                == spec_value_bytes(self@),
                        decreases n - i,
                    {
                        proof {
                            lemma_array_elem_decreases(*self, i as int);
                            assert(marr[i - 0] == elems@[i as int].model());
                            lemma_all_enc_fit(marr, 0, i as int);
                            assert(enc_fits(marr[i as int]));
                        }
                        buf.push(tag);
                        put_u16_be(&mut buf, 0);
                        let mut eb = elems[i].to_bytes();
                        buf.append(&mut eb);
                        proof {
                            assert(spec_array_tail(tag as u8, marr, i - 1 + 1) == seq![
                                tag as u8,
                                0u8,
                                0u8,
                            ] + spec_value_bytes(marr[i - 1 + 1])
                                + spec_array_tail(tag as u8, marr, i + 1));
                            assert(buf@ + spec_array_tail(tag as u8, marr, i + 1) =~=
                                spec_value_bytes(self@));
                        }
                    }
                    assert(spec_array_tail(tag as u8, marr, n as int) == Seq::<u8>::empty());
                    assert(buf@ =~= spec_value_bytes(self@));
                } else {
                    assert(buf@ =~= spec_value_bytes(self@));
                }
            },
            IppValue::Collection(members) => {
                let n = members.len();
                put_u16_be(&mut buf, 0);
                let ghost mms = member_models(members@, 0);
                proof {
                    lemma_member_models(members@, 0);
                    assert(self@ == ValueModel::Collection(mms));
                    assert(spec_value_bytes(self@) == seq![0u8, 0u8]
                        + spec_collection_bytes(mms, 0));
                    assert(buf@ + spec_collection_bytes(mms, 0) =~= spec_value_bytes(self@));
                }
                for i in 0..n
                    invariant
                        n == members.len(),
                        buf@ + spec_collection_bytes(mms, i as int) == spec_value_bytes(self@),
                    decreases n - i,
                {
                    proof {
                        lemma_collection_member_decreases(*self, i as int);
                        assert(mms[i - 0] == (MemberModel {
                            name: members@[i as int].name@,
                            value: members@[i as int].value.model(),
                        }));
                        assert(enc_fits(ValueModel::Collection(mms)));
                        lemma_members_enc_fit(mms, 0, i as int);
                        assert(enc_fits(mms[i as int].value));
                    }
                    let member = &members[i];
                    buf.push(0x4A);
                    put_u16_be(&mut buf, 0);
                    put_text_field(&mut buf, member.name.as_str());
                    let vtag = member.value.to_tag();
                    buf.push(vtag);
                    put_u16_be(&mut buf, 0);
                    let mut vb = member.value.to_bytes();
                    buf.append(&mut vb);
                    proof {
                        assert(spec_collection_bytes(mms, i as int) == seq![0x4Au8, 0u8, 0u8]
                            + spec_text_field(mms[i as int].name) + seq![
                            spec_tag_of(mms[i as int].value),
                            0u8,
                            0u8,
                        ] + spec_value_bytes(mms[i as int].value)
                            + spec_collection_bytes(mms, i + 1));
                        assert(buf@ + spec_collection_bytes(mms, i + 1) =~=
                            spec_value_bytes(self@));
                    }
                }
                buf.push(0x37);
                put_u32_be(&mut buf, 0);
                proof {
                    assert(spec_collection_bytes(mms, n as int) == seq![
                        0x37u8,
                        0u8,
                        0u8,
                        0u8,
                        0u8,
                    ]);
                    assert(buf@ =~= spec_value_bytes(self@));
                }
            },
            IppValue::MimeMediaType(s) => {
                put_text_field(&mut buf, s.as_str());
            },
            IppValue::DateTime {
                year,
                month,
                day,
                hour,
                minutes,
                seconds,
                deci_seconds,
                utc_dir,
                utc_hours,
                utc_mins,
            } => {
                put_u16_be(&mut buf, 11);
                put_u16_be(&mut buf, *year);
                buf.push(*month);
                buf.push(*day);
                buf.push(*hour);
                buf.push(*minutes);
                buf.push(*seconds);
                buf.push(*deci_seconds);
                buf.push(((*utc_dir as u32) % 0x100) as u8);
                buf.push(*utc_hours);
                buf.push(*utc_mins);
                assert(buf@ =~= spec_value_bytes(self@));
            },
            IppValue::MemberAttrName(s) => {
                put_text_field(&mut buf, s.as_str());
            },
            IppValue::Resolution { cross_feed, feed, units } => {
                put_u16_be(&mut buf, 9);
                put_i32_be(&mut buf, *cross_feed);
                put_i32_be(&mut buf, *feed);
                buf.push(i8_to_u8(*units));
                assert(buf@ =~= spec_value_bytes(self@));
            },
            IppValue::NoValue => {
                put_u16_be(&mut buf, 0);
                assert(buf@ =~= spec_value_bytes(self@));
            },
            IppValue::Other { tag, data } => {
                put_u16_be(&mut buf, data.len() as u16);
                put_bytes(&mut buf, data.as_slice());
                assert(buf@ =~= spec_value_bytes(self@));
            },
        }
        buf
    }
}


/// The characters a string payload decodes to, bounded: lossy decoding of
/// the whole slice, rejected when the decoded string exceeds `max` bytes.
pub open spec fn spec_parse_text(data: Seq<u8>, max: u16) -> Result<Seq<char>, IppParseError> {
    let chars = lossy_decode(data);
    if encode_utf8(chars).len() <= max as int {
        Ok(chars)
    } else {
        Err(
            IppParseError::InvalidStringLength {
                len: encode_utf8(chars).len() as usize,
                max,
            },
        )
    }
}

/// The two strings of a language-tagged payload: two length-prefixed
/// fields, the language bounded by 63 bytes and the second string by
/// `second_max`.
pub open spec fn spec_parse_lang_pair(data: Seq<u8>, second_max: u16) -> Result<
    (Seq<char>, Seq<char>),
    IppParseError,
> {
    if data.len() < 2 {
        Err(IppParseError::Truncated { needed: 2, available: data.len() as usize })
    } else {
        let l1 = spec_u16_from_be(data[0], data[1]) as int;
        if data.len() - 2 < l1 {
            Err(
                IppParseError::Truncated {
                    needed: l1 as usize,
                    available: (data.len() - 2) as usize,
                },
            )
        } else {
            match spec_parse_text(data.subrange(2, 2 + l1), 63) {
                Err(e) => Err(e),
                Ok(language) => {
                    let rest = data.subrange(2 + l1, data.len() as int);
                    if rest.len() < 2 {
                        Err(
                            IppParseError::Truncated {
                                needed: 2,
                                available: rest.len() as usize,
                            },
                        )
                    } else {
                        let l2 = spec_u16_from_be(rest[0], rest[1]) as int;
                        if rest.len() - 2 < l2 {
                            Err(
                                IppParseError::Truncated {
                                    needed: l2 as usize,
                                    available: (rest.len() - 2) as usize,
                                },
                            )
                        } else {
                            match spec_parse_text(rest.subrange(2, 2 + l2), second_max) {
                                Err(e) => Err(e),
                                Ok(second) => Ok((language, second)),
                            }
                        }
                    }
                }
            }
        }
    }
}

/// The value a tag byte and a value payload parse to. The payload is the
/// slice the 16-bit length prefix delimited; fixed-size payloads that are
/// too short are rejected as truncated, string payloads are decoded
/// lossily and held to their bounds, and tags that carry no grammar here
/// (unassigned bytes, `Unsupported`, `Unknown`, and the collection
/// sentinels, which only the attribute stream interprets) are preserved
/// as `Other`.
pub open spec fn spec_parse_value(tag: u8, data: Seq<u8>) -> Result<ValueModel, IppParseError> {
    match ValueTag::spec_from_u8(tag) {
        None => Ok(ValueModel::Other { tag, data }),
        Some(vt) => match vt {
            ValueTag::Integer => if data.len() < 4 {
                Err(IppParseError::Truncated { needed: 4, available: data.len() as usize })
            } else {
                Ok(
                    ValueModel::Integer(
                        spec_u32_as_i32(spec_u32_from_be(data[0], data[1], data[2], data[3])),
                    ),
                )
            },
            ValueTag::Enum => if data.len() < 4 {
                Err(IppParseError::Truncated { needed: 4, available: data.len() as usize })
            } else {
                Ok(
                    ValueModel::Enum(
                        spec_u32_as_i32(spec_u32_from_be(data[0], data[1], data[2], data[3])),
                    ),
                )
            },
            ValueTag::OctetStringUnspecified => match spec_parse_text(data, 1023) {
                Ok(s) => Ok(ValueModel::OctetString(s)),
                Err(e) => Err(e),
            },
            ValueTag::TextWithoutLanguage => match spec_parse_text(data, 1023) {
                Ok(s) => Ok(ValueModel::TextWithoutLanguage(s)),
                Err(e) => Err(e),
            },
            ValueTag::NameWithoutLanguage => match spec_parse_text(data, 255) {
                Ok(s) => Ok(ValueModel::NameWithoutLanguage(s)),
                Err(e) => Err(e),
            },
            ValueTag::TextWithLanguage => match spec_parse_lang_pair(data, 1023) {
                Ok(p) => Ok(ValueModel::TextWithLanguage { language: p.0, text: p.1 }),
                Err(e) => Err(e),
            },
            ValueTag::NameWithLanguage => match spec_parse_lang_pair(data, 255) {
                Ok(p) => Ok(ValueModel::NameWithLanguage { language: p.0, name: p.1 }),
                Err(e) => Err(e),
            },
            ValueTag::Charset => match spec_parse_text(data, 63) {
                Ok(s) => Ok(ValueModel::Charset(s)),
                Err(e) => Err(e),
            },
            ValueTag::NaturalLanguage => match spec_parse_text(data, 63) {
                Ok(s) => Ok(ValueModel::NaturalLanguage(s)),
                Err(e) => Err(e),
            },
            ValueTag::Uri => match spec_parse_text(data, 1023) {
                Ok(s) => Ok(ValueModel::Uri(s)),
                Err(e) => Err(e),
            },
            ValueTag::UriScheme => match spec_parse_text(data, 1023) {
                Ok(s) => Ok(ValueModel::UriScheme(s)),
                Err(e) => Err(e),
            },
            ValueTag::RangeOfInteger => if data.len() < 8 {
                Err(IppParseError::Truncated { needed: 8, available: data.len() as usize })
            } else {
                Ok(
                    ValueModel::RangeOfInteger {
                        min: spec_u32_as_i32(
                            spec_u32_from_be(data[0], data[1], data[2], data[3]),
                        ),
                        max: spec_u32_as_i32(
                            spec_u32_from_be(data[4], data[5], data[6], data[7]),
                        ),
                    },
                )
            },
            ValueTag::Boolean => if data.len() < 1 {
                Err(IppParseError::Truncated { needed: 1, available: 0 })
            } else {
                Ok(ValueModel::Boolean(data[0] != 0))
            },
            ValueTag::Keyword => match spec_parse_text(data, 255) {
                Ok(s) => Ok(ValueModel::Keyword(s)),
                Err(e) => Err(e),
            },
            ValueTag::MimeMediaType => match spec_parse_text(data, 255) {
                Ok(s) => Ok(ValueModel::MimeMediaType(s)),
                Err(e) => Err(e),
            },
            ValueTag::DateTime => if data.len() < 11 {
                Err(IppParseError::Truncated { needed: 11, available: data.len() as usize })
            } else {
                Ok(
                    ValueModel::DateTime {
                        year: spec_u16_from_be(data[0], data[1]),
                        month: data[2],
                        day: data[3],
                        hour: data[4],
                        minutes: data[5],
                        seconds: data[6],
                        deci_seconds: data[7],
                        utc_dir: data[8] as char,
                        utc_hours: data[9],
                        utc_mins: data[10],
                    },
                )
            },
            ValueTag::MemberAttrName => match spec_parse_text(data, 255) {
                Ok(s) => Ok(ValueModel::MemberAttrName(s)),
                Err(e) => Err(e),
            },
            ValueTag::Resolution => if data.len() < 9 {
                Err(IppParseError::Truncated { needed: 9, available: data.len() as usize })
            } else {
                Ok(
                    ValueModel::Resolution {
                        cross_feed: spec_u32_as_i32(
                            spec_u32_from_be(data[0], data[1], data[2], data[3]),
                        ),
                        feed: spec_u32_as_i32(
                            spec_u32_from_be(data[4], data[5], data[6], data[7]),
                        ),
                        units: spec_u8_as_i8(data[8]),
                    },
                )
            },
            ValueTag::NoValue => Ok(ValueModel::NoValue),
            ValueTag::Unsupported => Ok(ValueModel::Other { tag, data }),
            ValueTag::Unknown => Ok(ValueModel::Other { tag, data }),
            ValueTag::BegCollection => Ok(ValueModel::Other { tag, data }),
            ValueTag::EndCollection => Ok(ValueModel::Other { tag, data }),
        },
    }
}


impl IppValue {
    /// Parse a value payload under a pre-read value tag. `data` is the
    /// slice the 16-bit length prefix delimited; the length prefix itself
    /// is not part of it. Arrays and collections are not parsed here: the
    /// attribute stream assembles them from whole records.
    pub fn parse(value_tag: u8, data: &[u8]) -> (r: Result<IppValue, IppParseError>)
        ensures
            match r {
                Ok(v) => spec_parse_value(value_tag, data@) == Ok::<ValueModel, IppParseError>(
                    v@,
                ),
                Err(e) => spec_parse_value(value_tag, data@) == Err::<ValueModel, IppParseError>(
                    e,
                ),
            },
    {
        let tag = match ValueTag::from_u8(value_tag) {
            Some(t) => t,
            None => {
                let full = sub_vec(data, 0, data.len());
                proof {
                    assert(full@ =~= data@);
                }
                return Ok(IppValue::Other { tag: value_tag, data: full });
            },
        };
        match tag {
            ValueTag::Integer => {
                if data.len() < 4 {
                    Err(IppParseError::Truncated { needed: 4, available: data.len() })
                } else {
                    Ok(IppValue::Integer(get_i32_be(data, 0)))
                }
            },
            ValueTag::Enum => {
                if data.len() < 4 {
                    Err(IppParseError::Truncated { needed: 4, available: data.len() })
                } else {
                    Ok(IppValue::Enum(get_i32_be(data, 0)))
                }
            },
            ValueTag::OctetStringUnspecified => {
                let s = utf8_lossy_to_string(data);
                match IppTextValue::new(s.as_str()) {
                    Ok(t) => Ok(IppValue::OctetString(t)),
                    Err(e) => Err(e),
                }
            },
            ValueTag::TextWithoutLanguage => {
                let s = utf8_lossy_to_string(data);
                match IppTextValue::new(s.as_str()) {
                    Ok(t) => Ok(IppValue::TextWithoutLanguage(t)),
                    Err(e) => Err(e),
                }
            },
            ValueTag::NameWithoutLanguage => {
                let s = utf8_lossy_to_string(data);
                match IppName::new(s.as_str()) {
                    Ok(n) => Ok(IppValue::NameWithoutLanguage(n)),
                    Err(e) => Err(e),
                }
            },
            ValueTag::TextWithLanguage => {
                match Self::parse_lang_prefix(data) {
                    Err(e) => Err(e),
                    Ok((language, start, end)) => {
                        let sv = sub_vec(data, start, end);
                        let s = utf8_lossy_to_string(sv.as_slice());
                        match IppTextValue::new(s.as_str()) {
                            Ok(text) => Ok(IppValue::TextWithLanguage { language, text }),
                            Err(e) => Err(e),
                        }
                    },
                }
            },
            ValueTag::NameWithLanguage => {
                match Self::parse_lang_prefix(data) {
                    Err(e) => Err(e),
                    Ok((language, start, end)) => {
                        let sv = sub_vec(data, start, end);
                        let s = utf8_lossy_to_string(sv.as_slice());
                        match IppName::new(s.as_str()) {
                            Ok(name) => Ok(IppValue::NameWithLanguage { language, name }),
                            Err(e) => Err(e),
                        }
                    },
                }
            },
            ValueTag::Charset => {
                let s = utf8_lossy_to_string(data);
                match IppCharset::new(s.as_str()) {
                    Ok(c) => Ok(IppValue::Charset(c)),
                    Err(e) => Err(e),
                }
            },
            ValueTag::NaturalLanguage => {
                let s = utf8_lossy_to_string(data);
                match IppLanguage::new(s.as_str()) {
                    Ok(l) => Ok(IppValue::NaturalLanguage(l)),
                    Err(e) => Err(e),
                }
            },
            ValueTag::Uri => {
                let s = utf8_lossy_to_string(data);
                match IppString::new(s.as_str()) {
                    Ok(u) => Ok(IppValue::Uri(u)),
                    Err(e) => Err(e),
                }
            },
            ValueTag::UriScheme => {
                let s = utf8_lossy_to_string(data);
                match IppString::new(s.as_str()) {
                    Ok(u) => Ok(IppValue::UriScheme(u)),
                    Err(e) => Err(e),
                }
            },
            ValueTag::RangeOfInteger => {
                if data.len() < 8 {
                    Err(IppParseError::Truncated { needed: 8, available: data.len() })
                } else {
                    Ok(
                        IppValue::RangeOfInteger {
                            min: get_i32_be(data, 0),
                            max: get_i32_be(data, 4),
                        },
                    )
                }
            },
            ValueTag::Boolean => {
                if data.len() < 1 {
                    Err(IppParseError::Truncated { needed: 1, available: 0 })
                } else {
                    Ok(IppValue::Boolean(data[0] != 0))
                }
            },
            ValueTag::Keyword => {
                let s = utf8_lossy_to_string(data);
                match IppKeyword::new(s.as_str()) {
                    Ok(k) => Ok(IppValue::Keyword(k)),
                    Err(e) => Err(e),
                }
            },
            ValueTag::MimeMediaType => {
                let s = utf8_lossy_to_string(data);
                match IppMimeMediaType::new(s.as_str()) {
                    Ok(m) => Ok(IppValue::MimeMediaType(m)),
                    Err(e) => Err(e),
                }
            },
            ValueTag::DateTime => {
                if data.len() < 11 {
                    Err(IppParseError::Truncated { needed: 11, available: data.len() })
                } else {
                    Ok(
                        IppValue::DateTime {
                            year: get_u16_be(data, 0),
                            month: data[2],
                            day: data[3],
                            hour: data[4],
                            minutes: data[5],
                            seconds: data[6],
                            deci_seconds: data[7],
                            utc_dir: data[8] as char,
                            utc_hours: data[9],
                            utc_mins: data[10],
                        },
                    )
                }
            },
            ValueTag::MemberAttrName => {
                let s = utf8_lossy_to_string(data);
                match IppKeyword::new(s.as_str()) {
                    Ok(m) => Ok(IppValue::MemberAttrName(m)),
                    Err(e) => Err(e),
                }
            },
            ValueTag::Resolution => {
                if data.len() < 9 {
                    Err(IppParseError::Truncated { needed: 9, available: data.len() })
                } else {
                    Ok(
                        IppValue::Resolution {
                            cross_feed: get_i32_be(data, 0),
                            feed: get_i32_be(data, 4),
                            units: u8_to_i8(data[8]),
                        },
                    )
                }
            },
            ValueTag::NoValue => Ok(IppValue::NoValue),
            ValueTag::Unsupported => {
                let full = sub_vec(data, 0, data.len());
                proof {
                    assert(full@ =~= data@);
                }
                Ok(IppValue::Other { tag: value_tag, data: full })
            },
            ValueTag::Unknown => {
                let full = sub_vec(data, 0, data.len());
                proof {
                    assert(full@ =~= data@);
                }
                Ok(IppValue::Other { tag: value_tag, data: full })
            },
            ValueTag::BegCollection => {
                let full = sub_vec(data, 0, data.len());
                proof {
                    assert(full@ =~= data@);
                }
                Ok(IppValue::Other { tag: value_tag, data: full })
            },
            ValueTag::EndCollection => {
                let full = sub_vec(data, 0, data.len());
                proof {
                    assert(full@ =~= data@);
                }
                Ok(IppValue::Other { tag: value_tag, data: full })
            },
        }
    }

    /// Read the language field of a language-tagged payload. On success
    /// yields the language and the byte range of the second field's
    /// contents.
    fn parse_lang_prefix(data: &[u8]) -> (r: Result<(IppLanguage, usize, usize), IppParseError>)
        ensures
            match r {
                Ok(p) => {
                    &&& spec_parse_lang_pair(data@, 1023) matches Ok(q) ==> q.0 == p.0@
                    &&& p.1 <= p.2 <= data@.len()
                    &&& {
                        let rest = data@.subrange(
                            2 + spec_u16_from_be(data@[0], data@[1]) as int,
                            data@.len() as int,
                        );
                        &&& data@.len() >= 2
                        &&& data@.len() - 2 >= spec_u16_from_be(data@[0], data@[1]) as int
                        &&& lossy_decode(
                            data@.subrange(2, 2 + spec_u16_from_be(data@[0], data@[1]) as int),
                        ) == p.0@
                        &&& encode_utf8(p.0@).len() <= 63
                        &&& rest.len() >= 2
                        &&& rest.len() - 2 >= spec_u16_from_be(rest[0], rest[1]) as int
                        &&& data@.subrange(p.1 as int, p.2 as int) == rest.subrange(
                            2,
                            2 + spec_u16_from_be(rest[0], rest[1]) as int,
                        )
                    }
                },
                Err(e) => forall|m: u16| #[trigger] spec_parse_lang_pair(data@, m)
                    == Err::<(Seq<char>, Seq<char>), IppParseError>(e),
            },
    {
        if data.len() < 2 {
            return Err(IppParseError::Truncated { needed: 2, available: data.len() });
        }
        let l1 = get_u16_be(data, 0) as usize;
        if data.len() - 2 < l1 {
            return Err(IppParseError::Truncated { needed: l1, available: data.len() - 2 });
        }
        let lv = sub_vec(data, 2, 2 + l1);
        let ls = utf8_lossy_to_string(lv.as_slice());
        let language = match IppLanguage::new(ls.as_str()) {
            Ok(l) => l,
            Err(e) => {
                return Err(e);
            },
        };
        let o = 2 + l1;
        proof {
            let rest = data@.subrange(o as int, data@.len() as int);
            assert(rest.len() == data@.len() - o);
        }
        if data.len() - o < 2 {
            return Err(IppParseError::Truncated { needed: 2, available: data.len() - o });
        }
        let l2 = get_u16_be(data, o) as usize;
        proof {
            let rest = data@.subrange(o as int, data@.len() as int);
            assert(rest[0] == data@[o as int]);
            assert(rest[1] == data@[o + 1]);
        }
        if data.len() - o - 2 < l2 {
            return Err(IppParseError::Truncated { needed: l2, available: data.len() - o - 2 });
        }
        proof {
            let rest = data@.subrange(o as int, data@.len() as int);
            assert(data@.subrange(o + 2, o + 2 + l2 as int) =~= rest.subrange(
                2,
                2 + spec_u16_from_be(rest[0], rest[1]) as int,
            ));
        }
        Ok((language, o + 2, o + 2 + l2))
    }
}


/// Whether an `Other` tag byte survives a round trip: the byte must not
/// carry a value grammar of its own.
pub open spec fn other_tag_opaque(tag: u8) -> bool {
    match ValueTag::spec_from_u8(tag) {
        None => true,
        Some(t) => t is Unsupported || t is Unknown || t is BegCollection || t is EndCollection,
    }
}

/// Well-formedness of a scalar value for the value-level round trip:
/// strings are within the bounds of their positions, a date's direction
/// character fits one byte, preserved foreign data fits its length field
/// under a tag that parses back to `Other`. Arrays and collections are
/// not scalars: the attribute stream frames them.
pub open spec fn scalar_wf(v: ValueModel) -> bool {
    match v {
        ValueModel::Integer(_) => true,
        ValueModel::Enum(_) => true,
        ValueModel::OctetString(s) => encode_utf8(s).len() <= 1023,
        ValueModel::TextWithoutLanguage(s) => encode_utf8(s).len() <= 1023,
        ValueModel::NameWithoutLanguage(s) => encode_utf8(s).len() <= 255,
        ValueModel::TextWithLanguage { language, text } => encode_utf8(language).len() <= 63
            && encode_utf8(text).len() <= 1023,
        ValueModel::NameWithLanguage { language, name } => encode_utf8(language).len() <= 63
            && encode_utf8(name).len() <= 255,
        ValueModel::Charset(s) => encode_utf8(s).len() <= 63,
        ValueModel::NaturalLanguage(s) => encode_utf8(s).len() <= 63,
        ValueModel::Uri(s) => encode_utf8(s).len() <= 1023,
        ValueModel::UriScheme(s) => encode_utf8(s).len() <= 1023,
        ValueModel::RangeOfInteger { .. } => true,
        ValueModel::Boolean(_) => true,
        ValueModel::Keyword(s) => encode_utf8(s).len() <= 255,
        ValueModel::Array(_) => false,
        ValueModel::Collection(_) => false,
        ValueModel::MimeMediaType(s) => encode_utf8(s).len() <= 255,
        ValueModel::DateTime { utc_dir, .. } => (utc_dir as u32) < 0x100,
        ValueModel::MemberAttrName(s) => encode_utf8(s).len() <= 255,
        ValueModel::Resolution { .. } => true,
        ValueModel::NoValue => true,
        ValueModel::Other { tag, data } => data.len() <= 0xFFFF && other_tag_opaque(tag),
    }
}

/// A bounded string's payload parses back to the same characters.
proof fn lemma_text_roundtrip(s: Seq<char>, max: u16)
    requires
        encode_utf8(s).len() <= max as int,
    ensures
        spec_text_field(s).skip(2) =~= encode_utf8(s),
        spec_parse_text(encode_utf8(s), max) == Ok::<Seq<char>, IppParseError>(s),
{
    broadcast use vstd::utf8::encode_utf8_valid_utf8;
    broadcast use vstd::utf8::encode_utf8_decode_utf8;

    assert(spec_text_field(s).skip(2) =~= encode_utf8(s));
    assert(lossy_decode(encode_utf8(s)) == s);
}

/// A language-tagged payload parses back to its two strings.
proof fn lemma_lang_pair_roundtrip(language: Seq<char>, second: Seq<char>, second_max: u16)
    requires
        encode_utf8(language).len() <= 63,
        encode_utf8(second).len() <= second_max as int,
    ensures
        spec_parse_lang_pair(spec_lang_field(language, second).skip(2), second_max)
            == Ok::<(Seq<char>, Seq<char>), IppParseError>((language, second)),
{
    let l1 = encode_utf8(language).len() as int;
    let l2 = encode_utf8(second).len() as int;
    let d = spec_lang_field(language, second).skip(2);
    assert(d =~= spec_text_field(language) + spec_text_field(second));
    assert(d.len() == 2 + l1 + 2 + l2);
    assert(d[0] == spec_u16_be(l1 as u16)[0]);
    assert(d[1] == spec_u16_be(l1 as u16)[1]);
    crate::wire::lemma_u16_be_roundtrip(l1 as u16);
    assert(spec_u16_from_be(d[0], d[1]) as int == l1);
    assert(d.subrange(2, 2 + l1) =~= encode_utf8(language));
    lemma_text_roundtrip(language, 63);
    let rest = d.subrange(2 + l1, d.len() as int);
    assert(rest =~= spec_text_field(second));
    assert(rest[0] == spec_u16_be(l2 as u16)[0]);
    assert(rest[1] == spec_u16_be(l2 as u16)[1]);
    crate::wire::lemma_u16_be_roundtrip(l2 as u16);
    assert(spec_u16_from_be(rest[0], rest[1]) as int == l2);
    assert(rest.subrange(2, 2 + l2) =~= encode_utf8(second));
    lemma_text_roundtrip(second, second_max);
}


/// The value-level round trip: a well-formed scalar value, serialized and
/// then parsed under its own tag with the length prefix stripped, comes
/// back unchanged.
pub proof fn lemma_value_roundtrip(v: ValueModel)
    requires
        scalar_wf(v),
    ensures
        spec_value_bytes(v).len() >= 2,
        spec_parse_value(spec_tag_of(v), spec_value_bytes(v).skip(2)) == Ok::<
            ValueModel,
            IppParseError,
        >(v),
{
    match v {
        ValueModel::Integer(_) => lemma_rt_integer(v),
        ValueModel::Enum(_) => lemma_rt_integer(v),
        ValueModel::OctetString(_) => lemma_rt_text(v),
        ValueModel::TextWithoutLanguage(_) => lemma_rt_text(v),
        ValueModel::NameWithoutLanguage(_) => lemma_rt_text(v),
        ValueModel::TextWithLanguage { .. } => lemma_rt_lang(v),
        ValueModel::NameWithLanguage { .. } => lemma_rt_lang(v),
        ValueModel::Charset(_) => lemma_rt_text(v),
        ValueModel::NaturalLanguage(_) => lemma_rt_text(v),
        ValueModel::Uri(_) => lemma_rt_text(v),
        ValueModel::UriScheme(_) => lemma_rt_text(v),
        ValueModel::RangeOfInteger { .. } => lemma_rt_range(v),
        ValueModel::Boolean(_) => lemma_rt_misc(v),
        ValueModel::Keyword(_) => lemma_rt_text(v),
        ValueModel::Array(_) => {},
        ValueModel::Collection(_) => {},
        ValueModel::MimeMediaType(_) => lemma_rt_text(v),
        ValueModel::DateTime { .. } => lemma_rt_datetime(v),
        ValueModel::MemberAttrName(_) => lemma_rt_text(v),
        ValueModel::Resolution { .. } => lemma_rt_resolution(v),
        ValueModel::NoValue => lemma_rt_misc(v),
        ValueModel::Other { .. } => lemma_rt_misc(v),
    }
}

proof fn lemma_rt_integer(v: ValueModel)
    requires
        scalar_wf(v),
        v is Integer || v is Enum,
    ensures
        spec_value_bytes(v).len() >= 2,
        spec_parse_value(spec_tag_of(v), spec_value_bytes(v).skip(2)) == Ok::<
            ValueModel,
            IppParseError,
        >(v),
{
    let d = spec_value_bytes(v).skip(2);
    let i = if v is Integer {
        v->Integer_0
    } else {
        v->Enum_0
    };
    let u = spec_i32_as_u32(i);
    assert(d =~= spec_u32_be(u));
    crate::wire::lemma_u32_be_roundtrip(u);
    crate::wire::lemma_i32_u32_roundtrip(i);
}

#[verifier::rlimit(100)]
proof fn lemma_rt_text(v: ValueModel)
    requires
        scalar_wf(v),
        v is OctetString || v is TextWithoutLanguage || v is NameWithoutLanguage || v is Charset
            || v is NaturalLanguage || v is Uri || v is UriScheme || v is Keyword
            || v is MimeMediaType || v is MemberAttrName,
    ensures
        spec_value_bytes(v).len() >= 2,
        spec_parse_value(spec_tag_of(v), spec_value_bytes(v).skip(2)) == Ok::<
            ValueModel,
            IppParseError,
        >(v),
{
    let d = spec_value_bytes(v).skip(2);
    match v {
        ValueModel::OctetString(s) => {
            assert(d =~= encode_utf8(s));
            lemma_text_roundtrip(s, 1023);
        },
        ValueModel::TextWithoutLanguage(s) => {
            assert(d =~= encode_utf8(s));
            lemma_text_roundtrip(s, 1023);
        },
        ValueModel::NameWithoutLanguage(s) => {
            assert(d =~= encode_utf8(s));
            lemma_text_roundtrip(s, 255);
        },
        ValueModel::Charset(s) => {
            assert(d =~= encode_utf8(s));
            lemma_text_roundtrip(s, 63);
        },
        ValueModel::NaturalLanguage(s) => {
            assert(d =~= encode_utf8(s));
            lemma_text_roundtrip(s, 63);
        },
        ValueModel::Uri(s) => {
            assert(d =~= encode_utf8(s));
            lemma_text_roundtrip(s, 1023);
        },
        ValueModel::UriScheme(s) => {
            assert(d =~= encode_utf8(s));
            lemma_text_roundtrip(s, 1023);
        },
        ValueModel::Keyword(s) => {
            assert(d =~= encode_utf8(s));
            lemma_text_roundtrip(s, 255);
        },
        ValueModel::MimeMediaType(s) => {
            assert(d =~= encode_utf8(s));
            lemma_text_roundtrip(s, 255);
        },
        ValueModel::MemberAttrName(s) => {
            assert(d =~= encode_utf8(s));
            lemma_text_roundtrip(s, 255);
        },
        _ => {},
    }
}

proof fn lemma_rt_lang(v: ValueModel)
    requires
        scalar_wf(v),
        v is TextWithLanguage || v is NameWithLanguage,
    ensures
        spec_value_bytes(v).len() >= 2,
        spec_parse_value(spec_tag_of(v), spec_value_bytes(v).skip(2)) == Ok::<
            ValueModel,
            IppParseError,
        >(v),
{
    match v {
        ValueModel::TextWithLanguage { language, text } => {
            lemma_lang_pair_roundtrip(language, text, 1023);
        },
        ValueModel::NameWithLanguage { language, name } => {
            lemma_lang_pair_roundtrip(language, name, 255);
        },
        _ => {},
    }
}

proof fn lemma_rt_range(v: ValueModel)
    requires
        scalar_wf(v),
        v is RangeOfInteger,
    ensures
        spec_value_bytes(v).len() >= 2,
        spec_parse_value(spec_tag_of(v), spec_value_bytes(v).skip(2)) == Ok::<
            ValueModel,
            IppParseError,
        >(v),
{
    let d = spec_value_bytes(v).skip(2);
    let min = v->RangeOfInteger_min;
    let max = v->RangeOfInteger_max;
    let umin = spec_i32_as_u32(min);
    let umax = spec_i32_as_u32(max);
    assert(d =~= spec_u32_be(umin) + spec_u32_be(umax));
    assert(d.len() == 8);
    assert(d[0] == spec_u32_be(umin)[0]);
    assert(d[1] == spec_u32_be(umin)[1]);
    assert(d[2] == spec_u32_be(umin)[2]);
    assert(d[3] == spec_u32_be(umin)[3]);
    assert(d[4] == spec_u32_be(umax)[0]);
    assert(d[5] == spec_u32_be(umax)[1]);
    assert(d[6] == spec_u32_be(umax)[2]);
    assert(d[7] == spec_u32_be(umax)[3]);
    crate::wire::lemma_u32_be_roundtrip(umin);
    crate::wire::lemma_u32_be_roundtrip(umax);
    crate::wire::lemma_i32_u32_roundtrip(min);
    crate::wire::lemma_i32_u32_roundtrip(max);
}

proof fn lemma_rt_datetime(v: ValueModel)
    requires
        scalar_wf(v),
        v is DateTime,
    ensures
        spec_value_bytes(v).len() >= 2,
        spec_parse_value(spec_tag_of(v), spec_value_bytes(v).skip(2)) == Ok::<
            ValueModel,
            IppParseError,
        >(v),
{
    let d = spec_value_bytes(v).skip(2);
    match v {
        ValueModel::DateTime {
            year,
            month,
            day,
            hour,
            minutes,
            seconds,
            deci_seconds,
            utc_dir,
            utc_hours,
            utc_mins,
        } => {
            assert(d =~= spec_u16_be(year) + seq![
                month,
                day,
                hour,
                minutes,
                seconds,
                deci_seconds,
                spec_char_byte(utc_dir),
                utc_hours,
                utc_mins,
            ]);
            assert(d.len() == 11);
            crate::wire::lemma_u16_be_roundtrip(year);
            assert(d[0] == spec_u16_be(year)[0]);
            assert(d[1] == spec_u16_be(year)[1]);
            assert(spec_char_byte(utc_dir) as u32 == utc_dir as u32);
            vstd::utf8::char_u32_cast(utc_dir, utc_dir as u32);
            assert(d[8] == spec_char_byte(utc_dir));
            assert((d[8] as char) == utc_dir);
        },
        _ => {},
    }
}

proof fn lemma_rt_resolution(v: ValueModel)
    requires
        scalar_wf(v),
        v is Resolution,
    ensures
        spec_value_bytes(v).len() >= 2,
        spec_parse_value(spec_tag_of(v), spec_value_bytes(v).skip(2)) == Ok::<
            ValueModel,
            IppParseError,
        >(v),
{
    let d = spec_value_bytes(v).skip(2);
    let cross_feed = v->Resolution_cross_feed;
    let feed = v->Resolution_feed;
    let units = v->Resolution_units;
    let uc = spec_i32_as_u32(cross_feed);
    let uf = spec_i32_as_u32(feed);
    assert(d =~= spec_u32_be(uc) + spec_u32_be(uf) + seq![spec_i8_as_u8(units)]);
    assert(d.len() == 9);
    assert(d[0] == spec_u32_be(uc)[0]);
    assert(d[1] == spec_u32_be(uc)[1]);
    assert(d[2] == spec_u32_be(uc)[2]);
    assert(d[3] == spec_u32_be(uc)[3]);
    assert(d[4] == spec_u32_be(uf)[0]);
    assert(d[5] == spec_u32_be(uf)[1]);
    assert(d[6] == spec_u32_be(uf)[2]);
    assert(d[7] == spec_u32_be(uf)[3]);
    assert(d[8] == spec_i8_as_u8(units));
    crate::wire::lemma_u32_be_roundtrip(uc);
    crate::wire::lemma_u32_be_roundtrip(uf);
    crate::wire::lemma_i32_u32_roundtrip(cross_feed);
    crate::wire::lemma_i32_u32_roundtrip(feed);
    crate::wire::lemma_i8_u8_roundtrip(units);
}

proof fn lemma_rt_misc(v: ValueModel)
    requires
        scalar_wf(v),
        v is Boolean || v is NoValue || v is Other,
    ensures
        spec_value_bytes(v).len() >= 2,
        spec_parse_value(spec_tag_of(v), spec_value_bytes(v).skip(2)) == Ok::<
            ValueModel,
            IppParseError,
        >(v),
{
    let d = spec_value_bytes(v).skip(2);
    match v {
        ValueModel::Boolean(b) => {
            assert(d =~= seq![(if b { 1u8 } else { 0u8 })]);
        },
        ValueModel::NoValue => {
            assert(d =~= Seq::<u8>::empty());
        },
        ValueModel::Other { tag, data } => {
            assert(d =~= data);
        },
        _ => {},
    }
}


impl IppValue {
    /// Whether this value is an array; if so, borrow its elements.
    pub fn as_array(&self) -> (r: Option<&Vec<IppValue>>)
        ensures
            match r {
                Some(elems) => self@ is Array && self@->Array_0 == array_models(elems@, 0),
                None => !(self@ is Array),
            },
    {
        match self {
            IppValue::Array(elems) => Some(elems),
            _ => None,
        }
    }

    /// Whether this value is an integer; if so, its payload.
    pub fn as_integer(&self) -> (r: Option<i32>)
        ensures
            match r {
                Some(i) => self@ == ValueModel::Integer(i),
                None => !(self@ is Integer),
            },
    {
        match self {
            IppValue::Integer(i) => Some(*i),
            _ => None,
        }
    }

    /// Whether this value is a boolean; if so, its payload.
    pub fn as_boolean(&self) -> (r: Option<bool>)
        ensures
            match r {
                Some(b) => self@ == ValueModel::Boolean(b),
                None => !(self@ is Boolean),
            },
    {
        match self {
            IppValue::Boolean(b) => Some(*b),
            _ => None,
        }
    }

    /// Whether this value is a collection; if so, borrow its members.
    pub fn as_collection(&self) -> (r: Option<&Vec<CollectionMember>>)
        ensures
            match r {
                Some(members) => self@ is Collection && self@->Collection_0 == member_models(
                    members@,
                    0,
                ),
                None => !(self@ is Collection),
            },
    {
        match self {
            IppValue::Collection(members) => Some(members),
            _ => None,
        }
    }

    /// Walk this value: over an array or a collection, its members in
    /// order; over anything else, the value itself once.
    pub fn iter(&self) -> (r: IppValueIterator)
        ensures
            r.value@ == self@,
            r.index == 0,
    {
        IppValueIterator { value: self, index: 0 }
    }
}

/// The number of values [`IppValueIterator`] yields.
pub open spec fn spec_iter_len(v: ValueModel) -> int {
    match v {
        ValueModel::Array(elems) => elems.len() as int,
        ValueModel::Collection(members) => members.len() as int,
        _ => 1,
    }
}

/// The value an iterator yields at position `i`.
pub open spec fn spec_iter_at(v: ValueModel, i: int) -> ValueModel {
    match v {
        ValueModel::Array(elems) => elems[i],
        ValueModel::Collection(members) => members[i].value,
        _ => v,
    }
}

/// A cursor over one value: the elements of an array, the member values
/// of a collection, or the value itself once.
pub struct IppValueIterator<'a> {
    /// The value walked over.
    pub value: &'a IppValue,
    /// The position of the next value to yield.
    pub index: usize,
}

impl<'a> IppValueIterator<'a> {
    /// The next value, if any are left.
    pub fn next(&mut self) -> (r: Option<&'a IppValue>)
        ensures
            match r {
                Some(v) => {
                    &&& (old(self).index as int) < spec_iter_len(old(self).value@)
                    &&& v@ == spec_iter_at(old(self).value@, old(self).index as int)
                    &&& final(self).index == old(self).index + 1
                    &&& final(self).value@ == old(self).value@
                },
                None => {
                    &&& (old(self).index as int) >= spec_iter_len(old(self).value@)
                    &&& *final(self) == *old(self)
                },
            },
    {
        match self.value {
            IppValue::Array(elems) => {
                if self.index < elems.len() {
                    self.index = self.index + 1;
                    let r = &elems[self.index - 1];
                    proof {
                        crate::value::lemma_array_models(elems@, 0);
                        assert(array_models(elems@, 0)[(self.index - 1) as int - 0] == elems@[(
                        self.index - 1) as int].model());
                    }
                    Some(r)
                } else {
                    proof {
                        crate::value::lemma_array_models(elems@, 0);
                    }
                    None
                }
            },
            IppValue::Collection(members) => {
                if self.index < members.len() {
                    self.index = self.index + 1;
                    let r = &members[self.index - 1].value;
                    proof {
                        crate::value::lemma_member_models(members@, 0);
                        assert(member_models(members@, 0)[(self.index - 1) as int - 0]
                            == (MemberModel {
                            name: members@[(self.index - 1) as int].name@,
                            value: members@[(self.index - 1) as int].value.model(),
                        }));
                    }
                    Some(r)
                } else {
                    proof {
                        crate::value::lemma_member_models(members@, 0);
                    }
                    None
                }
            },
            _ => {
                if self.index == 0 {
                    self.index = 1;
                    Some(self.value)
                } else {
                    None
                }
            },
        }
    }
}


/// Whether every character is an ASCII decimal digit, and there is at
/// least one.
pub open spec fn spec_is_dec_digits(s: Seq<char>) -> bool {
    s.len() > 0 && forall|i: int| 0 <= i < s.len() ==> 48 <= #[trigger] (s[i] as u32) <= 57
}

/// The number a sequence of ASCII decimal digits denotes.
pub open spec fn spec_dec_value(s: Seq<char>) -> int
    decreases s.len(),
{
    if s.len() == 0 {
        0
    } else {
        spec_dec_value(s.drop_last()) * 10 + (s.last() as u32 - 48)
    }
}

/// What `str::parse::<i32>` yields: an optional leading sign, then one
/// or more ASCII decimal digits, denoting a value within the i32 range;
/// anything else is rejected.
pub open spec fn spec_parsed_i32(s: Seq<char>) -> Option<i32> {
    let negative = s.len() > 0 && s[0] == '-';
    let digits = if s.len() > 0 && (s[0] == '-' || s[0] == '+') {
        s.skip(1)
    } else {
        s
    };
    if spec_is_dec_digits(digits) {
        let v = if negative {
            -spec_dec_value(digits)
        } else {
            spec_dec_value(digits)
        };
        if -0x8000_0000 <= v <= 0x7FFF_FFFF {
            Some(v as i32)
        } else {
            None
        }
    } else {
        None
    }
}

/// Relies on `str::parse::<i32>`: it accepts exactly an optional leading
/// `+` or `-` followed by one or more ASCII decimal digits, denoting a
/// value within the i32 range.
#[verifier::external_body]
fn parse_i32(s: &str) -> (r: Option<i32>)
    ensures
        r == spec_parsed_i32(s@),
{
    s.parse::<i32>().ok()
}

/// The value a plain string denotes: the booleans by keyword, integers
/// by decimal notation, anything else as an IPP keyword within its
/// 255-byte bound.
pub open spec fn spec_value_from_str(s: Seq<char>) -> Result<ValueModel, IppParseError> {
    if s == "true"@ {
        Ok(ValueModel::Boolean(true))
    } else if s == "false"@ {
        Ok(ValueModel::Boolean(false))
    } else if spec_parsed_i32(s) is Some {
        Ok(ValueModel::Integer(spec_parsed_i32(s)->0))
    } else if encode_utf8(s).len() <= 255 {
        Ok(ValueModel::Keyword(s))
    } else {
        Err(IppParseError::InvalidStringLength { len: encode_utf8(s).len() as usize, max: 255 })
    }
}

impl IppValue {
    /// Read a value from a plain string, as [`spec_value_from_str`]
    /// says.
    pub fn parse_str(s: &str) -> (r: Result<IppValue, IppParseError>)
        ensures
            match r {
                Ok(v) => spec_value_from_str(s@) == Ok::<ValueModel, IppParseError>(v@),
                Err(e) => spec_value_from_str(s@) == Err::<ValueModel, IppParseError>(e),
            },
    {
        if crate::text::str_eq(s, "true") {
            Ok(IppValue::Boolean(true))
        } else if crate::text::str_eq(s, "false") {
            Ok(IppValue::Boolean(false))
        } else {
            match parse_i32(s) {
                Some(i) => Ok(IppValue::Integer(i)),
                None => match IppKeyword::new(s) {
                    Ok(k) => Ok(IppValue::Keyword(k)),
                    Err(e) => Err(e),
                },
            }
        }
    }
}

impl core::str::FromStr for IppValue {
    type Err = IppParseError;

    fn from_str(s: &str) -> Result<IppValue, IppParseError> {
        IppValue::parse_str(s)
    }
}

impl Clone for IppValue {
    /// The clone has the same model.
    #[verifier::loop_isolation(false)]
    fn clone(&self) -> (r: Self)
        ensures
            r@ == self@,
        decreases *self,
    {
        match self {
            IppValue::Integer(i) => IppValue::Integer(*i),
            IppValue::Enum(i) => IppValue::Enum(*i),
            IppValue::OctetString(s) => IppValue::OctetString(s.clone()),
            IppValue::TextWithoutLanguage(s) => IppValue::TextWithoutLanguage(s.clone()),
            IppValue::NameWithoutLanguage(s) => IppValue::NameWithoutLanguage(s.clone()),
            IppValue::TextWithLanguage { language, text } => IppValue::TextWithLanguage {
                language: language.clone(),
                text: text.clone(),
            },
            IppValue::NameWithLanguage { language, name } => IppValue::NameWithLanguage {
                language: language.clone(),
                name: name.clone(),
            },
            IppValue::Charset(s) => IppValue::Charset(s.clone()),
            IppValue::NaturalLanguage(s) => IppValue::NaturalLanguage(s.clone()),
            IppValue::Uri(s) => IppValue::Uri(s.clone()),
            IppValue::UriScheme(s) => IppValue::UriScheme(s.clone()),
            IppValue::RangeOfInteger { min, max } => IppValue::RangeOfInteger {
                min: *min,
                max: *max,
            },
            IppValue::Boolean(b) => IppValue::Boolean(*b),
            IppValue::Keyword(s) => IppValue::Keyword(s.clone()),
            IppValue::Array(elems) => {
                let mut out: Vec<IppValue> = Vec::new();
                let n = elems.len();
                for i in 0..n
                    invariant
                        n == elems.len(),
                        out.len() == i,
                        forall|j: int| 0 <= j < i ==> out[j]@ == elems[j]@,
                    decreases n - i,
                {
                    proof {
                        lemma_array_elem_decreases(*self, i as int);
                    }
                    out.push(elems[i].clone());
                }
                let r = IppValue::Array(out);
                proof {
                    lemma_array_models(out@, 0);
                    lemma_array_models(elems@, 0);
                    assert forall|k: int| 0 <= k < elems@.len() implies array_models(out@, 0)[k]
                        == array_models(elems@, 0)[k] by {
                        assert(array_models(out@, 0)[k - 0] == out@[k].model());
                        assert(array_models(elems@, 0)[k - 0] == elems@[k].model());
                    }
                    assert(array_models(out@, 0) =~= array_models(elems@, 0));
                }
                r
            },
            IppValue::Collection(members) => {
                let mut out: Vec<CollectionMember> = Vec::new();
                let n = members.len();
                for i in 0..n
                    invariant
                        n == members.len(),
                        out.len() == i,
                        forall|j: int| 0 <= j < i ==> out[j].name@ == members[j].name@
                            && out[j].value@ == members[j].value@,
                    decreases n - i,
                {
                    proof {
                        lemma_collection_member_decreases(*self, i as int);
                    }
                    let m = CollectionMember {
                        name: members[i].name.clone(),
                        value: members[i].value.clone(),
                    };
                    out.push(m);
                }
                let r = IppValue::Collection(out);
                proof {
                    lemma_member_models(out@, 0);
                    lemma_member_models(members@, 0);
                    assert forall|k: int| 0 <= k < members@.len() implies member_models(out@, 0)[k]
                        == member_models(members@, 0)[k] by {
                        assert(member_models(out@, 0)[k - 0] == (MemberModel {
                            name: out@[k].name@,
                            value: out@[k].value.model(),
                        }));
                        assert(member_models(members@, 0)[k - 0] == (MemberModel {
                            name: members@[k].name@,
                            value: members@[k].value.model(),
                        }));
                    }
                    assert(member_models(out@, 0) =~= member_models(members@, 0));
                }
                r
            },
            IppValue::MimeMediaType(s) => IppValue::MimeMediaType(s.clone()),
            IppValue::DateTime {
                year,
                month,
                day,
                hour,
                minutes,
                seconds,
                deci_seconds,
                utc_dir,
                utc_hours,
                utc_mins,
            } => IppValue::DateTime {
                year: *year,
                month: *month,
                day: *day,
                hour: *hour,
                minutes: *minutes,
                seconds: *seconds,
                deci_seconds: *deci_seconds,
                utc_dir: *utc_dir,
                utc_hours: *utc_hours,
                utc_mins: *utc_mins,
            },
            IppValue::MemberAttrName(s) => IppValue::MemberAttrName(s.clone()),
            IppValue::Resolution { cross_feed, feed, units } => IppValue::Resolution {
                cross_feed: *cross_feed,
                feed: *feed,
                units: *units,
            },
            IppValue::NoValue => IppValue::NoValue,
            IppValue::Other { tag, data } => {
                let mut out: Vec<u8> = Vec::new();
                let n = data.len();
                for i in 0..n
                    invariant
                        n == data.len(),
                        out.len() == i,
                        forall|j: int| 0 <= j < i ==> out[j] == data[j],
                    decreases n - i,
                {
                    out.push(data[i]);
                }
                proof {
                    assert(out@ =~= data@);
                }
                IppValue::Other { tag: *tag, data: out }
            },
        }
    }
}

impl Clone for CollectionMember {
    /// The clone has the same member name and the same value model.
    fn clone(&self) -> (r: Self)
        ensures
            r.name@ == self.name@,
            r.value@ == self.value@,
    {
        CollectionMember { name: self.name.clone(), value: self.value.clone() }
    }
}

} // verus!
