//! The round-trip laws: a well-formed message, serialized and parsed
//! again, comes back unchanged, and the pieces this rests on.

use vstd::prelude::*;
use vstd::utf8::encode_utf8;

use crate::attribute::{
    spec_attr_bytes, spec_attributes_bytes, spec_attrs_bytes, spec_first_tag,
    spec_group_attr_bytes, spec_insert, spec_is_header_name, spec_op_group_bytes,
    spec_rest_groups_bytes, spec_without_name, AttrModel, GroupModel,
};
use crate::error::IppParseError;
use crate::parser::{
    spec_add_member, spec_close_groups, spec_parse_stream, spec_read_record, CollFrame, RecModel,
    StreamState,
};
use crate::tags::{DelimiterTag, ValueTag};
use crate::text::lossy_decode;
use crate::value::{
    scalar_wf, spec_array_tail, spec_collection_bytes, spec_parse_value, spec_tag_of,
    spec_text_field, spec_value_bytes, MemberModel, ValueModel,
};
use crate::message::{spec_message_bytes, spec_parse_message, MessageModel};
use crate::wire::{
    lemma_u16_be_roundtrip, lemma_u32_be_roundtrip, spec_u16_be, spec_u16_from_be, spec_u32_be,
};

verus! {

/// Whether an `Other` tag byte can stand in an attribute stream: bytes
/// that open or close collections would break the framing.
pub open spec fn other_tag_stream_ok(tag: u8) -> bool {
    match ValueTag::spec_from_u8(tag) {
        None => 0x10 <= tag,
        Some(t) => t is Unsupported || t is Unknown,
    }
}

/// Well-formedness of a value in an attribute stream: scalars as in
/// [`scalar_wf`], arrays of at least two same-tagged non-array elements,
/// collections of bounded member names over non-array values, and
/// preserved foreign values only under tags without a grammar of their
/// own.
pub open spec fn wire_wf(v: ValueModel) -> bool
    decreases v, 0int,
{
    match v {
        ValueModel::Array(es) => es.len() >= 2 && arr_wf(es, 0, spec_tag_of(es[0])),
        ValueModel::Collection(ms) => coll_wf(ms, 0),
        ValueModel::Other { tag, data } => data.len() <= 0xFFFF && other_tag_stream_ok(tag),
        _ => scalar_wf(v),
    }
}

/// Array elements from `i` on: not arrays themselves, well-formed, all
/// under the tag `tag`.
pub open spec fn arr_wf(es: Seq<ValueModel>, i: int, tag: u8) -> bool
    decreases es, (if i <= es.len() { es.len() - i } else { 0int }),
{
    if 0 <= i < es.len() {
        &&& !(es[i] is Array)
        &&& wire_wf(es[i])
        &&& spec_tag_of(es[i]) == tag
        &&& arr_wf(es, i + 1, tag)
    } else {
        true
    }
}

/// Collection members from `i` on: names within 255 bytes, values
/// well-formed and not arrays.
pub open spec fn coll_wf(ms: Seq<MemberModel>, i: int) -> bool
    decreases ms, (if i <= ms.len() { ms.len() - i } else { 0int }),
{
    if 0 <= i < ms.len() {
        &&& encode_utf8(ms[i].name).len() <= 255
        &&& !(ms[i].value is Array)
        &&& wire_wf(ms[i].value)
        &&& coll_wf(ms, i + 1)
    } else {
        true
    }
}

/// Well-formedness of one attribute: a name of one to 1023 bytes and a
/// well-formed value.
pub open spec fn attr_wf(a: AttrModel) -> bool {
    &&& 1 <= encode_utf8(a.name).len() <= 1023
    &&& wire_wf(a.value)
}

/// Attributes from `i` on are well-formed and their names are distinct.
pub open spec fn attrs_wf(attrs: Seq<AttrModel>, i: int) -> bool
    decreases attrs.len() - i,
{
    if 0 <= i < attrs.len() {
        &&& attr_wf(attrs[i])
        &&& (forall|j: int| i < j < attrs.len() ==> #[trigger] attrs[j].name != attrs[i].name)
        &&& attrs_wf(attrs, i + 1)
    } else {
        true
    }
}

/// Well-formedness of one group: a tag that opens a group (not the
/// end-of-attributes delimiter), well-formed attributes, and — for an
/// operation group, which is always emitted in header order — attributes
/// that already stand in that order.
pub open spec fn group_wf(g: GroupModel) -> bool {
    &&& !(g.tag is EndOfAttributes)
    &&& attrs_wf(g.attrs, 0)
    &&& (g.tag is OperationAttributes ==> op_canonical(g.attrs))
}

/// Groups from `i` on are well-formed.
pub open spec fn groups_wf(groups: Seq<GroupModel>, i: int) -> bool
    decreases groups.len() - i,
{
    if 0 <= i < groups.len() {
        &&& group_wf(groups[i])
        &&& groups_wf(groups, i + 1)
    } else {
        true
    }
}

/// Whether an operation group's attributes already stand in the order the
/// serializer emits: the header attributes first. A group built that way
/// serializes to the same bytes in either discipline.
pub open spec fn op_canonical(attrs: Seq<AttrModel>) -> bool {
    spec_op_group_bytes(attrs) == spec_attrs_bytes(attrs, 0)
}

/// Well-formedness of a whole message for the round trip: well-formed
/// groups, and — since the serializer hoists the first operation group
/// to the head of the section — that group, if any, already stands
/// first. Later operation groups are fine: they are emitted at their
/// positions.
pub open spec fn msg_wf(groups: Seq<GroupModel>) -> bool {
    &&& groups_wf(groups, 0)
    &&& spec_first_tag(groups, DelimiterTag::OperationAttributes, 0) <= 0
}

/// Reading a record off its serialized shape: a tag byte, a
/// length-prefixed name, a length-prefixed value, and the rest.
pub proof fn lemma_read_record_concat(t: u8, name: Seq<u8>, data: Seq<u8>, rest: Seq<u8>)
    requires
        name.len() <= 0xFFFF,
        data.len() <= 0xFFFF,
    ensures
        spec_read_record(
            seq![t] + spec_u16_be(name.len() as u16) + name + spec_u16_be(data.len() as u16)
                + data + rest,
        ) == Ok::<RecModel, IppParseError>(
            RecModel { name_len: name.len() as int, name, data, rest },
        ),
{
    let s = seq![t] + spec_u16_be(name.len() as u16) + name + spec_u16_be(data.len() as u16)
        + data + rest;
    assert(s.len() == 5 + name.len() + data.len() + rest.len());
    lemma_u16_be_roundtrip(name.len() as u16);
    lemma_u16_be_roundtrip(data.len() as u16);
    assert(s[1] == spec_u16_be(name.len() as u16)[0]);
    assert(s[2] == spec_u16_be(name.len() as u16)[1]);
    let nl = name.len() as int;
    assert(spec_u16_from_be(s[1], s[2]) as int == nl);
    assert(s.subrange(3, 3 + nl) =~= name);
    let after = s.skip(3 + nl);
    assert(after =~= spec_u16_be(data.len() as u16) + data + rest);
    assert(after[0] == spec_u16_be(data.len() as u16)[0]);
    assert(after[1] == spec_u16_be(data.len() as u16)[1]);
    let vl = data.len() as int;
    assert(spec_u16_from_be(after[0], after[1]) as int == vl);
    assert(after.subrange(2, 2 + vl) =~= data);
    assert(after.skip(2 + vl) =~= rest);
}

/// A well-formed scalar's value bytes are its own payload under a 16-bit
/// length prefix.
#[verifier::rlimit(100)]
pub proof fn lemma_scalar_value_framing(v: ValueModel)
    requires
        scalar_wf(v),
    ensures
        spec_value_bytes(v).len() - 2 <= 0xFFFF,
        spec_value_bytes(v) == spec_u16_be((spec_value_bytes(v).len() - 2) as u16)
            + spec_value_bytes(v).skip(2),
{
    crate::value::lemma_value_roundtrip(v);
    let b = spec_value_bytes(v);
    match v {
        ValueModel::Integer(_) => {
            assert(b =~= spec_u16_be((b.len() - 2) as u16) + b.skip(2));
        },
        ValueModel::Enum(_) => {
            assert(b =~= spec_u16_be((b.len() - 2) as u16) + b.skip(2));
        },
        ValueModel::OctetString(s) => {
            lemma_text_framing(s);
        },
        ValueModel::TextWithoutLanguage(s) => {
            lemma_text_framing(s);
        },
        ValueModel::NameWithoutLanguage(s) => {
            lemma_text_framing(s);
        },
        ValueModel::TextWithLanguage { language, text } => {
            assert(b.len() == 2 + 2 + encode_utf8(language).len() + 2 + encode_utf8(text).len());
            assert(b =~= spec_u16_be((b.len() - 2) as u16) + b.skip(2));
        },
        ValueModel::NameWithLanguage { language, name } => {
            assert(b.len() == 2 + 2 + encode_utf8(language).len() + 2 + encode_utf8(name).len());
            assert(b =~= spec_u16_be((b.len() - 2) as u16) + b.skip(2));
        },
        ValueModel::Charset(s) => {
            lemma_text_framing(s);
        },
        ValueModel::NaturalLanguage(s) => {
            lemma_text_framing(s);
        },
        ValueModel::Uri(s) => {
            lemma_text_framing(s);
        },
        ValueModel::UriScheme(s) => {
            lemma_text_framing(s);
        },
        ValueModel::RangeOfInteger { .. } => {
            assert(b =~= spec_u16_be((b.len() - 2) as u16) + b.skip(2));
        },
        ValueModel::Boolean(_) => {
            assert(b =~= spec_u16_be((b.len() - 2) as u16) + b.skip(2));
        },
        ValueModel::Keyword(s) => {
            lemma_text_framing(s);
        },
        ValueModel::Array(_) => {},
        ValueModel::Collection(_) => {},
        ValueModel::MimeMediaType(s) => {
            lemma_text_framing(s);
        },
        ValueModel::DateTime { .. } => {
            assert(b =~= spec_u16_be((b.len() - 2) as u16) + b.skip(2));
        },
        ValueModel::MemberAttrName(s) => {
            lemma_text_framing(s);
        },
        ValueModel::Resolution { .. } => {
            assert(b =~= spec_u16_be((b.len() - 2) as u16) + b.skip(2));
        },
        ValueModel::NoValue => {
            assert(b =~= spec_u16_be((b.len() - 2) as u16) + b.skip(2));
        },
        ValueModel::Other { data, .. } => {
            assert(b.len() == 2 + data.len());
            assert(b.skip(2) =~= data);
            assert(b =~= spec_u16_be((b.len() - 2) as u16) + b.skip(2));
        },
    }
}

/// A length-prefixed string field is framed by its own prefix.
proof fn lemma_text_framing(s: Seq<char>)
    requires
        encode_utf8(s).len() <= 0xFFFF,
    ensures
        spec_text_field(s).len() - 2 <= 0xFFFF,
        spec_text_field(s) == spec_u16_be((spec_text_field(s).len() - 2) as u16)
            + spec_text_field(s).skip(2),
{
    let b = spec_text_field(s);
    assert(b.len() == 2 + encode_utf8(s).len());
    assert(b.skip(2) =~= encode_utf8(s));
    assert(b =~= spec_u16_be((b.len() - 2) as u16) + b.skip(2));
}

/// Inserting an attribute whose name no existing attribute carries is
/// appending it.
pub proof fn lemma_insert_fresh(attrs: Seq<AttrModel>, a: AttrModel)
    requires
        forall|j: int| 0 <= j < attrs.len() ==> #[trigger] attrs[j].name != a.name,
    ensures
        spec_insert(attrs, a) == attrs.push(a),
{
    lemma_without_absent(attrs, a.name, 0);
    assert(spec_insert(attrs, a) =~= attrs.push(a));
}

/// Dropping an absent name drops nothing.
proof fn lemma_without_absent(attrs: Seq<AttrModel>, name: Seq<char>, i: int)
    requires
        0 <= i <= attrs.len(),
        forall|j: int| i <= j < attrs.len() ==> #[trigger] attrs[j].name != name,
    ensures
        spec_without_name(attrs, name, i) == attrs.skip(i),
    decreases attrs.len() - i,
{
    if i < attrs.len() {
        lemma_without_absent(attrs, name, i + 1);
        assert(spec_without_name(attrs, name, i) =~= attrs.skip(i));
    } else {
        assert(spec_without_name(attrs, name, i) =~= attrs.skip(i));
    }
}

/// The name bytes of a bounded attribute name decode to the name again.
pub proof fn lemma_attr_name_roundtrip(n: Seq<char>)
    requires
        encode_utf8(n).len() <= 1023,
    ensures
        crate::parser::spec_attr_name(encode_utf8(n)) == Ok::<Seq<char>, IppParseError>(n),
{
    broadcast use vstd::utf8::encode_utf8_valid_utf8;
    broadcast use vstd::utf8::encode_utf8_decode_utf8;

    assert(lossy_decode(encode_utf8(n)) == n);
}

/// The value bytes of a bounded member name decode to the name again.
pub proof fn lemma_member_name_roundtrip(n: Seq<char>)
    requires
        encode_utf8(n).len() <= 255,
    ensures
        crate::parser::spec_member_name(encode_utf8(n)) == Ok::<Seq<char>, IppParseError>(n),
{
    broadcast use vstd::utf8::encode_utf8_valid_utf8;
    broadcast use vstd::utf8::encode_utf8_decode_utf8;

    assert(lossy_decode(encode_utf8(n)) == n);
}


/// The end-collection record, alone.
pub open spec fn end_record() -> Seq<u8> {
    seq![0x37u8, 0u8, 0u8, 0u8, 0u8]
}

/// Parsing the member records of a well-formed collection extends the
/// open frame by exactly those members and leaves the end record to
/// close it.
pub proof fn lemma_coll_roundtrip(ms: Seq<MemberModel>, i: int, rest: Seq<u8>, st: StreamState)
    requires
        0 <= i <= ms.len(),
        coll_wf(ms, i),
        st.stack.len() >= 1,
        st.stack.last().pending is None,
    ensures
        spec_parse_stream(spec_collection_bytes(ms, i) + rest, st) == spec_parse_stream(
            end_record() + rest,
            StreamState {
                groups: st.groups,
                cur: st.cur,
                stack: st.stack.update(
                    st.stack.len() - 1,
                    CollFrame {
                        target: st.stack.last().target,
                        members: st.stack.last().members + ms.skip(i),
                        pending: None,
                    },
                ),
            },
        ),
    decreases ms, (if i <= ms.len() { ms.len() - i } else { 0int }), 1int,
{
    let f = st.stack.last();
    if i == ms.len() {
        assert(spec_collection_bytes(ms, i) + rest =~= end_record() + rest);
        assert(f.members + ms.skip(i) =~= f.members);
        assert(st.stack.update(
            st.stack.len() - 1,
            CollFrame { target: f.target, members: f.members + ms.skip(i), pending: None },
        ) =~= st.stack);
    } else {
        let stn = StreamState {
            groups: st.groups,
            cur: st.cur,
            stack: st.stack.update(
                st.stack.len() - 1,
                CollFrame { target: f.target, members: f.members.push(ms[i]), pending: None },
            ),
        };
        lemma_member_step(ms, i, rest, st, stn);
        lemma_coll_roundtrip(ms, i + 1, rest, stn);
        assert(f.members.push(ms[i]) + ms.skip(i + 1) =~= f.members + ms.skip(i));
        assert(stn.stack.update(
            stn.stack.len() - 1,
            CollFrame {
                target: f.target,
                members: f.members.push(ms[i]) + ms.skip(i + 1),
                pending: None,
            },
        ) =~= st.stack.update(
            st.stack.len() - 1,
            CollFrame { target: f.target, members: f.members + ms.skip(i), pending: None },
        ));
    }
}

/// One member's records: the member-name record and the value record (or
/// nested collection) add the member to the open frame.
#[verifier::rlimit(100)]
proof fn lemma_member_step(
    ms: Seq<MemberModel>,
    i: int,
    rest: Seq<u8>,
    st: StreamState,
    stn: StreamState,
)
    requires
        0 <= i < ms.len(),
        coll_wf(ms, i),
        st.stack.len() >= 1,
        st.stack.last().pending is None,
        stn == (StreamState {
            groups: st.groups,
            cur: st.cur,
            stack: st.stack.update(
                st.stack.len() - 1,
                CollFrame {
                    target: st.stack.last().target,
                    members: st.stack.last().members.push(ms[i]),
                    pending: None,
                },
            ),
        }),
    ensures
        spec_parse_stream(spec_collection_bytes(ms, i) + rest, st) == spec_parse_stream(
            spec_collection_bytes(ms, i + 1) + rest,
            stn,
        ),
    decreases ms, (if i <= ms.len() { ms.len() - i } else { 0int }), 0int,
{
    let f = st.stack.last();
    let m = ms[i];
    let tail1 = seq![spec_tag_of(m.value), 0u8, 0u8] + spec_value_bytes(m.value) + (
    spec_collection_bytes(ms, i + 1) + rest);
    let st1 = StreamState {
        groups: st.groups,
        cur: st.cur,
        stack: st.stack.update(
            st.stack.len() - 1,
            CollFrame { target: f.target, members: f.members, pending: Some(m.name) },
        ),
    };
    lemma_member_name_step(ms, i, rest, st, st1, tail1);
    if m.value is Collection {
        let ms2 = m.value->Collection_0;
        let tail2 = spec_collection_bytes(ms2, 0) + (spec_collection_bytes(ms, i + 1) + rest);
        let st2 = StreamState {
            groups: st.groups,
            cur: st.cur,
            stack: st1.stack.update(
                st1.stack.len() - 1,
                CollFrame { target: f.target, members: f.members, pending: None },
            ).push(
                CollFrame {
                    target: crate::parser::CollTarget::IntoMember(m.name),
                    members: Seq::empty(),
                    pending: None,
                },
            ),
        };
        lemma_nested_open_step(ms, i, rest, st, st1, tail1, st2);
        assert(decreases_to!(ms => ms2)) by {
            assert(decreases_to!(ms => ms[i]));
            assert(decreases_to!(ms[i] => ms[i].value));
            assert(decreases_to!(ms[i].value => ms2));
        }
        assert(wire_wf(m.value));
        assert(m.value == ValueModel::Collection(ms2));
        assert(coll_wf(ms2, 0));
        lemma_coll_roundtrip(ms2, 0, spec_collection_bytes(ms, i + 1) + rest, st2);
        let st3 = StreamState {
            groups: st.groups,
            cur: st.cur,
            stack: st2.stack.update(
                st2.stack.len() - 1,
                CollFrame {
                    target: crate::parser::CollTarget::IntoMember(m.name),
                    members: Seq::empty() + ms2.skip(0),
                    pending: None,
                },
            ),
        };
        lemma_close_member_step(spec_collection_bytes(ms, i + 1) + rest, st3);
        assert(Seq::empty() + ms2.skip(0) =~= ms2);
        assert(st3.stack[st3.stack.len() - 2] == (CollFrame {
            target: f.target,
            members: f.members,
            pending: None,
        }));
        assert(st3.stack.take(st3.stack.len() - 2).push(
            spec_add_member(
                st3.stack[st3.stack.len() - 2],
                st3.stack.last().target->IntoMember_0,
                ValueModel::Collection(st3.stack.last().members),
            ),
        ) =~= stn.stack);
    } else {
        lemma_scalar_coll_member(ms, i, rest, st, st1, tail1, stn);
    }
}

/// The member-name record of member `i` sets it pending.
proof fn lemma_member_name_step(
    ms: Seq<MemberModel>,
    i: int,
    rest: Seq<u8>,
    st: StreamState,
    st1: StreamState,
    tail1: Seq<u8>,
)
    requires
        0 <= i < ms.len(),
        coll_wf(ms, i),
        st.stack.len() >= 1,
        st.stack.last().pending is None,
        st1 == (StreamState {
            groups: st.groups,
            cur: st.cur,
            stack: st.stack.update(
                st.stack.len() - 1,
                CollFrame {
                    target: st.stack.last().target,
                    members: st.stack.last().members,
                    pending: Some(ms[i].name),
                },
            ),
        }),
        tail1 == seq![spec_tag_of(ms[i].value), 0u8, 0u8] + spec_value_bytes(ms[i].value) + (
        spec_collection_bytes(ms, i + 1) + rest),
    ensures
        spec_parse_stream(spec_collection_bytes(ms, i) + rest, st) == spec_parse_stream(
            tail1,
            st1,
        ),
{
    let m = ms[i];
    let name_bytes = encode_utf8(m.name);
    let s = spec_collection_bytes(ms, i) + rest;
    assert(spec_u16_be(0) =~= seq![0u8, 0u8]);
    assert(s =~= seq![0x4Au8] + spec_u16_be(0) + Seq::<u8>::empty() + spec_u16_be(
        name_bytes.len() as u16,
    ) + name_bytes + tail1);
    lemma_read_record_concat(0x4A, Seq::empty(), name_bytes, tail1);
    lemma_member_name_roundtrip(m.name);
    crate::parser::lemma_step_coll_name(s, st, m.name);
}

/// The zero-named begin-collection record of a nested member value opens
/// its frame.
proof fn lemma_nested_open_step(
    ms: Seq<MemberModel>,
    i: int,
    rest: Seq<u8>,
    st: StreamState,
    st1: StreamState,
    tail1: Seq<u8>,
    st2: StreamState,
)
    requires
        0 <= i < ms.len(),
        coll_wf(ms, i),
        ms[i].value is Collection,
        st.stack.len() >= 1,
        st1 == (StreamState {
            groups: st.groups,
            cur: st.cur,
            stack: st.stack.update(
                st.stack.len() - 1,
                CollFrame {
                    target: st.stack.last().target,
                    members: st.stack.last().members,
                    pending: Some(ms[i].name),
                },
            ),
        }),
        tail1 == seq![spec_tag_of(ms[i].value), 0u8, 0u8] + spec_value_bytes(ms[i].value) + (
        spec_collection_bytes(ms, i + 1) + rest),
        st2 == (StreamState {
            groups: st.groups,
            cur: st.cur,
            stack: st1.stack.update(
                st1.stack.len() - 1,
                CollFrame {
                    target: st.stack.last().target,
                    members: st.stack.last().members,
                    pending: None,
                },
            ).push(
                CollFrame {
                    target: crate::parser::CollTarget::IntoMember(ms[i].name),
                    members: Seq::empty(),
                    pending: None,
                },
            ),
        }),
    ensures
        spec_parse_stream(tail1, st1) == spec_parse_stream(
            spec_collection_bytes(ms[i].value->Collection_0, 0) + (spec_collection_bytes(
                ms,
                i + 1,
            ) + rest),
            st2,
        ),
{
    let m = ms[i];
    let ms2 = m.value->Collection_0;
    let tail2 = spec_collection_bytes(ms2, 0) + (spec_collection_bytes(ms, i + 1) + rest);
    assert(spec_u16_be(0) =~= seq![0u8, 0u8]);
    assert(spec_value_bytes(m.value) =~= seq![0u8, 0u8] + spec_collection_bytes(ms2, 0));
    assert(tail1 =~= seq![0x34u8] + spec_u16_be(0) + Seq::<u8>::empty() + spec_u16_be(0)
        + Seq::<u8>::empty() + tail2);
    lemma_read_record_concat(0x34, Seq::empty(), Seq::empty(), tail2);
    crate::parser::lemma_step_coll_nested(tail1, st1);
}

/// The end record of a nested collection pops its frame and adds the
/// member to the enclosing frame.
proof fn lemma_close_member_step(x: Seq<u8>, st3: StreamState)
    requires
        st3.stack.len() >= 2,
        st3.stack.last().pending is None,
        st3.stack.last().target is IntoMember,
    ensures
        spec_parse_stream(end_record() + x, st3) == spec_parse_stream(
            x,
            StreamState {
                groups: st3.groups,
                cur: st3.cur,
                stack: st3.stack.take(st3.stack.len() - 2).push(
                    spec_add_member(
                        st3.stack[st3.stack.len() - 2],
                        st3.stack.last().target->IntoMember_0,
                        ValueModel::Collection(st3.stack.last().members),
                    ),
                ),
            },
        ),
{
    assert(spec_u16_be(0) =~= seq![0u8, 0u8]);
    assert(end_record() + x =~= seq![0x37u8] + spec_u16_be(0) + Seq::<u8>::empty() + spec_u16_be(
        0,
    ) + Seq::<u8>::empty() + x);
    lemma_read_record_concat(0x37, Seq::empty(), Seq::empty(), x);
    crate::parser::lemma_step_coll_close_member(end_record() + x, st3);
}

/// One member whose value is a scalar: the value record completes the
/// member.
#[verifier::rlimit(100)]
proof fn lemma_scalar_coll_member(
    ms: Seq<MemberModel>,
    i: int,
    rest: Seq<u8>,
    st: StreamState,
    st1: StreamState,
    tail1: Seq<u8>,
    stn: StreamState,
)
    requires
        0 <= i < ms.len(),
        coll_wf(ms, i),
        !(ms[i].value is Collection),
        st.stack.len() >= 1,
        st.stack.last().pending is None,
        st1 == (StreamState {
            groups: st.groups,
            cur: st.cur,
            stack: st.stack.update(
                st.stack.len() - 1,
                CollFrame {
                    target: st.stack.last().target,
                    members: st.stack.last().members,
                    pending: Some(ms[i].name),
                },
            ),
        }),
        tail1 == seq![spec_tag_of(ms[i].value), 0u8, 0u8] + spec_value_bytes(ms[i].value) + (
        spec_collection_bytes(ms, i + 1) + rest),
        stn == (StreamState {
            groups: st.groups,
            cur: st.cur,
            stack: st.stack.update(
                st.stack.len() - 1,
                CollFrame {
                    target: st.stack.last().target,
                    members: st.stack.last().members.push(ms[i]),
                    pending: None,
                },
            ),
        }),
    ensures
        spec_parse_stream(tail1, st1) == spec_parse_stream(
            spec_collection_bytes(ms, i + 1) + rest,
            stn,
        ),
{
    let f = st.stack.last();
    let m = ms[i];
    let t = spec_tag_of(m.value);
    assert(!(m.value is Array));
    assert(scalar_wf(m.value)) by {
        lemma_wire_scalar(m.value);
    }
    crate::value::lemma_value_roundtrip(m.value);
    lemma_scalar_value_framing(m.value);
    let payload = spec_value_bytes(m.value).skip(2);
    let tail2 = spec_collection_bytes(ms, i + 1) + rest;
    assert(spec_u16_be(0) =~= seq![0u8, 0u8]);
    assert(tail1 =~= seq![t] + spec_u16_be(0) + Seq::<u8>::empty() + spec_u16_be(
        payload.len() as u16,
    ) + payload + tail2);
    lemma_read_record_concat(t, Seq::empty(), payload, tail2);
    lemma_scalar_tag_range(m.value);
    assert(spec_parse_value(t, payload) == Ok::<ValueModel, IppParseError>(m.value));
    crate::parser::lemma_step_coll_value(tail1, st1, m.value);
    assert(st1.stack.update(
        st1.stack.len() - 1,
        spec_add_member(st1.stack.last(), st1.stack.last().pending->0, m.value),
    ) =~= stn.stack);
}

/// A well-formed value that is neither an array nor a collection is a
/// well-formed scalar.
proof fn lemma_wire_scalar(v: ValueModel)
    requires
        wire_wf(v),
        !(v is Array),
        !(v is Collection),
    ensures
        scalar_wf(v),
{
}

/// The tag of a well-formed non-array, non-collection value is a value
/// tag and not a collection sentinel.
proof fn lemma_scalar_tag_range(v: ValueModel)
    requires
        wire_wf(v),
        !(v is Array),
        !(v is Collection),
    ensures
        0x10 <= spec_tag_of(v),
        spec_tag_of(v) != 0x34,
        spec_tag_of(v) != 0x37,
        spec_tag_of(v) != 0x03,
{
}


/// One array continuation: the value appended to the accumulated
/// attribute value.
pub open spec fn promote_one(acc: ValueModel, v: ValueModel) -> ValueModel {
    match acc {
        ValueModel::Array(xs) => ValueModel::Array(xs.push(v)),
        other => ValueModel::Array(seq![other, v]),
    }
}

/// The attribute value after all remaining array elements have been
/// appended.
pub open spec fn promote_all(acc: ValueModel, es: Seq<ValueModel>, i: int) -> ValueModel
    decreases es.len() - i,
{
    if 0 <= i < es.len() {
        promote_all(promote_one(acc, es[i]), es, i + 1)
    } else {
        acc
    }
}

/// Appending the tail elements to the first rebuilds the array.
proof fn lemma_promote_all(es: Seq<ValueModel>, i: int, acc: ValueModel)
    requires
        es.len() >= 2,
        1 <= i <= es.len(),
        !(es[0] is Array),
        acc == (if i == 1 {
            es[0]
        } else {
            ValueModel::Array(es.take(i))
        }),
    ensures
        promote_all(acc, es, i) == ValueModel::Array(es),
    decreases es.len() - i,
{
    if i == es.len() {
        assert(es.take(i) =~= es);
    } else {
        let acc2 = promote_one(acc, es[i]);
        if i == 1 {
            assert(acc2 == ValueModel::Array(seq![es[0], es[1]]));
            assert(seq![es[0], es[1]] =~= es.take(2));
        } else {
            assert(es.take(i).push(es[i]) =~= es.take(i + 1));
        }
        lemma_promote_all(es, i + 1, acc2);
    }
}

/// The tag of the accumulated attribute value survives one promotion.
proof fn lemma_promote_tag(acc: ValueModel, v: ValueModel, tag: u8)
    requires
        spec_tag_of(acc) == tag,
        spec_tag_of(v) == tag,
    ensures
        spec_tag_of(promote_one(acc, v)) == tag,
{
    match acc {
        ValueModel::Array(xs) => {
            if xs.len() == 0 {
                assert(xs.push(v)[0] == v);
            } else {
                assert(xs.push(v)[0] == xs[0]);
            }
        },
        _ => {
            assert(seq![acc, v][0] == acc);
        },
    }
}

/// The group after the most recent attribute's value was continued.
pub open spec fn spec_with_promoted(g: GroupModel, v: ValueModel) -> GroupModel {
    GroupModel {
        tag: g.tag,
        attrs: g.attrs.update(
            g.attrs.len() - 1,
            AttrModel {
                name: g.attrs.last().name,
                value: promote_one(g.attrs.last().value, v),
            },
        ),
    }
}

/// Parsing the continuation records of an array appends each remaining
/// element to the most recent attribute.
#[verifier::rlimit(100)]
proof fn lemma_array_tail_roundtrip(
    tag: u8,
    es: Seq<ValueModel>,
    i: int,
    rest: Seq<u8>,
    st: StreamState,
)
    requires
        1 <= i <= es.len(),
        arr_wf(es, i, tag),
        st.stack.len() == 0,
        st.cur is Some,
        (st.cur->0).attrs.len() >= 1,
        spec_tag_of((st.cur->0).attrs.last().value) == tag,
    ensures
        spec_parse_stream(spec_array_tail(tag, es, i) + rest, st) == spec_parse_stream(
            rest,
            StreamState {
                groups: st.groups,
                cur: Some(
                    GroupModel {
                        tag: (st.cur->0).tag,
                        attrs: (st.cur->0).attrs.update(
                            (st.cur->0).attrs.len() - 1,
                            AttrModel {
                                name: (st.cur->0).attrs.last().name,
                                value: promote_all((st.cur->0).attrs.last().value, es, i),
                            },
                        ),
                    },
                ),
                stack: Seq::empty(),
            },
        ),
    decreases es, (if i <= es.len() { es.len() - i } else { 0int }),
{
    let g = st.cur->0;
    if i == es.len() {
        assert(spec_array_tail(tag, es, i) + rest =~= rest);
        assert(g.attrs.update(
            g.attrs.len() - 1,
            AttrModel { name: g.attrs.last().name, value: g.attrs.last().value },
        ) =~= g.attrs);
        assert(st.stack =~= Seq::<CollFrame>::empty());
        assert((StreamState {
            groups: st.groups,
            cur: Some(GroupModel { tag: g.tag, attrs: g.attrs }),
            stack: Seq::empty(),
        }) == st);
    } else {
        let v = es[i];
        let gn = spec_with_promoted(g, v);
        let stn = StreamState { groups: st.groups, cur: Some(gn), stack: Seq::empty() };
        lemma_array_elem_step(tag, es, i, rest, st, stn);
        lemma_promote_tag(g.attrs.last().value, v, tag);
        lemma_array_tail_roundtrip(tag, es, i + 1, rest, stn);
        assert(gn.attrs.update(
            gn.attrs.len() - 1,
            AttrModel {
                name: gn.attrs.last().name,
                value: promote_all(gn.attrs.last().value, es, i + 1),
            },
        ) =~= g.attrs.update(
            g.attrs.len() - 1,
            AttrModel { name: g.attrs.last().name, value: promote_all(g.attrs.last().value, es, i) },
        ));
    }
}

/// One array continuation record appends one element.
#[verifier::rlimit(100)]
proof fn lemma_array_elem_step(
    tag: u8,
    es: Seq<ValueModel>,
    i: int,
    rest: Seq<u8>,
    st: StreamState,
    stn: StreamState,
)
    requires
        1 <= i < es.len(),
        arr_wf(es, i, tag),
        st.stack.len() == 0,
        st.cur is Some,
        (st.cur->0).attrs.len() >= 1,
        spec_tag_of((st.cur->0).attrs.last().value) == tag,
        stn == (StreamState {
            groups: st.groups,
            cur: Some(spec_with_promoted(st.cur->0, es[i])),
            stack: Seq::empty(),
        }),
    ensures
        spec_parse_stream(spec_array_tail(tag, es, i) + rest, st) == spec_parse_stream(
            spec_array_tail(tag, es, i + 1) + rest,
            stn,
        ),
{
    let g = st.cur->0;
    let v = es[i];
    let s = spec_array_tail(tag, es, i) + rest;
    let tail2 = spec_array_tail(tag, es, i + 1) + rest;
    assert(spec_u16_be(0) =~= seq![0u8, 0u8]);
    if v is Collection {
        let ms = v->Collection_0;
        assert(spec_value_bytes(v) =~= seq![0u8, 0u8] + spec_collection_bytes(ms, 0));
        assert(s =~= seq![0x34u8] + spec_u16_be(0) + Seq::<u8>::empty() + spec_u16_be(0)
            + Seq::<u8>::empty() + (spec_collection_bytes(ms, 0) + tail2));
        lemma_read_record_concat(0x34, Seq::empty(), Seq::empty(), spec_collection_bytes(ms, 0)
            + tail2);
        assert(tag == 0x34);
        crate::parser::lemma_step_top_open_continue(s, st);
        let st2 = StreamState {
            groups: st.groups,
            cur: st.cur,
            stack: seq![
                crate::parser::CollFrame {
                    target: crate::parser::CollTarget::IntoGroupContinue,
                    members: Seq::empty(),
                    pending: None,
                },
            ],
        };
        assert(wire_wf(v));
        assert(coll_wf(ms, 0));
        lemma_coll_roundtrip(ms, 0, tail2, st2);
        let st3 = StreamState {
            groups: st.groups,
            cur: st.cur,
            stack: seq![
                crate::parser::CollFrame {
                    target: crate::parser::CollTarget::IntoGroupContinue,
                    members: Seq::empty() + ms.skip(0),
                    pending: None,
                },
            ],
        };
        assert(st2.stack.update(
            0,
            crate::parser::CollFrame {
                target: crate::parser::CollTarget::IntoGroupContinue,
                members: Seq::empty() + ms.skip(0),
                pending: None,
            },
        ) =~= st3.stack);
        assert(spec_parse_stream(spec_collection_bytes(ms, 0) + tail2, st2) == spec_parse_stream(
            end_record() + tail2,
            st3,
        ));
        assert(end_record() + tail2 =~= seq![0x37u8] + spec_u16_be(0) + Seq::<u8>::empty()
            + spec_u16_be(0) + Seq::<u8>::empty() + tail2);
        lemma_read_record_concat(0x37, Seq::empty(), Seq::empty(), tail2);
        assert(Seq::empty() + ms.skip(0) =~= ms);
        assert(spec_continue_value_ok(g, tag, v)) by {
            assert(g.attrs.len() >= 1);
        }
        crate::parser::lemma_step_coll_close_continue(
            end_record() + tail2,
            st3,
            spec_with_promoted(g, v),
        );
    } else {
        assert(!(v is Array));
        assert(scalar_wf(v)) by {
            lemma_wire_scalar(v);
        }
        crate::value::lemma_value_roundtrip(v);
        lemma_scalar_value_framing(v);
        let payload = spec_value_bytes(v).skip(2);
        assert(s =~= seq![tag] + spec_u16_be(0) + Seq::<u8>::empty() + spec_u16_be(
            payload.len() as u16,
        ) + payload + tail2);
        lemma_read_record_concat(tag, Seq::empty(), payload, tail2);
        lemma_scalar_tag_range(v);
        assert(spec_parse_value(tag, payload) == Ok::<ValueModel, IppParseError>(v));
        crate::parser::lemma_step_top_value(s, st, v, spec_with_promoted(g, v));
    }
}

/// The continuation of the most recent attribute succeeds and promotes
/// its value.
pub open spec fn spec_continue_value_ok(g: GroupModel, tag: u8, v: ValueModel) -> bool {
    crate::parser::spec_continue_value(g, tag, v) == Ok::<GroupModel, IppParseError>(
        spec_with_promoted(g, v),
    )
}


/// The group after an attribute was appended.
pub open spec fn spec_with_pushed(g: GroupModel, a: AttrModel) -> GroupModel {
    GroupModel { tag: g.tag, attrs: g.attrs.push(a) }
}

/// Parsing one serialized attribute (one record, or a run of records for
/// an array or a collection) appends exactly that attribute to the open
/// group, provided no attribute of the same name is there yet.
pub proof fn lemma_attr_roundtrip(a: AttrModel, rest: Seq<u8>, st: StreamState)
    requires
        attr_wf(a),
        st.stack.len() == 0,
        st.cur is Some,
        forall|j: int| 0 <= j < (st.cur->0).attrs.len() ==> #[trigger] (st.cur->0).attrs[j].name
            != a.name,
    ensures
        spec_parse_stream(spec_attr_bytes(a) + rest, st) == spec_parse_stream(
            rest,
            StreamState {
                groups: st.groups,
                cur: Some(spec_with_pushed(st.cur->0, a)),
                stack: Seq::empty(),
            },
        ),
{
    if a.value is Collection {
        lemma_attr_coll(a, rest, st);
    } else if a.value is Array {
        lemma_attr_array(a, rest, st);
    } else {
        lemma_attr_scalar(a, rest, st);
    }
}

/// A scalar attribute: one record.
#[verifier::rlimit(100)]
proof fn lemma_attr_scalar(a: AttrModel, rest: Seq<u8>, st: StreamState)
    requires
        attr_wf(a),
        !(a.value is Collection),
        !(a.value is Array),
        st.stack.len() == 0,
        st.cur is Some,
        forall|j: int| 0 <= j < (st.cur->0).attrs.len() ==> #[trigger] (st.cur->0).attrs[j].name
            != a.name,
    ensures
        spec_parse_stream(spec_attr_bytes(a) + rest, st) == spec_parse_stream(
            rest,
            StreamState {
                groups: st.groups,
                cur: Some(spec_with_pushed(st.cur->0, a)),
                stack: Seq::empty(),
            },
        ),
{
    let g = st.cur->0;
    let t = spec_tag_of(a.value);
    let s = spec_attr_bytes(a) + rest;
    let nb = encode_utf8(a.name);
    assert(scalar_wf(a.value)) by {
        lemma_wire_scalar(a.value);
    }
    crate::value::lemma_value_roundtrip(a.value);
    lemma_scalar_value_framing(a.value);
    let payload = spec_value_bytes(a.value).skip(2);
    assert(s =~= seq![t] + spec_u16_be(nb.len() as u16) + nb + spec_u16_be(
        payload.len() as u16,
    ) + payload + rest);
    lemma_read_record_concat(t, nb, payload, rest);
    lemma_scalar_tag_range(a.value);
    lemma_attr_name_roundtrip(a.name);
    lemma_insert_fresh(g.attrs, a);
    assert(spec_parse_value(t, payload) == Ok::<ValueModel, IppParseError>(a.value));
    crate::parser::lemma_step_top_value(s, st, a.value, spec_with_pushed(g, a));
}

/// A collection attribute: a named begin-collection record, the member
/// records, and the end record.
#[verifier::rlimit(100)]
proof fn lemma_attr_coll(a: AttrModel, rest: Seq<u8>, st: StreamState)
    requires
        attr_wf(a),
        a.value is Collection,
        st.stack.len() == 0,
        st.cur is Some,
        forall|j: int| 0 <= j < (st.cur->0).attrs.len() ==> #[trigger] (st.cur->0).attrs[j].name
            != a.name,
    ensures
        spec_parse_stream(spec_attr_bytes(a) + rest, st) == spec_parse_stream(
            rest,
            StreamState {
                groups: st.groups,
                cur: Some(spec_with_pushed(st.cur->0, a)),
                stack: Seq::empty(),
            },
        ),
{
    let g = st.cur->0;
    let ms = a.value->Collection_0;
    let s = spec_attr_bytes(a) + rest;
    let nb = encode_utf8(a.name);
    assert(spec_u16_be(0) =~= seq![0u8, 0u8]);
    assert(spec_value_bytes(a.value) =~= seq![0u8, 0u8] + spec_collection_bytes(ms, 0));
    assert(s =~= seq![0x34u8] + spec_u16_be(nb.len() as u16) + nb + spec_u16_be(0)
        + Seq::<u8>::empty() + (spec_collection_bytes(ms, 0) + rest));
    lemma_read_record_concat(0x34, nb, Seq::empty(), spec_collection_bytes(ms, 0) + rest);
    lemma_attr_name_roundtrip(a.name);
    crate::parser::lemma_step_top_open_named(s, st, a.name);
    let st2 = StreamState {
        groups: st.groups,
        cur: st.cur,
        stack: seq![
            crate::parser::CollFrame {
                target: crate::parser::CollTarget::IntoGroup(a.name),
                members: Seq::empty(),
                pending: None,
            },
        ],
    };
    assert(wire_wf(a.value));
    assert(coll_wf(ms, 0));
    lemma_coll_roundtrip(ms, 0, rest, st2);
    let st3 = StreamState {
        groups: st.groups,
        cur: st.cur,
        stack: seq![
            crate::parser::CollFrame {
                target: crate::parser::CollTarget::IntoGroup(a.name),
                members: Seq::empty() + ms.skip(0),
                pending: None,
            },
        ],
    };
    assert(st2.stack.update(
        0,
        crate::parser::CollFrame {
            target: crate::parser::CollTarget::IntoGroup(a.name),
            members: Seq::empty() + ms.skip(0),
            pending: None,
        },
    ) =~= st3.stack);
    assert(spec_parse_stream(spec_collection_bytes(ms, 0) + rest, st2) == spec_parse_stream(
        end_record() + rest,
        st3,
    ));
    assert(end_record() + rest =~= seq![0x37u8] + spec_u16_be(0) + Seq::<u8>::empty()
        + spec_u16_be(0) + Seq::<u8>::empty() + rest);
    lemma_read_record_concat(0x37, Seq::empty(), Seq::empty(), rest);
    crate::parser::lemma_step_coll_close_group(end_record() + rest, st3);
    assert(Seq::empty() + ms.skip(0) =~= ms);
    lemma_insert_fresh(g.attrs, a);
    assert((AttrModel { name: a.name, value: ValueModel::Collection(ms) }) == a);
}

/// An array attribute: the first element's record under the attribute
/// name, then one zero-named record per further element.
#[verifier::rlimit(100)]
proof fn lemma_attr_array(a: AttrModel, rest: Seq<u8>, st: StreamState)
    requires
        attr_wf(a),
        a.value is Array,
        st.stack.len() == 0,
        st.cur is Some,
        forall|j: int| 0 <= j < (st.cur->0).attrs.len() ==> #[trigger] (st.cur->0).attrs[j].name
            != a.name,
    ensures
        spec_parse_stream(spec_attr_bytes(a) + rest, st) == spec_parse_stream(
            rest,
            StreamState {
                groups: st.groups,
                cur: Some(spec_with_pushed(st.cur->0, a)),
                stack: Seq::empty(),
            },
        ),
{
    let g = st.cur->0;
    let es = a.value->Array_0;
    let t = spec_tag_of(es[0]);
    let a0 = AttrModel { name: a.name, value: es[0] };
    assert(es.len() >= 2 && arr_wf(es, 0, t));
    assert(!(es[0] is Array) && wire_wf(es[0]) && arr_wf(es, 1, t));
    assert(attr_wf(a0));
    assert(spec_tag_of(a.value) == t);
    assert(spec_attr_bytes(a) =~= seq![t] + spec_text_field(a.name) + spec_value_bytes(es[0])
        + spec_array_tail(t, es, 1));
    assert(spec_attr_bytes(a0) =~= seq![t] + spec_text_field(a.name) + spec_value_bytes(es[0]));
    assert(spec_attr_bytes(a) + rest =~= spec_attr_bytes(a0) + (spec_array_tail(t, es, 1)
        + rest));
    lemma_attr_roundtrip_first(a0, spec_array_tail(t, es, 1) + rest, st);
    let st2 = StreamState {
        groups: st.groups,
        cur: Some(spec_with_pushed(g, a0)),
        stack: Seq::empty(),
    };
    assert(spec_with_pushed(g, a0).attrs.last() == a0);
    lemma_array_tail_roundtrip(t, es, 1, rest, st2);
    lemma_promote_all(es, 1, es[0]);
    let gp = spec_with_pushed(g, a0);
    assert(gp.attrs.update(
        gp.attrs.len() - 1,
        AttrModel { name: a.name, value: ValueModel::Array(es) },
    ) =~= g.attrs.push(a));
}

/// The first record of an array attribute: it behaves as a one-value
/// attribute of the first element.
proof fn lemma_attr_roundtrip_first(a0: AttrModel, rest: Seq<u8>, st: StreamState)
    requires
        attr_wf(a0),
        !(a0.value is Array),
        st.stack.len() == 0,
        st.cur is Some,
        forall|j: int| 0 <= j < (st.cur->0).attrs.len() ==> #[trigger] (st.cur->0).attrs[j].name
            != a0.name,
    ensures
        spec_parse_stream(spec_attr_bytes(a0) + rest, st) == spec_parse_stream(
            rest,
            StreamState {
                groups: st.groups,
                cur: Some(spec_with_pushed(st.cur->0, a0)),
                stack: Seq::empty(),
            },
        ),
{
    if a0.value is Collection {
        lemma_attr_coll(a0, rest, st);
    } else {
        lemma_attr_scalar(a0, rest, st);
    }
}


/// Each attribute of a well-formed run is well-formed, and its name is
/// fresh among the later ones.
proof fn lemma_attrs_wf_at(attrs: Seq<AttrModel>, i: int, k: int)
    requires
        attrs_wf(attrs, i),
        0 <= i <= k < attrs.len(),
    ensures
        attr_wf(attrs[k]),
        forall|j: int| k < j < attrs.len() ==> #[trigger] attrs[j].name != attrs[k].name,
    decreases k - i,
{
    if i < k {
        lemma_attrs_wf_at(attrs, i + 1, k);
    }
}

/// Each group of a well-formed run is well-formed.
proof fn lemma_groups_wf_at(groups: Seq<GroupModel>, i: int, k: int)
    requires
        groups_wf(groups, i),
        0 <= i <= k < groups.len(),
    ensures
        group_wf(groups[k]),
    decreases k - i,
{
    if i < k {
        lemma_groups_wf_at(groups, i + 1, k);
    }
}

/// What the first-tag search finds: either nothing, and no group from
/// `i` on carries the tag, or the first carrier.
proof fn lemma_first_tag_spec(groups: Seq<GroupModel>, tag: DelimiterTag, i: int)
    requires
        0 <= i <= groups.len(),
    ensures
        spec_first_tag(groups, tag, i) == -1 || spec_first_tag(groups, tag, i) >= i,
        spec_first_tag(groups, tag, i) == -1 ==> (forall|k: int|
            i <= k < groups.len() ==> #[trigger] groups[k].tag != tag),
        spec_first_tag(groups, tag, i) >= 0 ==> i <= spec_first_tag(groups, tag, i)
            < groups.len() && groups[spec_first_tag(groups, tag, i)].tag == tag,
    decreases groups.len() - i,
{
    if i < groups.len() {
        lemma_first_tag_spec(groups, tag, i + 1);
    }
}

/// Parsing the serialized attributes of a group, one after the other,
/// fills the open group with exactly those attributes.
proof fn lemma_group_attrs_roundtrip(
    attrs: Seq<AttrModel>,
    i: int,
    rest: Seq<u8>,
    st: StreamState,
)
    requires
        0 <= i <= attrs.len(),
        attrs_wf(attrs, 0),
        st.stack.len() == 0,
        st.cur is Some,
        (st.cur->0).attrs == attrs.take(i),
    ensures
        spec_parse_stream(spec_attrs_bytes(attrs, i) + rest, st) == spec_parse_stream(
            rest,
            StreamState {
                groups: st.groups,
                cur: Some(GroupModel { tag: (st.cur->0).tag, attrs: attrs }),
                stack: Seq::empty(),
            },
        ),
    decreases attrs.len() - i,
{
    let g = st.cur->0;
    if i == attrs.len() {
        assert(spec_attrs_bytes(attrs, i) + rest =~= rest);
        assert(attrs.take(i) =~= attrs);
        assert(st.stack =~= Seq::<CollFrame>::empty());
        assert((StreamState {
            groups: st.groups,
            cur: Some(GroupModel { tag: g.tag, attrs: attrs }),
            stack: Seq::empty(),
        }) == st);
    } else {
        let a = attrs[i];
        lemma_attrs_wf_at(attrs, 0, i);
        assert forall|j: int| 0 <= j < g.attrs.len() implies #[trigger] g.attrs[j].name
            != a.name by {
            assert(g.attrs[j] == attrs[j]);
            lemma_attrs_wf_at(attrs, 0, j);
        }
        assert(spec_attrs_bytes(attrs, i) + rest =~= spec_attr_bytes(a) + (spec_attrs_bytes(
            attrs,
            i + 1,
        ) + rest));
        lemma_attr_roundtrip(a, spec_attrs_bytes(attrs, i + 1) + rest, st);
        let st2 = StreamState {
            groups: st.groups,
            cur: Some(spec_with_pushed(g, a)),
            stack: Seq::empty(),
        };
        assert(attrs.take(i).push(a) =~= attrs.take(i + 1));
        lemma_group_attrs_roundtrip(attrs, i + 1, rest, st2);
    }
}

/// The groups from index `i` on, without the one at `skip_at`.
pub open spec fn spec_groups_from(groups: Seq<GroupModel>, i: int, skip_at: int) -> Seq<
    GroupModel,
>
    decreases groups.len() - i,
{
    if 0 <= i < groups.len() {
        (if i == skip_at {
            Seq::empty()
        } else {
            seq![groups[i]]
        }) + spec_groups_from(groups, i + 1, skip_at)
    } else {
        Seq::empty()
    }
}

/// Once the skipped index lies behind, nothing more is skipped.
proof fn lemma_groups_from_tail(groups: Seq<GroupModel>, i: int, skip_at: int)
    requires
        0 <= i <= groups.len(),
        skip_at < i,
    ensures
        spec_groups_from(groups, i, skip_at) == groups.skip(i),
    decreases groups.len() - i,
{
    if i < groups.len() {
        lemma_groups_from_tail(groups, i + 1, skip_at);
        assert(spec_groups_from(groups, i, skip_at) =~= groups.skip(i));
    } else {
        assert(spec_groups_from(groups, i, skip_at) =~= groups.skip(i));
    }
}

/// Parsing the serialized groups from `i` on (except the one at
/// `skip_at`, already emitted), followed by the end-of-attributes byte
/// and the payload, closes the open group and yields those groups.
#[verifier::rlimit(100)]
proof fn lemma_rest_groups_roundtrip(
    groups: Seq<GroupModel>,
    i: int,
    payload: Seq<u8>,
    st: StreamState,
    skip_at: int,
)
    requires
        0 <= i <= groups.len(),
        groups_wf(groups, 0),
        st.stack.len() == 0,
    ensures
        spec_parse_stream(
            spec_rest_groups_bytes(groups, i, skip_at) + seq![3u8] + payload,
            st,
        ) == Ok::<(Seq<GroupModel>, Seq<u8>), IppParseError>(
            (spec_close_groups(st.groups, st.cur) + spec_groups_from(groups, i, skip_at), payload),
        ),
    decreases groups.len() - i,
{
    if i == groups.len() {
        let s = spec_rest_groups_bytes(groups, i, skip_at) + seq![3u8] + payload;
        assert(s =~= seq![3u8] + payload);
        assert(s[0] == 3);
        crate::parser::lemma_step_end(s, st);
        assert(s.skip(1) =~= payload);
        assert(spec_close_groups(st.groups, st.cur) + spec_groups_from(groups, i, skip_at)
            =~= spec_close_groups(st.groups, st.cur));
    } else if i == skip_at {
        assert(spec_rest_groups_bytes(groups, i, skip_at) =~= spec_rest_groups_bytes(
            groups,
            i + 1,
            skip_at,
        ));
        lemma_rest_groups_roundtrip(groups, i + 1, payload, st, skip_at);
        assert(spec_groups_from(groups, i, skip_at) =~= spec_groups_from(
            groups,
            i + 1,
            skip_at,
        ));
    } else {
        let g = groups[i];
        lemma_groups_wf_at(groups, 0, i);
        assert(spec_group_attr_bytes(g) == spec_attrs_bytes(g.attrs, 0)) by {
            if g.tag is OperationAttributes {
                assert(op_canonical(g.attrs));
            }
        }
        let tb = g.tag.spec_as_u8();
        let s = spec_rest_groups_bytes(groups, i, skip_at) + seq![3u8] + payload;
        let rest1 = spec_attrs_bytes(g.attrs, 0) + (spec_rest_groups_bytes(
            groups,
            i + 1,
            skip_at,
        ) + seq![3u8] + payload);
        assert(s =~= seq![tb] + rest1);
        assert(s[0] == tb);
        assert(0x01 <= tb <= 0x0A && tb != 0x03);
        crate::tags::lemma_delimiter_tag_roundtrip(g.tag);
        crate::parser::lemma_step_delimiter(s, st);
        assert(s.skip(1) =~= rest1);
        let st2 = StreamState {
            groups: spec_close_groups(st.groups, st.cur),
            cur: Some(GroupModel { tag: g.tag, attrs: Seq::empty() }),
            stack: Seq::empty(),
        };
        assert((GroupModel { tag: g.tag, attrs: Seq::empty() }).attrs =~= g.attrs.take(0));
        lemma_group_attrs_roundtrip(
            g.attrs,
            0,
            spec_rest_groups_bytes(groups, i + 1, skip_at) + seq![3u8] + payload,
            st2,
        );
        let st3 = StreamState {
            groups: spec_close_groups(st.groups, st.cur),
            cur: Some(GroupModel { tag: g.tag, attrs: g.attrs }),
            stack: Seq::empty(),
        };
        assert((GroupModel { tag: g.tag, attrs: g.attrs }) == g);
        lemma_rest_groups_roundtrip(groups, i + 1, payload, st3, skip_at);
        assert(spec_close_groups(st3.groups, st3.cur) + spec_groups_from(groups, i + 1, skip_at)
            =~= spec_close_groups(st.groups, st.cur) + spec_groups_from(groups, i, skip_at));
    }
}

/// The attribute-section round trip: serializing a well-formed group
/// list and parsing the stream back yields the same groups and leaves
/// the payload untouched.
#[verifier::rlimit(100)]
pub proof fn lemma_stream_roundtrip(groups: Seq<GroupModel>, payload: Seq<u8>)
    requires
        msg_wf(groups),
    ensures
        spec_parse_stream(
            spec_attributes_bytes(groups) + payload,
            StreamState { groups: Seq::empty(), cur: None, stack: Seq::empty() },
        ) == Ok::<(Seq<GroupModel>, Seq<u8>), IppParseError>((groups, payload)),
{
    let init = StreamState { groups: Seq::empty(), cur: None, stack: Seq::empty() };
    let k = spec_first_tag(groups, DelimiterTag::OperationAttributes, 0);
    lemma_first_tag_spec(groups, DelimiterTag::OperationAttributes, 0);
    if k == -1 {
        assert(spec_attributes_bytes(groups) + payload =~= spec_rest_groups_bytes(groups, 0, -1)
            + seq![3u8] + payload);
        lemma_rest_groups_roundtrip(groups, 0, payload, init, -1);
        lemma_groups_from_tail(groups, 0, -1);
        assert(spec_close_groups(init.groups, init.cur) + groups.skip(0) =~= groups);
    } else {
        assert(k == 0);
        assert(groups[0].tag is OperationAttributes);
        lemma_groups_wf_at(groups, 0, 0);
        let g0 = groups[0];
        assert(op_canonical(g0.attrs));
        let s = spec_attributes_bytes(groups) + payload;
        let rest1 = spec_attrs_bytes(g0.attrs, 0) + (spec_rest_groups_bytes(groups, 0, 0)
            + seq![3u8] + payload);
        assert(s =~= seq![1u8] + rest1);
        assert(s[0] == 1);
        crate::parser::lemma_step_delimiter(s, init);
        assert(s.skip(1) =~= rest1);
        assert(DelimiterTag::spec_from_u8(1) == Some(DelimiterTag::OperationAttributes));
        let st2 = StreamState {
            groups: Seq::empty(),
            cur: Some(
                GroupModel { tag: DelimiterTag::OperationAttributes, attrs: Seq::empty() },
            ),
            stack: Seq::empty(),
        };
        assert(spec_close_groups(init.groups, init.cur) =~= Seq::<GroupModel>::empty());
        assert((GroupModel {
            tag: DelimiterTag::OperationAttributes,
            attrs: Seq::<AttrModel>::empty(),
        }).attrs =~= g0.attrs.take(0));
        lemma_group_attrs_roundtrip(
            g0.attrs,
            0,
            spec_rest_groups_bytes(groups, 0, 0) + seq![3u8] + payload,
            st2,
        );
        let st3 = StreamState {
            groups: Seq::empty(),
            cur: Some(GroupModel { tag: DelimiterTag::OperationAttributes, attrs: g0.attrs }),
            stack: Seq::empty(),
        };
        assert((GroupModel { tag: DelimiterTag::OperationAttributes, attrs: g0.attrs }) == g0);
        lemma_rest_groups_roundtrip(groups, 0, payload, st3, 0);
        assert(spec_groups_from(groups, 0, 0) =~= spec_groups_from(groups, 1, 0));
        lemma_groups_from_tail(groups, 1, 0);
        assert(spec_close_groups(st3.groups, st3.cur) + spec_groups_from(groups, 0, 0)
            =~= groups);
    }
}

/// The message round trip: a well-formed message, serialized and parsed
/// again, is the same message.
pub proof fn lemma_message_roundtrip(m: MessageModel)
    requires
        msg_wf(m.groups),
    ensures
        spec_parse_message(spec_message_bytes(m)) == Ok::<MessageModel, IppParseError>(m),
{
    let b = spec_message_bytes(m);
    assert(b.len() >= 8);
    assert(b[0] == m.version.major);
    assert(b[1] == m.version.minor);
    assert(b[2] == spec_u16_be(m.op_or_status)[0]);
    assert(b[3] == spec_u16_be(m.op_or_status)[1]);
    lemma_u16_be_roundtrip(m.op_or_status);
    assert(b[4] == spec_u32_be(m.request_id)[0]);
    assert(b[5] == spec_u32_be(m.request_id)[1]);
    assert(b[6] == spec_u32_be(m.request_id)[2]);
    assert(b[7] == spec_u32_be(m.request_id)[3]);
    lemma_u32_be_roundtrip(m.request_id);
    assert(b.skip(8) =~= spec_attributes_bytes(m.groups) + m.payload);
    lemma_stream_roundtrip(m.groups, m.payload);
    assert((crate::message::IppVersion { major: b[0], minor: b[1] }) == m.version);
}

/// A single well-formed attribute, serialized inside a minimal group
/// envelope (one operation-group delimiter and the end-of-attributes
/// byte), parses back to a stream of one group holding exactly that
/// attribute.
pub proof fn lemma_attribute_stream_roundtrip(a: AttrModel)
    requires
        attr_wf(a),
    ensures
        spec_parse_stream(
            seq![1u8] + spec_attr_bytes(a) + seq![3u8],
            StreamState { groups: Seq::empty(), cur: None, stack: Seq::empty() },
        ) == Ok::<(Seq<GroupModel>, Seq<u8>), IppParseError>(
            (
                seq![
                    GroupModel {
                        tag: DelimiterTag::OperationAttributes,
                        attrs: seq![a],
                    },
                ],
                Seq::empty(),
            ),
        ),
{
    let init = StreamState { groups: Seq::empty(), cur: None, stack: Seq::empty() };
    let s = seq![1u8] + spec_attr_bytes(a) + seq![3u8];
    assert(s[0] == 1);
    crate::parser::lemma_step_delimiter(s, init);
    let st2 = StreamState {
        groups: Seq::empty(),
        cur: Some(GroupModel { tag: DelimiterTag::OperationAttributes, attrs: Seq::empty() }),
        stack: Seq::empty(),
    };
    assert(spec_close_groups(init.groups, init.cur) =~= Seq::<GroupModel>::empty());
    assert(s.skip(1) =~= spec_attr_bytes(a) + seq![3u8]);
    lemma_attr_roundtrip(a, seq![3u8], st2);
    let st3 = StreamState {
        groups: Seq::empty(),
        cur: Some(
            GroupModel {
                tag: DelimiterTag::OperationAttributes,
                attrs: Seq::<AttrModel>::empty().push(a),
            },
        ),
        stack: Seq::empty(),
    };
    crate::parser::lemma_step_end(seq![3u8], st3);
    assert(Seq::<AttrModel>::empty().push(a) =~= seq![a]);
    assert(spec_close_groups(st3.groups, st3.cur) =~= seq![
        GroupModel { tag: DelimiterTag::OperationAttributes, attrs: seq![a] },
    ]);
    assert(seq![3u8].skip(1) =~= Seq::<u8>::empty());
}

/// The serialized form of an array attribute: the first element's record
/// carries the attribute name, and each further element follows as a
/// record of the same value tag under a zero-length name.
pub proof fn lemma_array_records_shape(a: AttrModel)
    requires
        a.value is Array,
        a.value->Array_0.len() >= 1,
    ensures
        spec_attr_bytes(a) == spec_attr_bytes(
            AttrModel { name: a.name, value: a.value->Array_0[0] },
        ) + spec_zero_named_records(spec_tag_of(a.value->Array_0[0]), a.value->Array_0, 1),
{
    let es = a.value->Array_0;
    let t = spec_tag_of(es[0]);
    lemma_zero_named_records(t, es, 1);
    assert(spec_attr_bytes(a) =~= spec_attr_bytes(AttrModel { name: a.name, value: es[0] })
        + spec_array_tail(t, es, 1));
}

/// The records of the array elements from `i` on, each under the shared
/// tag and a zero-length name.
pub open spec fn spec_zero_named_records(tag: u8, es: Seq<ValueModel>, i: int) -> Seq<u8>
    decreases es, (if i <= es.len() { es.len() - i } else { 0int }),
{
    if 0 <= i < es.len() {
        seq![tag] + spec_text_field(Seq::empty()) + spec_value_bytes(es[i])
            + spec_zero_named_records(tag, es, i + 1)
    } else {
        Seq::empty()
    }
}

/// The element separators of an array are exactly zero-named records.
proof fn lemma_zero_named_records(tag: u8, es: Seq<ValueModel>, i: int)
    requires
        0 <= i <= es.len(),
    ensures
        spec_zero_named_records(tag, es, i) == spec_array_tail(tag, es, i),
    decreases es.len() - i,
{
    broadcast use vstd::utf8::encode_utf8_valid_utf8;

    if i < es.len() {
        lemma_zero_named_records(tag, es, i + 1);
        assert(encode_utf8(Seq::<char>::empty()) =~= Seq::<u8>::empty());
        assert(spec_text_field(Seq::<char>::empty()) =~= seq![0u8, 0u8]);
        assert(spec_zero_named_records(tag, es, i) =~= spec_array_tail(tag, es, i));
    } else {
        assert(spec_zero_named_records(tag, es, i) =~= spec_array_tail(tag, es, i));
    }
}

/// The RFC 8011 header-attribute order: in a group with distinct names
/// that holds `attributes-charset` and `attributes-natural-language`,
/// the serialized operation group opens with the charset record, then
/// the natural-language record, before anything else.
pub proof fn lemma_header_order(attrs: Seq<AttrModel>, i: int, j: int)
    requires
        0 <= i < attrs.len(),
        0 <= j < attrs.len(),
        attrs[i].name == "attributes-charset"@,
        attrs[j].name == "attributes-natural-language"@,
        forall|p: int, q: int|
            0 <= p < q < attrs.len() ==> #[trigger] attrs[p].name != #[trigger] attrs[q].name,
    ensures
        spec_op_group_bytes(attrs) == spec_attr_bytes(attrs[i]) + spec_attr_bytes(attrs[j]) + (
        crate::attribute::spec_named_bytes(attrs, "printer-uri"@, 0) + crate::attribute::spec_non_header_bytes(
            attrs,
            0,
        )),
{
    lemma_named_unique(attrs, "attributes-charset"@, i, 0);
    lemma_named_unique(attrs, "attributes-natural-language"@, j, 0);
}

/// With distinct names, the records named `name` are exactly the one
/// record of its carrier.
proof fn lemma_named_unique(attrs: Seq<AttrModel>, name: Seq<char>, i: int, k: int)
    requires
        0 <= i < attrs.len(),
        attrs[i].name == name,
        forall|p: int, q: int|
            0 <= p < q < attrs.len() ==> #[trigger] attrs[p].name != #[trigger] attrs[q].name,
        0 <= k <= i,
    ensures
        crate::attribute::spec_named_bytes(attrs, name, k) == spec_attr_bytes(attrs[i]),
    decreases attrs.len() - k,
{
    if k < i {
        assert(attrs[k].name != name);
        lemma_named_unique(attrs, name, i, k + 1);
        assert(crate::attribute::spec_named_bytes(attrs, name, k) =~= spec_attr_bytes(attrs[i]));
    } else {
        lemma_named_absent(attrs, name, i, i + 1);
        assert(crate::attribute::spec_named_bytes(attrs, name, k) =~= spec_attr_bytes(attrs[i]));
    }
}

/// Past the carrier, no record is named `name`.
proof fn lemma_named_absent(attrs: Seq<AttrModel>, name: Seq<char>, i: int, k: int)
    requires
        0 <= i < attrs.len(),
        attrs[i].name == name,
        forall|p: int, q: int|
            0 <= p < q < attrs.len() ==> #[trigger] attrs[p].name != #[trigger] attrs[q].name,
        i < k <= attrs.len(),
    ensures
        crate::attribute::spec_named_bytes(attrs, name, k) == Seq::<u8>::empty(),
    decreases attrs.len() - k,
{
    if k < attrs.len() {
        assert(attrs[k].name != name);
        lemma_named_absent(attrs, name, i, k + 1);
        assert(crate::attribute::spec_named_bytes(attrs, name, k) =~= Seq::<u8>::empty());
    } else {
        assert(crate::attribute::spec_named_bytes(attrs, name, k) =~= Seq::<u8>::empty());
    }
}

} // verus!
