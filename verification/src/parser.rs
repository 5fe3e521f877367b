//! The attribute-stream grammar: a record-by-record parsing machine over
//! the byte stream, with an explicit stack for open collections. The
//! executable message parser in [`crate::message`] follows this machine
//! step for step.

use vstd::prelude::*;
use vstd::utf8::encode_utf8;

use crate::attribute::{spec_insert, AttrModel, GroupModel};
use crate::error::IppParseError;
use crate::tags::DelimiterTag;
use crate::text::lossy_decode;
use crate::value::{spec_parse_value, spec_tag_of, MemberModel, ValueModel};
use crate::wire::spec_u16_from_be;

verus! {

/// Where a completed collection value goes when its end record is read.
pub enum CollTarget {
    /// It becomes a new attribute with this name in the current group.
    IntoGroup(Seq<char>),
    /// Its record had an empty name: it continues the previous attribute.
    IntoGroupContinue,
    /// It becomes the value of this member in the enclosing collection.
    IntoMember(Seq<char>),
}

/// One open collection: where its value goes, the members read so far,
/// and the member name awaiting its value, if any.
pub struct CollFrame {
    pub target: CollTarget,
    pub members: Seq<MemberModel>,
    pub pending: Option<Seq<char>>,
}

/// The parsing state between records: the closed groups, the group being
/// filled, and the stack of open collections.
pub struct StreamState {
    pub groups: Seq<GroupModel>,
    pub cur: Option<GroupModel>,
    pub stack: Seq<CollFrame>,
}

/// The groups of a finished stream: the closed groups, and the open one
/// if any.
pub open spec fn spec_close_groups(groups: Seq<GroupModel>, cur: Option<GroupModel>) -> Seq<
    GroupModel,
> {
    match cur {
        None => groups,
        Some(g) => groups + seq![g],
    }
}

/// One attribute record after its tag byte: the name length, the name
/// bytes, the value bytes, and the remaining stream.
pub struct RecModel {
    pub name_len: int,
    pub name: Seq<u8>,
    pub data: Seq<u8>,
    pub rest: Seq<u8>,
}

/// Read the fields of a record whose tag byte stands at `s[0]`: a 16-bit
/// name length, the name, a 16-bit value length, the value.
pub open spec fn spec_read_record(s: Seq<u8>) -> Result<RecModel, IppParseError> {
    if s.len() < 3 {
        Err(IppParseError::Truncated { needed: 2, available: (s.len() - 1) as usize })
    } else {
        let nl = spec_u16_from_be(s[1], s[2]) as int;
        if s.len() - 3 < nl {
            Err(IppParseError::Truncated { needed: nl as usize, available: (s.len() - 3) as usize })
        } else {
            let after = s.skip(3 + nl);
            if after.len() < 2 {
                Err(IppParseError::Truncated { needed: 2, available: after.len() as usize })
            } else {
                let vl = spec_u16_from_be(after[0], after[1]) as int;
                if after.len() - 2 < vl {
                    Err(
                        IppParseError::Truncated {
                            needed: vl as usize,
                            available: (after.len() - 2) as usize,
                        },
                    )
                } else {
                    Ok(
                        RecModel {
                            name_len: nl,
                            name: s.subrange(3, 3 + nl),
                            data: after.subrange(2, 2 + vl),
                            rest: after.skip(2 + vl),
                        },
                    )
                }
            }
        }
    }
}

/// A record leaves a strictly shorter remaining stream.
pub proof fn lemma_read_record_rest(s: Seq<u8>)
    ensures
        spec_read_record(s) matches Ok(rec) ==> rec.rest.len() == s.len() - 5 - rec.name_len
            - rec.data.len() && rec.rest.len() < s.len(),
{
}

/// The attribute name of a record: decoded lossily, at most 1023 bytes.
pub open spec fn spec_attr_name(name_bytes: Seq<u8>) -> Result<Seq<char>, IppParseError> {
    let chars = lossy_decode(name_bytes);
    if encode_utf8(chars).len() <= 1023 {
        Ok(chars)
    } else {
        Err(
            IppParseError::InvalidStringLength {
                len: encode_utf8(chars).len() as usize,
                max: 1023,
            },
        )
    }
}

/// The member name carried in a member-name record's value field:
/// decoded lossily, at most 255 bytes.
pub open spec fn spec_member_name(value_bytes: Seq<u8>) -> Result<Seq<char>, IppParseError> {
    let chars = lossy_decode(value_bytes);
    if encode_utf8(chars).len() <= 255 {
        Ok(chars)
    } else {
        Err(
            IppParseError::InvalidStringLength {
                len: encode_utf8(chars).len() as usize,
                max: 255,
            },
        )
    }
}

/// Append a zero-named value to the group's most recent attribute,
/// promoting it to an array. The record's tag must match the attribute's.
pub open spec fn spec_continue_value(g: GroupModel, tag: u8, v: ValueModel) -> Result<
    GroupModel,
    IppParseError,
> {
    if g.attrs.len() == 0 {
        Err(IppParseError::UnexpectedContinuation)
    } else {
        let last = g.attrs.last();
        if spec_tag_of(last.value) != tag {
            Err(IppParseError::UnexpectedContinuation)
        } else {
            let promoted = match last.value {
                ValueModel::Array(es) => ValueModel::Array(es.push(v)),
                other => ValueModel::Array(seq![other, v]),
            };
            Ok(
                GroupModel {
                    tag: g.tag,
                    attrs: g.attrs.update(
                        g.attrs.len() - 1,
                        AttrModel { name: last.name, value: promoted },
                    ),
                },
            )
        }
    }
}

/// Place a parsed value into the current group: under its name when the
/// record carried one, as an array continuation when it did not.
pub open spec fn spec_place_value(
    g: GroupModel,
    tag: u8,
    name_len: int,
    name_bytes: Seq<u8>,
    v: ValueModel,
) -> Result<GroupModel, IppParseError> {
    if name_len > 0 {
        match spec_attr_name(name_bytes) {
            Err(e) => Err(e),
            Ok(n) => Ok(
                GroupModel { tag: g.tag, attrs: spec_insert(g.attrs, AttrModel { name: n, value: v }) },
            ),
        }
    } else {
        spec_continue_value(g, tag, v)
    }
}

/// A frame with a member added and no member name pending.
pub open spec fn spec_add_member(f: CollFrame, name: Seq<char>, v: ValueModel) -> CollFrame {
    CollFrame {
        target: f.target,
        members: f.members.push(MemberModel { name, value: v }),
        pending: None,
    }
}

/// The parsing machine for the attribute stream, one record per step.
///
/// Outside any collection: a delimiter byte opens a group, the
/// end-of-attributes byte finishes the stream and yields the groups and
/// the unread remainder, a value-tag byte reads one record into the
/// current group, and a begin-collection record opens a collection.
/// Inside a collection: member-name records and value records alternate,
/// nested collections push a frame, and an end-collection record closes
/// the top frame and places the finished value.
#[verifier::opaque]
pub open spec fn spec_parse_stream(s: Seq<u8>, st: StreamState) -> Result<
    (Seq<GroupModel>, Seq<u8>),
    IppParseError,
>
    decreases s.len(),
    via spec_parse_stream_decreases
{
    if st.stack.len() == 0 {
        if s.len() == 0 {
            Err(IppParseError::Truncated { needed: 1, available: 0 })
        } else {
            let b = s[0];
            if b == 0x03 {
                Ok((spec_close_groups(st.groups, st.cur), s.skip(1)))
            } else if 0x01 <= b && b <= 0x0A {
                spec_parse_stream(
                    s.skip(1),
                    StreamState {
                        groups: spec_close_groups(st.groups, st.cur),
                        cur: Some(
                            GroupModel {
                                tag: DelimiterTag::spec_from_u8(b)->0,
                                attrs: Seq::empty(),
                            },
                        ),
                        stack: Seq::empty(),
                    },
                )
            } else if b < 0x10 {
                Err(IppParseError::InvalidDelimiterTag(b))
            } else if st.cur is None {
                Err(IppParseError::InvalidDelimiterTag(b))
            } else {
                match spec_read_record(s) {
                    Err(e) => Err(e),
                    Ok(rec) => {
                        if b == 0x34 {
                            if rec.name_len > 0 {
                                match spec_attr_name(rec.name) {
                                    Err(e) => Err(e),
                                    Ok(n) => spec_parse_stream(
                                        rec.rest,
                                        StreamState {
                                            groups: st.groups,
                                            cur: st.cur,
                                            stack: seq![
                                                CollFrame {
                                                    target: CollTarget::IntoGroup(n),
                                                    members: Seq::empty(),
                                                    pending: None,
                                                },
                                            ],
                                        },
                                    ),
                                }
                            } else {
                                spec_parse_stream(
                                    rec.rest,
                                    StreamState {
                                        groups: st.groups,
                                        cur: st.cur,
                                        stack: seq![
                                            CollFrame {
                                                target: CollTarget::IntoGroupContinue,
                                                members: Seq::empty(),
                                                pending: None,
                                            },
                                        ],
                                    },
                                )
                            }
                        } else {
                            match spec_parse_value(b, rec.data) {
                                Err(e) => Err(e),
                                Ok(v) => match spec_place_value(
                                    st.cur->0,
                                    b,
                                    rec.name_len,
                                    rec.name,
                                    v,
                                ) {
                                    Err(e) => Err(e),
                                    Ok(g) => spec_parse_stream(
                                        rec.rest,
                                        StreamState {
                                            groups: st.groups,
                                            cur: Some(g),
                                            stack: Seq::empty(),
                                        },
                                    ),
                                },
                            }
                        }
                    },
                }
            }
        }
    } else {
        if s.len() == 0 {
            Err(IppParseError::UnterminatedCollection)
        } else {
            let b = s[0];
            let f = st.stack.last();
            if b < 0x10 {
                Err(IppParseError::InvalidTag(b))
            } else {
                match spec_read_record(s) {
                    Err(e) => Err(e),
                    Ok(rec) => {
                        if b == 0x37 {
                            if f.pending is Some {
                                Err(IppParseError::InvalidTag(b))
                            } else {
                                let v = ValueModel::Collection(f.members);
                                if st.stack.len() == 1 {
                                    match f.target {
                                        CollTarget::IntoGroup(n) => spec_parse_stream(
                                            rec.rest,
                                            StreamState {
                                                groups: st.groups,
                                                cur: Some(
                                                    GroupModel {
                                                        tag: (st.cur->0).tag,
                                                        attrs: spec_insert(
                                                            (st.cur->0).attrs,
                                                            AttrModel { name: n, value: v },
                                                        ),
                                                    },
                                                ),
                                                stack: Seq::empty(),
                                            },
                                        ),
                                        CollTarget::IntoGroupContinue => match spec_continue_value(
                                            st.cur->0,
                                            0x34,
                                            v,
                                        ) {
                                            Err(e) => Err(e),
                                            Ok(g) => spec_parse_stream(
                                                rec.rest,
                                                StreamState {
                                                    groups: st.groups,
                                                    cur: Some(g),
                                                    stack: Seq::empty(),
                                                },
                                            ),
                                        },
                                        CollTarget::IntoMember(_) => Err(
                                            IppParseError::UnexpectedContinuation,
                                        ),
                                    }
                                } else {
                                    match f.target {
                                        CollTarget::IntoMember(n) => spec_parse_stream(
                                            rec.rest,
                                            StreamState {
                                                groups: st.groups,
                                                cur: st.cur,
                                                stack: st.stack.take(st.stack.len() - 2).push(
                                                    spec_add_member(
                                                        st.stack[st.stack.len() - 2],
                                                        n,
                                                        v,
                                                    ),
                                                ),
                                            },
                                        ),
                                        _ => Err(IppParseError::UnexpectedContinuation),
                                    }
                                }
                            }
                        } else if b == 0x34 {
                            match f.pending {
                                Some(n) => spec_parse_stream(
                                    rec.rest,
                                    StreamState {
                                        groups: st.groups,
                                        cur: st.cur,
                                        stack: st.stack.update(
                                            st.stack.len() - 1,
                                            CollFrame {
                                                target: f.target,
                                                members: f.members,
                                                pending: None,
                                            },
                                        ).push(
                                            CollFrame {
                                                target: CollTarget::IntoMember(n),
                                                members: Seq::empty(),
                                                pending: None,
                                            },
                                        ),
                                    },
                                ),
                                None => Err(IppParseError::InvalidTag(b)),
                            }
                        } else if b == 0x4A && f.pending is None {
                            match spec_member_name(rec.data) {
                                Err(e) => Err(e),
                                Ok(n) => spec_parse_stream(
                                    rec.rest,
                                    StreamState {
                                        groups: st.groups,
                                        cur: st.cur,
                                        stack: st.stack.update(
                                            st.stack.len() - 1,
                                            CollFrame {
                                                target: f.target,
                                                members: f.members,
                                                pending: Some(n),
                                            },
                                        ),
                                    },
                                ),
                            }
                        } else {
                            match f.pending {
                                None => Err(IppParseError::InvalidTag(b)),
                                Some(n) => match spec_parse_value(b, rec.data) {
                                    Err(e) => Err(e),
                                    Ok(v) => spec_parse_stream(
                                        rec.rest,
                                        StreamState {
                                            groups: st.groups,
                                            cur: st.cur,
                                            stack: st.stack.update(
                                                st.stack.len() - 1,
                                                spec_add_member(f, n, v),
                                            ),
                                        },
                                    ),
                                },
                            }
                        }
                    },
                }
            }
        }
    }
}

#[via_fn]
proof fn spec_parse_stream_decreases(s: Seq<u8>, st: StreamState) {
    lemma_read_record_rest(s);
}


/// One machine step: reading the end-of-attributes byte outside any
/// collection finishes the stream.
pub proof fn lemma_step_end(s: Seq<u8>, st: StreamState)
    requires
        st.stack.len() == 0,
        s.len() > 0,
        s[0] == 0x03,
    ensures
        spec_parse_stream(s, st) == Ok::<(Seq<GroupModel>, Seq<u8>), IppParseError>(
            (spec_close_groups(st.groups, st.cur), s.skip(1)),
        ),
{
    reveal(spec_parse_stream);
}

/// One machine step: a delimiter byte closes the open group and opens a
/// new one.
pub proof fn lemma_step_delimiter(s: Seq<u8>, st: StreamState)
    requires
        st.stack.len() == 0,
        s.len() > 0,
        0x01 <= s[0] <= 0x0A,
        s[0] != 0x03,
    ensures
        spec_parse_stream(s, st) == spec_parse_stream(
            s.skip(1),
            StreamState {
                groups: spec_close_groups(st.groups, st.cur),
                cur: Some(
                    GroupModel { tag: DelimiterTag::spec_from_u8(s[0])->0, attrs: Seq::empty() },
                ),
                stack: Seq::empty(),
            },
        ),
{
    reveal(spec_parse_stream);
}

/// One machine step: a value record outside any collection parses its
/// value and places it in the open group.
pub proof fn lemma_step_top_value(s: Seq<u8>, st: StreamState, v: ValueModel, g: GroupModel)
    requires
        st.stack.len() == 0,
        st.cur is Some,
        s.len() > 0,
        0x10 <= s[0],
        s[0] != 0x34,
        spec_read_record(s) is Ok,
        spec_parse_value(s[0], spec_read_record(s)->Ok_0.data) == Ok::<
            ValueModel,
            IppParseError,
        >(v),
        spec_place_value(
            st.cur->0,
            s[0],
            spec_read_record(s)->Ok_0.name_len,
            spec_read_record(s)->Ok_0.name,
            v,
        ) == Ok::<GroupModel, IppParseError>(g),
    ensures
        spec_parse_stream(s, st) == spec_parse_stream(
            spec_read_record(s)->Ok_0.rest,
            StreamState { groups: st.groups, cur: Some(g), stack: Seq::empty() },
        ),
{
    reveal(spec_parse_stream);
}

/// One machine step: a named begin-collection record opens a collection
/// frame for a new attribute.
pub proof fn lemma_step_top_open_named(s: Seq<u8>, st: StreamState, n: Seq<char>)
    requires
        st.stack.len() == 0,
        st.cur is Some,
        s.len() > 0,
        s[0] == 0x34,
        spec_read_record(s) is Ok,
        spec_read_record(s)->Ok_0.name_len > 0,
        spec_attr_name(spec_read_record(s)->Ok_0.name) == Ok::<Seq<char>, IppParseError>(n),
    ensures
        spec_parse_stream(s, st) == spec_parse_stream(
            spec_read_record(s)->Ok_0.rest,
            StreamState {
                groups: st.groups,
                cur: st.cur,
                stack: seq![
                    CollFrame {
                        target: CollTarget::IntoGroup(n),
                        members: Seq::empty(),
                        pending: None,
                    },
                ],
            },
        ),
{
    reveal(spec_parse_stream);
}

/// One machine step: a zero-named begin-collection record opens a
/// collection frame that will continue the previous attribute.
pub proof fn lemma_step_top_open_continue(s: Seq<u8>, st: StreamState)
    requires
        st.stack.len() == 0,
        st.cur is Some,
        s.len() > 0,
        s[0] == 0x34,
        spec_read_record(s) is Ok,
        spec_read_record(s)->Ok_0.name_len == 0,
    ensures
        spec_parse_stream(s, st) == spec_parse_stream(
            spec_read_record(s)->Ok_0.rest,
            StreamState {
                groups: st.groups,
                cur: st.cur,
                stack: seq![
                    CollFrame {
                        target: CollTarget::IntoGroupContinue,
                        members: Seq::empty(),
                        pending: None,
                    },
                ],
            },
        ),
{
    reveal(spec_parse_stream);
}

/// One machine step: a member-name record stores the pending member name.
pub proof fn lemma_step_coll_name(s: Seq<u8>, st: StreamState, n: Seq<char>)
    requires
        st.stack.len() >= 1,
        st.stack.last().pending is None,
        s.len() > 0,
        s[0] == 0x4A,
        spec_read_record(s) is Ok,
        spec_member_name(spec_read_record(s)->Ok_0.data) == Ok::<Seq<char>, IppParseError>(n),
    ensures
        spec_parse_stream(s, st) == spec_parse_stream(
            spec_read_record(s)->Ok_0.rest,
            StreamState {
                groups: st.groups,
                cur: st.cur,
                stack: st.stack.update(
                    st.stack.len() - 1,
                    CollFrame {
                        target: st.stack.last().target,
                        members: st.stack.last().members,
                        pending: Some(n),
                    },
                ),
            },
        ),
{
    reveal(spec_parse_stream);
}

/// One machine step: a value record inside a collection completes the
/// pending member.
pub proof fn lemma_step_coll_value(s: Seq<u8>, st: StreamState, v: ValueModel)
    requires
        st.stack.len() >= 1,
        st.stack.last().pending is Some,
        s.len() > 0,
        0x10 <= s[0],
        s[0] != 0x34,
        s[0] != 0x37,
        spec_read_record(s) is Ok,
        spec_parse_value(s[0], spec_read_record(s)->Ok_0.data) == Ok::<
            ValueModel,
            IppParseError,
        >(v),
    ensures
        spec_parse_stream(s, st) == spec_parse_stream(
            spec_read_record(s)->Ok_0.rest,
            StreamState {
                groups: st.groups,
                cur: st.cur,
                stack: st.stack.update(
                    st.stack.len() - 1,
                    spec_add_member(st.stack.last(), st.stack.last().pending->0, v),
                ),
            },
        ),
{
    reveal(spec_parse_stream);
}

/// One machine step: a begin-collection record where a member value is
/// awaited opens a nested frame.
pub proof fn lemma_step_coll_nested(s: Seq<u8>, st: StreamState)
    requires
        st.stack.len() >= 1,
        st.stack.last().pending is Some,
        s.len() > 0,
        s[0] == 0x34,
        spec_read_record(s) is Ok,
    ensures
        spec_parse_stream(s, st) == spec_parse_stream(
            spec_read_record(s)->Ok_0.rest,
            StreamState {
                groups: st.groups,
                cur: st.cur,
                stack: st.stack.update(
                    st.stack.len() - 1,
                    CollFrame {
                        target: st.stack.last().target,
                        members: st.stack.last().members,
                        pending: None,
                    },
                ).push(
                    CollFrame {
                        target: CollTarget::IntoMember(st.stack.last().pending->0),
                        members: Seq::empty(),
                        pending: None,
                    },
                ),
            },
        ),
{
    reveal(spec_parse_stream);
}

/// One machine step: an end-collection record closes a nested frame and
/// adds the finished collection to the enclosing one.
pub proof fn lemma_step_coll_close_member(s: Seq<u8>, st: StreamState)
    requires
        st.stack.len() >= 2,
        st.stack.last().pending is None,
        st.stack.last().target is IntoMember,
        s.len() > 0,
        s[0] == 0x37,
        spec_read_record(s) is Ok,
    ensures
        spec_parse_stream(s, st) == spec_parse_stream(
            spec_read_record(s)->Ok_0.rest,
            StreamState {
                groups: st.groups,
                cur: st.cur,
                stack: st.stack.take(st.stack.len() - 2).push(
                    spec_add_member(
                        st.stack[st.stack.len() - 2],
                        st.stack.last().target->IntoMember_0,
                        ValueModel::Collection(st.stack.last().members),
                    ),
                ),
            },
        ),
{
    reveal(spec_parse_stream);
}

/// One machine step: an end-collection record closes the last frame and
/// inserts the finished collection as a named attribute.
pub proof fn lemma_step_coll_close_group(s: Seq<u8>, st: StreamState)
    requires
        st.stack.len() == 1,
        st.stack.last().pending is None,
        st.stack.last().target is IntoGroup,
        st.cur is Some,
        s.len() > 0,
        s[0] == 0x37,
        spec_read_record(s) is Ok,
    ensures
        spec_parse_stream(s, st) == spec_parse_stream(
            spec_read_record(s)->Ok_0.rest,
            StreamState {
                groups: st.groups,
                cur: Some(
                    GroupModel {
                        tag: (st.cur->0).tag,
                        attrs: spec_insert(
                            (st.cur->0).attrs,
                            AttrModel {
                                name: st.stack.last().target->IntoGroup_0,
                                value: ValueModel::Collection(st.stack.last().members),
                            },
                        ),
                    },
                ),
                stack: Seq::empty(),
            },
        ),
{
    reveal(spec_parse_stream);
}

/// One machine step: an end-collection record closes the last frame and
/// continues the previous attribute with the finished collection.
pub proof fn lemma_step_coll_close_continue(s: Seq<u8>, st: StreamState, g: GroupModel)
    requires
        st.stack.len() == 1,
        st.stack.last().pending is None,
        st.stack.last().target is IntoGroupContinue,
        st.cur is Some,
        s.len() > 0,
        s[0] == 0x37,
        spec_read_record(s) is Ok,
        spec_continue_value(st.cur->0, 0x34, ValueModel::Collection(st.stack.last().members))
            == Ok::<GroupModel, IppParseError>(g),
    ensures
        spec_parse_stream(s, st) == spec_parse_stream(
            spec_read_record(s)->Ok_0.rest,
            StreamState { groups: st.groups, cur: Some(g), stack: Seq::empty() },
        ),
{
    reveal(spec_parse_stream);
}

} // verus!
