//! IPP messages: the 8-byte header, the attribute section, and the
//! trailing payload, with the serializer and the streaming parser.

use vstd::prelude::*;

use crate::attribute::{
    group_models, groups_fit, spec_attributes_bytes, spec_insert, AttrModel, GroupModel,
    IppAttribute, IppAttributeGroup, IppAttributes,
};
use crate::error::IppParseError;
use crate::parser::{
    spec_add_member, spec_attr_name, spec_close_groups, spec_continue_value, spec_member_name,
    spec_parse_stream, spec_place_value, spec_read_record, CollFrame, CollTarget, RecModel,
    StreamState,
};
use crate::tags::DelimiterTag;
use crate::text::{utf8_lossy_to_string, IppName, IppString};
use crate::value::{member_models, CollectionMember, IppValue, MemberModel, ValueModel};
use crate::wire::{
    get_u16_be, get_u32_be, put_bytes, put_u16_be, put_u32_be, spec_u16_be, spec_u16_from_be,
    spec_u32_be, spec_u32_from_be, sub_vec,
};

verus! {

broadcast use vstd::std_specs::vec::group_vec_axioms;

/// An IPP protocol version: a major and a minor number.
#[derive(Clone, Copy, Debug, PartialEq, Eq, Structural)]
pub struct IppVersion {
    pub major: u8,
    pub minor: u8,
}

/// The model of a message.
pub struct MessageModel {
    pub version: IppVersion,
    pub op_or_status: u16,
    pub request_id: u32,
    pub groups: Seq<GroupModel>,
    pub payload: Seq<u8>,
}

/// An IPP message: the header fields, the attribute groups, and the
/// opaque payload that follows the attribute section.
#[derive(Debug, PartialEq, Eq)]
pub struct IppMessage {
    pub version: IppVersion,
    pub op_or_status: u16,
    pub request_id: u32,
    pub attributes: IppAttributes,
    pub payload: Vec<u8>,
}

impl View for IppMessage {
    type V = MessageModel;

    open spec fn view(&self) -> MessageModel {
        MessageModel {
            version: self.version,
            op_or_status: self.op_or_status,
            request_id: self.request_id,
            groups: self.attributes@,
            payload: self.payload@,
        }
    }
}

/// The bytes of a whole message: the 8-byte header, the attribute
/// section, and the payload verbatim.
pub open spec fn spec_message_bytes(m: MessageModel) -> Seq<u8> {
    seq![m.version.major, m.version.minor] + spec_u16_be(m.op_or_status) + spec_u32_be(
        m.request_id,
    ) + spec_attributes_bytes(m.groups) + m.payload
}

/// The message a byte stream parses to: the header, then the attribute
/// stream, then whatever remains as payload.
pub open spec fn spec_parse_message(s: Seq<u8>) -> Result<MessageModel, IppParseError> {
    if s.len() < 8 {
        Err(IppParseError::Truncated { needed: 8, available: s.len() as usize })
    } else {
        match spec_parse_stream(
            s.skip(8),
            StreamState { groups: Seq::empty(), cur: None, stack: Seq::empty() },
        ) {
            Err(e) => Err(e),
            Ok(r) => Ok(
                MessageModel {
                    version: IppVersion { major: s[0], minor: s[1] },
                    op_or_status: spec_u16_from_be(s[2], s[3]),
                    request_id: spec_u32_from_be(s[4], s[5], s[6], s[7]),
                    groups: r.0,
                    payload: r.1,
                },
            ),
        }
    }
}

impl IppMessage {
    /// Create a message with no attributes and no payload.
    pub fn new(version: IppVersion, op_or_status: u16, request_id: u32) -> (r: IppMessage)
        ensures
            r@.version == version,
            r@.op_or_status == op_or_status,
            r@.request_id == request_id,
            r@.groups == Seq::<GroupModel>::empty(),
            r@.payload == Seq::<u8>::empty(),
    {
        let r = IppMessage {
            version,
            op_or_status,
            request_id,
            attributes: IppAttributes::new(),
            payload: Vec::new(),
        };
        proof {
            assert(r@.payload =~= Seq::<u8>::empty());
        }
        r
    }

    /// Serialize the message: header, attribute section, payload.
    pub fn to_bytes(&self) -> (r: Vec<u8>)
        requires
            groups_fit(self@.groups, 0),
        ensures
            r@ == spec_message_bytes(self@),
    {
        let mut buf: Vec<u8> = Vec::new();
        buf.push(self.version.major);
        buf.push(self.version.minor);
        put_u16_be(&mut buf, self.op_or_status);
        put_u32_be(&mut buf, self.request_id);
        let mut ab = match self.attributes.to_bytes() {
            Ok(b) => b,
            Err(_) => Vec::new(),
        };
        buf.append(&mut ab);
        put_bytes(&mut buf, self.payload.as_slice());
        proof {
            assert(buf@ =~= spec_message_bytes(self@));
        }
        buf
    }
}

/// Where an open collection's value goes when it closes.
enum OpenTarget {
    /// It becomes an attribute with this name.
    IntoGroup(IppString),
    /// Its record had an empty name: it continues the previous attribute.
    IntoGroupContinue,
    /// It becomes the value of this member of the enclosing collection.
    IntoMember(IppName),
}

impl OpenTarget {
    spec fn model(self) -> CollTarget {
        match self {
            OpenTarget::IntoGroup(n) => CollTarget::IntoGroup(n@),
            OpenTarget::IntoGroupContinue => CollTarget::IntoGroupContinue,
            OpenTarget::IntoMember(n) => CollTarget::IntoMember(n@),
        }
    }
}

/// One open collection while parsing.
struct OpenCollection {
    target: OpenTarget,
    members: Vec<CollectionMember>,
    pending: Option<IppName>,
}

impl OpenCollection {
    spec fn model(self) -> CollFrame {
        CollFrame {
            target: self.target.model(),
            members: member_models(self.members@, 0),
            pending: match self.pending {
                None => None,
                Some(n) => Some(n@),
            },
        }
    }
}

/// The models of the open collections, bottom first.
spec fn frame_models(stack: Seq<OpenCollection>) -> Seq<CollFrame> {
    Seq::new(stack.len(), |i: int| stack[i].model())
}

/// The model of the group being filled, if one is open.
spec fn cur_model(cur: Option<IppAttributeGroup>) -> Option<GroupModel> {
    match cur {
        None => None,
        Some(g) => Some(g@),
    }
}

/// Read the fields of the record whose tag byte stands at `data[pos]`:
/// the name length, the name bytes, the value bytes, and the position
/// after the record.
fn read_record(data: &[u8], pos: usize) -> (r: Result<
    (usize, Vec<u8>, Vec<u8>, usize),
    IppParseError,
>)
    requires
        pos < data@.len(),
    ensures
        match r {
            Ok(p) => spec_read_record(data@.skip(pos as int)) matches Ok(rec) && rec.name_len
                == p.0 && rec.name == p.1@ && rec.data == p.2@ && data@.skip(p.3 as int)
                == rec.rest && pos < p.3 <= data@.len(),
            Err(e) => spec_read_record(data@.skip(pos as int)) == Err::<RecModel, IppParseError>(
                e,
            ),
        },
{
    let ghost t = data@.skip(pos as int);
    let n = data.len();
    if n - pos < 3 {
        return Err(IppParseError::Truncated { needed: 2, available: n - pos - 1 });
    }
    let nl = get_u16_be(data, pos + 1) as usize;
    proof {
        assert(t[1] == data@[pos + 1]);
        assert(t[2] == data@[pos + 2]);
    }
    if n - pos - 3 < nl {
        return Err(IppParseError::Truncated { needed: nl, available: n - pos - 3 });
    }
    let name = sub_vec(data, pos + 3, pos + 3 + nl);
    proof {
        assert(name@ =~= t.subrange(3, 3 + nl as int));
        assert(t.skip(3 + nl as int) =~= data@.skip(pos + 3 + nl as int));
    }
    let vp = pos + 3 + nl;
    if n - vp < 2 {
        return Err(IppParseError::Truncated { needed: 2, available: n - vp });
    }
    let vl = get_u16_be(data, vp) as usize;
    proof {
        let after = t.skip(3 + nl as int);
        assert(after[0] == data@[vp as int]);
        assert(after[1] == data@[vp + 1]);
    }
    if n - vp - 2 < vl {
        return Err(IppParseError::Truncated { needed: vl, available: n - vp - 2 });
    }
    let vdata = sub_vec(data, vp + 2, vp + 2 + vl);
    let new_pos = vp + 2 + vl;
    proof {
        let after = t.skip(3 + nl as int);
        assert(vdata@ =~= after.subrange(2, 2 + vl as int));
        assert(data@.skip(new_pos as int) =~= after.skip(2 + vl as int));
    }
    Ok((nl, name, vdata, new_pos))
}

/// Decode and bound an attribute name read from a record.
fn attr_name_of(bytes: &Vec<u8>) -> (r: Result<IppString, IppParseError>)
    ensures
        match r {
            Ok(n) => spec_attr_name(bytes@) == Ok::<Seq<char>, IppParseError>(n@),
            Err(e) => spec_attr_name(bytes@) == Err::<Seq<char>, IppParseError>(e),
        },
{
    let s = utf8_lossy_to_string(bytes.as_slice());
    IppString::new(s.as_str())
}

/// Decode and bound a member name read from a record's value field.
fn member_name_of(bytes: &Vec<u8>) -> (r: Result<IppName, IppParseError>)
    ensures
        match r {
            Ok(n) => spec_member_name(bytes@) == Ok::<Seq<char>, IppParseError>(n@),
            Err(e) => spec_member_name(bytes@) == Err::<Seq<char>, IppParseError>(e),
        },
{
    let s = utf8_lossy_to_string(bytes.as_slice());
    IppName::new(s.as_str())
}

/// What one parsing step produced: the position after the record, or
/// the position of the payload when the end-of-attributes byte was read.
enum StepResult {
    Continue(usize),
    Finished(usize),
}

/// The group change one value record makes: parse the value, then place
/// it under its name or as a continuation.
pub open spec fn spec_record_value_step(
    g: GroupModel,
    b: u8,
    nl: int,
    name: Seq<u8>,
    data: Seq<u8>,
) -> Result<GroupModel, IppParseError> {
    match crate::value::spec_parse_value(b, data) {
        Err(e) => Err(e),
        Ok(v) => spec_place_value(g, b, nl, name, v),
    }
}

/// Apply one value record to the open group.
fn place_value_record(
    b: u8,
    nl: usize,
    name: &Vec<u8>,
    vdata: &Vec<u8>,
    g: &mut IppAttributeGroup,
) -> (r: Result<(), IppParseError>)
    ensures
        match r {
            Ok(()) => spec_record_value_step(old(g)@, b, nl as int, name@, vdata@) == Ok::<
                GroupModel,
                IppParseError,
            >(final(g)@),
            Err(e) => spec_record_value_step(old(g)@, b, nl as int, name@, vdata@) == Err::<
                GroupModel,
                IppParseError,
            >(e),
        },
{
    let value = match IppValue::parse(b, vdata.as_slice()) {
        Ok(v) => v,
        Err(e) => {
            return Err(e);
        },
    };
    let ghost vm = value@;
    if nl > 0 {
        let aname = match attr_name_of(name) {
            Ok(an) => an,
            Err(e) => {
                return Err(e);
            },
        };
        g.insert(IppAttribute::new(aname, value));
        proof {
            assert(spec_place_value(old(g)@, b, nl as int, name@, vm) == Ok::<
                GroupModel,
                IppParseError,
            >(g@));
        }
        Ok(())
    } else {
        match g.continue_value(b, value) {
            Ok(()) => {
                proof {
                    assert(spec_place_value(old(g)@, b, nl as int, name@, vm) == Ok::<
                        GroupModel,
                        IppParseError,
                    >(g@));
                }
                Ok(())
            },
            Err(e) => Err(e),
        }
    }
}

/// One parsing step outside any collection.
#[verifier::rlimit(100)]
fn step_top(
    data: &[u8],
    pos: usize,
    groups: &mut Vec<IppAttributeGroup>,
    cur: &mut Option<IppAttributeGroup>,
    stack: &mut Vec<OpenCollection>,
) -> (r: Result<StepResult, IppParseError>)
    requires
        pos < data@.len(),
        old(stack)@.len() == 0,
    ensures
        ({
            let s = data@.skip(pos as int);
            let st = StreamState {
                groups: group_models(old(groups)@),
                cur: cur_model(*old(cur)),
                stack: frame_models(old(stack)@),
            };
            let st2 = StreamState {
                groups: group_models(final(groups)@),
                cur: cur_model(*final(cur)),
                stack: frame_models(final(stack)@),
            };
            match r {
                Ok(StepResult::Continue(p)) => pos < p <= data@.len() && spec_parse_stream(s, st)
                    == spec_parse_stream(data@.skip(p as int), st2) && (final(stack)@.len() > 0
                    ==> *final(cur) is Some),
                Ok(StepResult::Finished(p)) => p == pos + 1 && spec_parse_stream(s, st) == Ok::<
                    (Seq<GroupModel>, Seq<u8>),
                    IppParseError,
                >((group_models(final(groups)@), data@.skip(p as int))),
                Err(e) => spec_parse_stream(s, st) == Err::<
                    (Seq<GroupModel>, Seq<u8>),
                    IppParseError,
                >(e),
            }
        }),
{
    proof {
        reveal(spec_parse_stream);
    }
    let ghost s = data@.skip(pos as int);
    let ghost st = StreamState {
        groups: group_models(groups@),
        cur: cur_model(*cur),
        stack: frame_models(stack@),
    };
    let b = data[pos];
    proof {
        assert(s[0] == b);
    }
    if b == 0x03 {
        let g_old = cur.take();
        match g_old {
            Some(g) => {
                groups.push(g);
            },
            None => {},
        }
        proof {
            assert(group_models(groups@) =~= spec_close_groups(st.groups, st.cur));
            assert(data@.skip(pos + 1) =~= s.skip(1));
        }
        return Ok(StepResult::Finished(pos + 1));
    }
    if 0x01 <= b && b <= 0x0A {
        let tag = match DelimiterTag::from_u8(b) {
            Some(t) => t,
            None => {
                return Err(IppParseError::InvalidDelimiterTag(b));
            },
        };
        let g_old = cur.take();
        match g_old {
            Some(g) => {
                groups.push(g);
            },
            None => {},
        }
        let g = IppAttributeGroup::new(tag);
        proof {
            assert(group_models(groups@) =~= spec_close_groups(st.groups, st.cur));
            assert(g@.attrs =~= Seq::<AttrModel>::empty());
            assert(data@.skip(pos + 1) =~= s.skip(1));
        }
        *cur = Some(g);
        proof {
            assert(spec_parse_stream(s, st) == spec_parse_stream(
                s.skip(1),
                StreamState {
                    groups: spec_close_groups(st.groups, st.cur),
                    cur: Some(
                        GroupModel {
                            tag: DelimiterTag::spec_from_u8(b)->0,
                            attrs: Seq::empty(),
                        },
                    ),
                    stack: Seq::empty(),
                },
            ));
            assert(frame_models(stack@) =~= Seq::<CollFrame>::empty());
            assert(cur_model(*cur) == Some(
                GroupModel { tag: DelimiterTag::spec_from_u8(b)->0, attrs: Seq::<AttrModel>::empty() },
            ));
            assert(spec_parse_stream(s, st) == spec_parse_stream(
                data@.skip(pos + 1),
                StreamState {
                    groups: group_models(groups@),
                    cur: cur_model(*cur),
                    stack: frame_models(stack@),
                },
            ));
        }
        return Ok(StepResult::Continue(pos + 1));
    }
    if b < 0x10 {
        return Err(IppParseError::InvalidDelimiterTag(b));
    }
    match step_top_record(data, pos, groups, cur, stack) {
        Ok(p) => Ok(StepResult::Continue(p)),
        Err(e) => Err(e),
    }
}

/// One value-tag record outside any collection.
fn step_top_record(
    data: &[u8],
    pos: usize,
    groups: &Vec<IppAttributeGroup>,
    cur: &mut Option<IppAttributeGroup>,
    stack: &mut Vec<OpenCollection>,
) -> (r: Result<usize, IppParseError>)
    requires
        pos < data@.len(),
        old(stack)@.len() == 0,
        0x10 <= data@[pos as int],

    ensures
        ({
            let s = data@.skip(pos as int);
            let st = StreamState {
                groups: group_models(groups@),
                cur: cur_model(*old(cur)),
                stack: frame_models(old(stack)@),
            };
            let st2 = StreamState {
                groups: group_models(groups@),
                cur: cur_model(*final(cur)),
                stack: frame_models(final(stack)@),
            };
            match r {
                Ok(p) => pos < p <= data@.len() && spec_parse_stream(s, st) == spec_parse_stream(
                    data@.skip(p as int),
                    st2,
                ) && (final(stack)@.len() > 0 ==> *final(cur) is Some),
                Err(e) => spec_parse_stream(s, st) == Err::<
                    (Seq<GroupModel>, Seq<u8>),
                    IppParseError,
                >(e),
            }
        }),
{
    let b = data[pos];
    if b == 0x34 {
        step_open_coll(data, pos, groups, cur, stack)
    } else {
        step_value(data, pos, groups, cur, stack)
    }
}

/// A begin-collection record outside any collection: open a frame.
#[verifier::rlimit(100)]
fn step_open_coll(
    data: &[u8],
    pos: usize,
    groups: &Vec<IppAttributeGroup>,
    cur: &mut Option<IppAttributeGroup>,
    stack: &mut Vec<OpenCollection>,
) -> (r: Result<usize, IppParseError>)
    requires
        pos < data@.len(),
        old(stack)@.len() == 0,
        0x10 <= data@[pos as int],
        data@[pos as int] == 0x34,

    ensures
        ({
            let s = data@.skip(pos as int);
            let st = StreamState {
                groups: group_models(groups@),
                cur: cur_model(*old(cur)),
                stack: frame_models(old(stack)@),
            };
            let st2 = StreamState {
                groups: group_models(groups@),
                cur: cur_model(*final(cur)),
                stack: frame_models(final(stack)@),
            };
            match r {
                Ok(p) => pos < p <= data@.len() && spec_parse_stream(s, st) == spec_parse_stream(
                    data@.skip(p as int),
                    st2,
                ) && (final(stack)@.len() > 0 ==> *final(cur) is Some),
                Err(e) => spec_parse_stream(s, st) == Err::<
                    (Seq<GroupModel>, Seq<u8>),
                    IppParseError,
                >(e),
            }
        }),
{
    proof {
        reveal(spec_parse_stream);
    }
    let ghost s = data@.skip(pos as int);
    let ghost st = StreamState {
        groups: group_models(groups@),
        cur: cur_model(*cur),
        stack: frame_models(stack@),
    };
    let b = data[pos];
    proof {
        assert(s[0] == b);
    }
    if cur.is_none() {
        return Err(IppParseError::InvalidDelimiterTag(b));
    }
    let (nl, name, vdata, new_pos) = match read_record(data, pos) {
        Ok(p) => p,
        Err(e) => {
            return Err(e);
        },
    };
    match open_collection_record(nl, &name, stack) {
        Ok(()) => {},
        Err(e) => {
            return Err(e);
        },
    }
    proof {
        let rec = spec_read_record(s)->Ok_0;
        if nl > 0 {
            let an = spec_attr_name(name@)->Ok_0;
            assert(spec_parse_stream(s, st) == spec_parse_stream(
                rec.rest,
                StreamState {
                    groups: st.groups,
                    cur: st.cur,
                    stack: seq![
                        CollFrame {
                            target: CollTarget::IntoGroup(an),
                            members: Seq::empty(),
                            pending: None,
                        },
                    ],
                },
            ));
        } else {
            assert(spec_parse_stream(s, st) == spec_parse_stream(
                rec.rest,
                StreamState {
                    groups: st.groups,
                    cur: st.cur,
                    stack: seq![
                        CollFrame {
                            target: CollTarget::IntoGroupContinue,
                            members: Seq::empty(),
                            pending: None,
                        },
                    ],
                },
            ));
        }
        assert(rec.rest == data@.skip(new_pos as int));
        assert(spec_parse_stream(s, st) == spec_parse_stream(
            data@.skip(new_pos as int),
            StreamState {
                groups: group_models(groups@),
                cur: cur_model(*cur),
                stack: frame_models(stack@),
            },
        ));
    }
    Ok(new_pos)
}

/// A plain value record outside any collection: parse it and place it.
#[verifier::rlimit(100)]
fn step_value(
    data: &[u8],
    pos: usize,
    groups: &Vec<IppAttributeGroup>,
    cur: &mut Option<IppAttributeGroup>,
    stack: &mut Vec<OpenCollection>,
) -> (r: Result<usize, IppParseError>)
    requires
        pos < data@.len(),
        old(stack)@.len() == 0,
        0x10 <= data@[pos as int],
        data@[pos as int] != 0x34,

    ensures
        ({
            let s = data@.skip(pos as int);
            let st = StreamState {
                groups: group_models(groups@),
                cur: cur_model(*old(cur)),
                stack: frame_models(old(stack)@),
            };
            let st2 = StreamState {
                groups: group_models(groups@),
                cur: cur_model(*final(cur)),
                stack: frame_models(final(stack)@),
            };
            match r {
                Ok(p) => pos < p <= data@.len() && spec_parse_stream(s, st) == spec_parse_stream(
                    data@.skip(p as int),
                    st2,
                ) && (final(stack)@.len() > 0 ==> *final(cur) is Some),
                Err(e) => spec_parse_stream(s, st) == Err::<
                    (Seq<GroupModel>, Seq<u8>),
                    IppParseError,
                >(e),
            }
        }),
{
    proof {
        reveal(spec_parse_stream);
    }
    let ghost s = data@.skip(pos as int);
    let ghost st = StreamState {
        groups: group_models(groups@),
        cur: cur_model(*cur),
        stack: frame_models(stack@),
    };
    let b = data[pos];
    proof {
        assert(s[0] == b);
    }
    if cur.is_none() {
        return Err(IppParseError::InvalidDelimiterTag(b));
    }
    let (nl, name, vdata, new_pos) = match read_record(data, pos) {
        Ok(p) => p,
        Err(e) => {
            return Err(e);
        },
    };
    let g_old = cur.take();
    let mut g = match g_old {
        Some(g) => g,
        None => {
            return Err(IppParseError::InvalidDelimiterTag(b));
        },
    };
    match place_value_record(b, nl, &name, &vdata, &mut g) {
        Ok(()) => {},
        Err(e) => {
            proof {
                let rec = spec_read_record(s)->Ok_0;
                assert(spec_parse_stream(s, st) == Err::<
                    (Seq<GroupModel>, Seq<u8>),
                    IppParseError,
                >(e));
            }
            return Err(e);
        },
    }
    *cur = Some(g);
    proof {
        let rec = spec_read_record(s)->Ok_0;
        assert(spec_parse_stream(s, st) == spec_parse_stream(
            rec.rest,
            StreamState { groups: st.groups, cur: cur_model(*cur), stack: Seq::empty() },
        ));
        assert(rec.rest == data@.skip(new_pos as int));
        assert(frame_models(stack@) =~= Seq::<CollFrame>::empty());
        assert(spec_parse_stream(s, st) == spec_parse_stream(
            data@.skip(new_pos as int),
            StreamState {
                groups: group_models(groups@),
                cur: cur_model(*cur),
                stack: frame_models(stack@),
            },
        ));
    }
    Ok(new_pos)
}

/// Push the frame a begin-collection record opens.
fn open_collection_record(nl: usize, name: &Vec<u8>, stack: &mut Vec<OpenCollection>) -> (r:
    Result<(), IppParseError>)
    requires
        old(stack)@.len() == 0,
    ensures
        match r {
            Ok(()) => {
                &&& nl > 0 ==> (spec_attr_name(name@) matches Ok(an) && frame_models(
                    final(stack)@,
                ) == seq![
                    CollFrame {
                        target: CollTarget::IntoGroup(an),
                        members: Seq::<MemberModel>::empty(),
                        pending: None::<Seq<char>>,
                    },
                ])
                &&& nl == 0 ==> frame_models(final(stack)@) == seq![
                    CollFrame {
                        target: CollTarget::IntoGroupContinue,
                        members: Seq::<MemberModel>::empty(),
                        pending: None::<Seq<char>>,
                    },
                ]
            },
            Err(e) => nl > 0 && spec_attr_name(name@) == Err::<Seq<char>, IppParseError>(e),
        },
{
    if nl > 0 {
        let aname = match attr_name_of(name) {
            Ok(an) => an,
            Err(e) => {
                return Err(e);
            },
        };
        let ghost anm = aname@;
        stack.push(
            OpenCollection {
                target: OpenTarget::IntoGroup(aname),
                members: Vec::new(),
                pending: None,
            },
        );
        proof {
            assert(member_models(Seq::<CollectionMember>::empty(), 0)
                =~= Seq::<MemberModel>::empty());
            assert(frame_models(stack@) =~= seq![
                CollFrame {
                    target: CollTarget::IntoGroup(anm),
                    members: Seq::empty(),
                    pending: None,
                },
            ]);
        }
        Ok(())
    } else {
        stack.push(
            OpenCollection {
                target: OpenTarget::IntoGroupContinue,
                members: Vec::new(),
                pending: None,
            },
        );
        proof {
            assert(member_models(Seq::<CollectionMember>::empty(), 0)
                =~= Seq::<MemberModel>::empty());
            assert(frame_models(stack@) =~= seq![
                CollFrame {
                    target: CollTarget::IntoGroupContinue,
                    members: Seq::empty(),
                    pending: None,
                },
            ]);
        }
        Ok(())
    }
}

/// One parsing step inside an open collection.
#[verifier::rlimit(100)]
fn step_coll(
    data: &[u8],
    pos: usize,
    groups: &Vec<IppAttributeGroup>,
    cur: &mut Option<IppAttributeGroup>,
    stack: &mut Vec<OpenCollection>,
) -> (r: Result<usize, IppParseError>)
    requires
        pos < data@.len(),
        old(stack)@.len() > 0,
        *old(cur) is Some,
    ensures
        ({
            let s = data@.skip(pos as int);
            let st = StreamState {
                groups: group_models(groups@),
                cur: cur_model(*old(cur)),
                stack: frame_models(old(stack)@),
            };
            let st2 = StreamState {
                groups: group_models(groups@),
                cur: cur_model(*final(cur)),
                stack: frame_models(final(stack)@),
            };
            match r {
                Ok(p) => pos < p <= data@.len() && spec_parse_stream(s, st) == spec_parse_stream(
                    data@.skip(p as int),
                    st2,
                ) && (final(stack)@.len() > 0 ==> *final(cur) is Some),
                Err(e) => spec_parse_stream(s, st) == Err::<
                    (Seq<GroupModel>, Seq<u8>),
                    IppParseError,
                >(e),
            }
        }),
{
    proof {
        reveal(spec_parse_stream);
    }
    let ghost s = data@.skip(pos as int);
    let ghost sm = frame_models(stack@);
    let ghost cm = cur_model(*cur);
    let ghost st_entry = StreamState { groups: group_models(groups@), cur: cm, stack: sm };
    let b = data[pos];
    proof {
        assert(s[0] == b);
    }
    if b < 0x10 {
        return Err(IppParseError::InvalidTag(b));
    }
    let (nl, name, vdata, new_pos) = match read_record(data, pos) {
        Ok(p) => p,
        Err(e) => {
            return Err(e);
        },
    };
    if b == 0x37 {
        let f = match stack.pop() {
            Some(f) => f,
            None => {
                return Err(IppParseError::UnterminatedCollection);
            },
        };
        proof {
            assert(f.model() == sm.last());
            assert(frame_models(stack@) =~= sm.drop_last());
        }
        if f.pending.is_some() {
            return Err(IppParseError::InvalidTag(b));
        }
        let ghost fm = f.model();
        let v = IppValue::Collection(f.members);
        proof {
            assert(v@ == ValueModel::Collection(fm.members));
        }
        if stack.len() == 0 {
            match f.target {
                OpenTarget::IntoGroup(aname) => {
                    let ghost anm = aname@;
                    let g_old = cur.take();
                    let mut g = match g_old {
                        Some(g) => g,
                        None => {
                            return Err(IppParseError::UnexpectedContinuation);
                        },
                    };
                    g.insert(IppAttribute::new(aname, v));
                    *cur = Some(g);
                    proof {
                        assert(frame_models(stack@) =~= Seq::<CollFrame>::empty());
                        assert(spec_parse_stream(s, st_entry) == spec_parse_stream(
                            data@.skip(new_pos as int),
                            StreamState {
                                groups: group_models(groups@),
                                cur: cur_model(*cur),
                                stack: frame_models(stack@),
                            },
                        ));
                    }
                    Ok(new_pos)
                },
                OpenTarget::IntoGroupContinue => {
                    let g_old = cur.take();
                    let mut g = match g_old {
                        Some(g) => g,
                        None => {
                            return Err(IppParseError::UnexpectedContinuation);
                        },
                    };
                    match g.continue_value(0x34, v) {
                        Ok(()) => {},
                        Err(e) => {
                            return Err(e);
                        },
                    }
                    *cur = Some(g);
                    proof {
                        assert(frame_models(stack@) =~= Seq::<CollFrame>::empty());
                        assert(spec_parse_stream(s, st_entry) == spec_parse_stream(
                            data@.skip(new_pos as int),
                            StreamState {
                                groups: group_models(groups@),
                                cur: cur_model(*cur),
                                stack: frame_models(stack@),
                            },
                        ));
                    }
                    Ok(new_pos)
                },
                OpenTarget::IntoMember(_) => Err(IppParseError::UnexpectedContinuation),
            }
        } else {
            match f.target {
                OpenTarget::IntoMember(mname) => {
                    let ghost mnm = mname@;
                    let ghost psm = frame_models(stack@);
                    let mut parent = match stack.pop() {
                        Some(p) => p,
                        None => {
                            return Err(IppParseError::UnterminatedCollection);
                        },
                    };
                    proof {
                        assert(parent.model() == psm.last());
                        assert(psm.last() == sm[sm.len() - 2]);
                    }
                    let ghost pm_old = parent.model();
                    let ghost mem_old = parent.members@;
                    parent.members.push(CollectionMember { name: mname, value: v });
                    parent.pending = None;
                    proof {
                        assert(parent.members@.drop_last() =~= mem_old);
                        crate::value::lemma_member_models_push(parent.members@);
                        assert(member_models(parent.members@, 0) =~= pm_old.members.push(
                            MemberModel { name: mnm, value: ValueModel::Collection(fm.members) },
                        ));
                        assert(parent.model() == spec_add_member(
                            sm[sm.len() - 2],
                            mnm,
                            ValueModel::Collection(fm.members),
                        ));
                    }
                    stack.push(parent);
                    proof {
                        assert(frame_models(stack@) =~= sm.take(sm.len() - 2).push(
                            spec_add_member(sm[sm.len() - 2], mnm, ValueModel::Collection(
                                fm.members,
                            )),
                        ));
                        assert(spec_parse_stream(s, st_entry) == spec_parse_stream(
                            data@.skip(new_pos as int),
                            StreamState {
                                groups: group_models(groups@),
                                cur: cur_model(*cur),
                                stack: frame_models(stack@),
                            },
                        ));
                    }
                    Ok(new_pos)
                },
                _ => Err(IppParseError::UnexpectedContinuation),
            }
        }
    } else if b == 0x34 {
        let mut f = match stack.pop() {
            Some(f) => f,
            None => {
                return Err(IppParseError::UnterminatedCollection);
            },
        };
        proof {
            assert(f.model() == sm.last());
        }
        match f.pending.take() {
            Some(mname) => {
                let ghost mnm = mname@;
                let ghost fm2 = f.model();
                stack.push(f);
                stack.push(
                    OpenCollection {
                        target: OpenTarget::IntoMember(mname),
                        members: Vec::new(),
                        pending: None,
                    },
                );
                proof {
                    assert(member_models(Seq::<CollectionMember>::empty(), 0)
                        =~= Seq::<MemberModel>::empty());
                    assert(frame_models(stack@) =~= sm.update(
                        sm.len() - 1,
                        CollFrame {
                            target: sm.last().target,
                            members: sm.last().members,
                            pending: None,
                        },
                    ).push(
                        CollFrame {
                            target: CollTarget::IntoMember(mnm),
                            members: Seq::empty(),
                            pending: None,
                        },
                    ));
                    assert(spec_parse_stream(s, st_entry) == spec_parse_stream(
                        data@.skip(new_pos as int),
                        StreamState {
                            groups: group_models(groups@),
                            cur: cur_model(*cur),
                            stack: frame_models(stack@),
                        },
                    ));
                }
                Ok(new_pos)
            },
            None => Err(IppParseError::InvalidTag(b)),
        }
    } else {
        let mut f = match stack.pop() {
            Some(f) => f,
            None => {
                return Err(IppParseError::UnterminatedCollection);
            },
        };
        proof {
            assert(f.model() == sm.last());
        }
        if b == 0x4A && f.pending.is_none() {
            let mname = match member_name_of(&vdata) {
                Ok(m) => m,
                Err(e) => {
                    return Err(e);
                },
            };
            let ghost mnm = mname@;
            f.pending = Some(mname);
            stack.push(f);
            proof {
                assert(frame_models(stack@) =~= sm.update(
                    sm.len() - 1,
                    CollFrame {
                        target: sm.last().target,
                        members: sm.last().members,
                        pending: Some(mnm),
                    },
                ));
                assert(spec_parse_stream(s, st_entry) == spec_parse_stream(
                    data@.skip(new_pos as int),
                    StreamState {
                        groups: group_models(groups@),
                        cur: cur_model(*cur),
                        stack: frame_models(stack@),
                    },
                ));
            }
            Ok(new_pos)
        } else {
            match f.pending.take() {
                None => Err(IppParseError::InvalidTag(b)),
                Some(mname) => {
                    let value = match IppValue::parse(b, vdata.as_slice()) {
                        Ok(v) => v,
                        Err(e) => {
                            return Err(e);
                        },
                    };
                    let ghost fm_old = sm.last();
                    let ghost mnm = mname@;
                    let ghost vm = value@;
                    let ghost mem_old = f.members@;
                    f.members.push(CollectionMember { name: mname, value });
                    proof {
                        assert(f.members@.drop_last() =~= mem_old);
                        crate::value::lemma_member_models_push(f.members@);
                        assert(member_models(f.members@, 0) =~= fm_old.members.push(
                            MemberModel { name: mnm, value: vm },
                        ));
                        assert(f.model() == spec_add_member(fm_old, mnm, vm));
                    }
                    stack.push(f);
                    proof {
                        assert(frame_models(stack@) =~= sm.update(
                            sm.len() - 1,
                            spec_add_member(sm.last(), mnm, vm),
                        ));
                        assert(spec_parse_stream(s, st_entry) == spec_parse_stream(
                            data@.skip(new_pos as int),
                            StreamState {
                                groups: group_models(groups@),
                                cur: cur_model(*cur),
                                stack: frame_models(stack@),
                            },
                        ));
                    }
                    Ok(new_pos)
                },
            }
        }
    }
}

/// Parse a message from its bytes. The result mirrors
/// [`spec_parse_message`]: the same message on success, the same error
/// otherwise.
#[verifier::loop_isolation(false)]
pub fn parse_message(data: &[u8]) -> (r: Result<IppMessage, IppParseError>)
    ensures
        match r {
            Ok(m) => spec_parse_message(data@) == Ok::<MessageModel, IppParseError>(m@),
            Err(e) => spec_parse_message(data@) == Err::<MessageModel, IppParseError>(e),
        },
{
    let n = data.len();
    if n < 8 {
        return Err(IppParseError::Truncated { needed: 8, available: n });
    }
    let version = IppVersion { major: data[0], minor: data[1] };
    let op_or_status = get_u16_be(data, 2);
    let request_id = get_u32_be(data, 4);
    let ghost s0 = data@.skip(8);
    let ghost init = StreamState { groups: Seq::empty(), cur: None, stack: Seq::empty() };
    let mut pos: usize = 8;
    let mut groups: Vec<IppAttributeGroup> = Vec::new();
    let mut cur: Option<IppAttributeGroup> = None;
    let mut stack: Vec<OpenCollection> = Vec::new();
    proof {
        reveal(spec_parse_stream);
        assert(group_models(groups@) =~= Seq::<GroupModel>::empty());
        assert(frame_models(stack@) =~= Seq::<CollFrame>::empty());
    }
    loop
        invariant
            8 <= pos <= n,
            n == data@.len(),
            stack@.len() > 0 ==> cur is Some,
            spec_parse_stream(s0, init) == spec_parse_stream(
                data@.skip(pos as int),
                StreamState {
                    groups: group_models(groups@),
                    cur: cur_model(cur),
                    stack: frame_models(stack@),
                },
            ),
        decreases n - pos,
    {
        proof {
            reveal(spec_parse_stream);
        }
        if pos == n {
            if stack.len() == 0 {
                return Err(IppParseError::Truncated { needed: 1, available: 0 });
            } else {
                return Err(IppParseError::UnterminatedCollection);
            }
        }
        if stack.len() == 0 {
            match step_top(data, pos, &mut groups, &mut cur, &mut stack) {
                Ok(StepResult::Continue(p)) => {
                    pos = p;
                },
                Ok(StepResult::Finished(p)) => {
                    let payload = sub_vec(data, p, n);
                    proof {
                        assert(payload@ =~= data@.skip(p as int));
                    }
                    return Ok(
                        IppMessage {
                            version,
                            op_or_status,
                            request_id,
                            attributes: IppAttributes::from_groups(groups),
                            payload,
                        },
                    );
                },
                Err(e) => {
                    return Err(e);
                },
            }
        } else {
            match step_coll(data, pos, &groups, &mut cur, &mut stack) {
                Ok(p) => {
                    pos = p;
                },
                Err(e) => {
                    return Err(e);
                },
            }
        }
    }
}

} // verus!
