//! Attributes, attribute groups and the attribute list, with the
//! serialization ordering that RFC 8011 asks of operation attributes.

use vstd::prelude::*;
use vstd::utf8::encode_utf8;

use crate::error::IppParseError;
use crate::tags::DelimiterTag;
use crate::text::{str_eq, IppString};
use crate::value::{
    enc_fits, put_text_field, spec_tag_of, spec_text_field, spec_value_bytes, IppValue,
    ValueModel,
};

verus! {

broadcast use vstd::std_specs::vec::group_vec_axioms;

/// The model of an attribute: a name and a value model.
pub struct AttrModel {
    pub name: Seq<char>,
    pub value: ValueModel,
}

/// The model of an attribute group: a delimiter tag and the attributes in
/// insertion order.
pub struct GroupModel {
    pub tag: DelimiterTag,
    pub attrs: Seq<AttrModel>,
}

/// The models of a sequence of attributes, in order.
pub open spec fn attr_models(attrs: Seq<IppAttribute>) -> Seq<AttrModel> {
    Seq::new(attrs.len(), |i: int| attrs[i]@)
}

/// The models of a sequence of groups, in order.
pub open spec fn group_models(groups: Seq<IppAttributeGroup>) -> Seq<GroupModel> {
    Seq::new(groups.len(), |i: int| groups[i]@)
}

/// An IPP attribute: a name of at most 1023 UTF-8 bytes and a value.
/// Immutable once constructed.
#[derive(Debug, PartialEq, Eq)]
pub struct IppAttribute {
    name: IppString,
    value: IppValue,
}

impl View for IppAttribute {
    type V = AttrModel;

    closed spec fn view(&self) -> AttrModel {
        AttrModel { name: self.name@, value: self.value@ }
    }
}

/// The bytes of one attribute record: the value tag, the length-prefixed
/// name, and the value bytes.
pub open spec fn spec_attr_bytes(a: AttrModel) -> Seq<u8> {
    seq![spec_tag_of(a.value)] + spec_text_field(a.name) + spec_value_bytes(a.value)
}

/// Whether a name is one of the three operation attributes that RFC 8011
/// places first.
pub open spec fn spec_is_header_name(n: Seq<char>) -> bool {
    n == "attributes-charset"@ || n == "attributes-natural-language"@ || n == "printer-uri"@
}

/// Whether the name is one of the operation attributes that are emitted
/// first.
pub fn is_header_attr(attr: &str) -> (r: bool)
    ensures
        r == spec_is_header_name(attr@),
{
    str_eq(attr, "attributes-charset") || str_eq(attr, "attributes-natural-language") || str_eq(
        attr,
        "printer-uri",
    )
}

impl IppAttribute {
    /// Create an attribute from a name and a value.
    pub fn new(name: IppString, value: IppValue) -> (r: IppAttribute)
        ensures
            r@ == (AttrModel { name: name@, value: value@ }),
    {
        IppAttribute { name, value }
    }

    /// The attribute name.
    pub fn name(&self) -> (r: &str)
        ensures
            r@ == self@.name,
            encode_utf8(self@.name).len() <= 1023,
    {
        self.name.as_str()
    }

    /// The attribute value.
    pub fn value(&self) -> (r: &IppValue)
        ensures
            r@ == self@.value,
    {
        &self.value
    }

    /// Consume the attribute and keep only the value.
    pub fn into_value(self) -> (r: IppValue)
        ensures
            r@ == self@.value,
    {
        self.value
    }

    /// Serialize the attribute record: tag byte, length-prefixed name,
    /// value bytes.
    pub fn to_bytes(&self) -> (r: Result<Vec<u8>, IppParseError>)
        requires
            enc_fits(self@.value),
        ensures
            r matches Ok(b) && b@ == spec_attr_bytes(self@),
    {
        let mut buf: Vec<u8> = Vec::new();
        buf.push(self.value.to_tag());
        put_text_field(&mut buf, self.name.as_str());
        let mut vb = self.value.to_bytes();
        buf.append(&mut vb);
        proof {
            assert(buf@ =~= spec_attr_bytes(self@));
        }
        Ok(buf)
    }
}

impl IppAttribute {
    /// The value tag this attribute's value serializes under.
    pub fn to_tag_of_value(&self) -> (r: u8)
        ensures
            r == spec_tag_of(self@.value),
    {
        self.value.to_tag()
    }
}

impl Clone for IppAttribute {
    /// The clone has the same model.
    fn clone(&self) -> (r: Self)
        ensures
            r@ == self@,
    {
        IppAttribute { name: self.name.clone(), value: self.value.clone() }
    }
}

/// An attribute group: a delimiter tag and the attributes inserted under
/// it, in insertion order. Inserting a name a second time replaces the
/// first attribute and moves it to the end.
#[derive(Debug, PartialEq, Eq)]
pub struct IppAttributeGroup {
    tag: DelimiterTag,
    attributes: Vec<IppAttribute>,
}

impl View for IppAttributeGroup {
    type V = GroupModel;

    closed spec fn view(&self) -> GroupModel {
        GroupModel { tag: self.tag, attrs: attr_models(self.attributes@) }
    }
}

/// The attributes whose name differs from `name`, from index `i` on, in
/// order.
pub open spec fn spec_without_name(attrs: Seq<AttrModel>, name: Seq<char>, i: int) -> Seq<
    AttrModel,
>
    decreases attrs.len() - i,
{
    if 0 <= i < attrs.len() {
        if attrs[i].name == name {
            spec_without_name(attrs, name, i + 1)
        } else {
            seq![attrs[i]] + spec_without_name(attrs, name, i + 1)
        }
    } else {
        Seq::empty()
    }
}

/// Inserting an attribute drops any attribute of the same name and
/// appends the new one at the end.
pub open spec fn spec_insert(attrs: Seq<AttrModel>, a: AttrModel) -> Seq<AttrModel> {
    spec_without_name(attrs, a.name, 0) + seq![a]
}

impl IppAttributeGroup {
    /// Create an empty group under the given delimiter tag.
    pub fn new(tag: DelimiterTag) -> (r: IppAttributeGroup)
        ensures
            r@.tag == tag,
            r@.attrs == Seq::<AttrModel>::empty(),
    {
        let r = IppAttributeGroup { tag, attributes: Vec::new() };
        proof {
            assert(r@.attrs =~= Seq::<AttrModel>::empty());
        }
        r
    }

    /// The group's delimiter tag.
    pub fn tag(&self) -> (r: DelimiterTag)
        ensures
            r == self@.tag,
    {
        self.tag
    }

    /// Borrow the attributes, in insertion order.
    pub fn attributes(&self) -> (r: &Vec<IppAttribute>)
        ensures
            r@.len() == self@.attrs.len(),
            forall|i: int| 0 <= i < r@.len() ==> r@[i]@ == self@.attrs[i],
    {
        &self.attributes
    }

    /// Consume the group and keep the attributes.
    pub fn into_attributes(self) -> (r: Vec<IppAttribute>)
        ensures
            r@.len() == self@.attrs.len(),
            forall|i: int| 0 <= i < r@.len() ==> r@[i]@ == self@.attrs[i],
    {
        self.attributes
    }

    /// Find the attribute with the given name.
    pub fn get(&self, name: &str) -> (r: Option<&IppAttribute>)
        ensures
            match r {
                Some(a) => exists|i: int| 0 <= i < self@.attrs.len() && #[trigger] self@.attrs[i]
                    == a@ && a@.name == name@,
                None => forall|i: int| 0 <= i < self@.attrs.len() ==> #[trigger] self@.attrs[i].name
                    != name@,
            },
    {
        let n = self.attributes.len();
        for i in 0..n
            invariant
                n == self.attributes@.len(),
                forall|j: int| 0 <= j < i ==> #[trigger] self@.attrs[j].name != name@,
            decreases n - i,
        {
            let a = &self.attributes[i];
            if str_eq(a.name(), name) {
                proof {
                    assert(self@.attrs[i as int] == a@);
                }
                return Some(a);
            }
        }
        None
    }

    /// Insert an attribute, replacing any attribute of the same name and
    /// placing the new one last.
    pub fn insert(&mut self, attribute: IppAttribute)
        ensures
            final(self)@.tag == old(self)@.tag,
            final(self)@.attrs == spec_insert(old(self)@.attrs, attribute@),
    {
        let n = self.attributes.len();
        let mut out: Vec<IppAttribute> = Vec::new();
        let ghost m = old(self)@.attrs;
        for i in 0..n
            invariant
                n == self.attributes@.len(),
                self.attributes@ == old(self).attributes@,
                m == attr_models(self.attributes@),
                attr_models(out@) + spec_without_name(m, attribute@.name, i as int)
                    == spec_without_name(m, attribute@.name, 0),
            decreases n - i,
        {
            let a = &self.attributes[i];
            if !str_eq(a.name(), attribute.name()) {
                out.push(a.clone());
                proof {
                    assert(m[i as int] == a@);
                    assert(attr_models(out@) =~= attr_models(out@.drop_last()) + seq![a@]);
                    assert(attr_models(out@) + spec_without_name(m, attribute@.name, i + 1)
                        =~= spec_without_name(m, attribute@.name, 0));
                }
            } else {
                proof {
                    assert(m[i as int] == a@);
                }
            }
        }
        out.push(attribute);
        proof {
            assert(spec_without_name(m, attribute@.name, n as int) =~= Seq::<AttrModel>::empty());
            assert(attr_models(out@) =~= spec_insert(m, attribute@));
        }
        self.attributes = out;
    }
}

impl IppAttributeGroup {
    /// Append a zero-named value to the most recent attribute, promoting
    /// it to an array; the record tag must match that attribute's tag.
    pub fn continue_value(&mut self, tag: u8, v: IppValue) -> (r: Result<(), IppParseError>)
        ensures
            match r {
                Ok(()) => crate::parser::spec_continue_value(old(self)@, tag, v@) matches Ok(g)
                    && final(self)@ == g,
                Err(e) => crate::parser::spec_continue_value(old(self)@, tag, v@) == Err::<
                    GroupModel,
                    IppParseError,
                >(e),
            },
    {
        let ghost m = old(self)@.attrs;
        let a = match self.attributes.pop() {
            Some(a) => a,
            None => {
                return Err(IppParseError::UnexpectedContinuation);
            },
        };
        proof {
            assert(a@ == m.last());
        }
        if !(a.to_tag_of_value() == tag) {
            return Err(IppParseError::UnexpectedContinuation);
        }
        let ghost am = a@;
        let ghost vm = v@;
        let IppAttribute { name, value } = a;
        let ghost valm = value@;
        let promoted = match value {
            IppValue::Array(mut es) => {
                let ghost es_old = es@;
                es.push(v);
                proof {
                    crate::value::lemma_array_models_push(es@);
                    assert(es@.drop_last() =~= es_old);
                    assert(valm == ValueModel::Array(crate::value::array_models(es_old, 0)));
                }
                IppValue::Array(es)
            },
            other => {
                let ghost om = other@;
                let mut es: Vec<IppValue> = Vec::new();
                es.push(other);
                es.push(v);
                proof {
                    crate::value::lemma_array_models(es@, 0);
                    assert(crate::value::array_models(es@, 0)[0 - 0] == es@[0].model());
                    assert(crate::value::array_models(es@, 0)[1 - 0] == es@[1].model());
                    assert(crate::value::array_models(es@, 0) =~= seq![om, vm]);
                    assert(valm == om);
                }
                IppValue::Array(es)
            },
        };
        let ghost pm = promoted@;
        proof {
            assert(pm == (match valm {
                ValueModel::Array(es2) => ValueModel::Array(es2.push(vm)),
                o => ValueModel::Array(seq![o, vm]),
            }));
        }
        self.attributes.push(IppAttribute { name, value: promoted });
        proof {
            assert(am.value == valm);
            assert(crate::parser::spec_continue_value(old(self)@, tag, vm) matches Ok(g2)
                && g2.tag == old(self)@.tag && g2.attrs == m.update(
                m.len() - 1,
                AttrModel { name: m.last().name, value: pm },
            ));
            assert(self.attributes@.last()@ == (AttrModel { name: m.last().name, value: pm }));
            assert(attr_models(self.attributes@) =~= m.update(
                m.len() - 1,
                AttrModel { name: m.last().name, value: pm },
            ));
        }
        Ok(())
    }
}

impl Clone for IppAttributeGroup {
    /// The clone has the same model.
    fn clone(&self) -> (r: Self)
        ensures
            r@ == self@,
    {
        let n = self.attributes.len();
        let mut out: Vec<IppAttribute> = Vec::new();
        for i in 0..n
            invariant
                n == self.attributes@.len(),
                out@.len() == i,
                forall|j: int| 0 <= j < i ==> out@[j]@ == self.attributes@[j]@,
            decreases n - i,
        {
            out.push(self.attributes[i].clone());
        }
        let r = IppAttributeGroup { tag: self.tag, attributes: out };
        proof {
            assert(attr_models(out@) =~= attr_models(self.attributes@));
        }
        r
    }
}


/// The concatenated records of the attributes from index `i` on.
pub open spec fn spec_attrs_bytes(attrs: Seq<AttrModel>, i: int) -> Seq<u8>
    decreases attrs.len() - i,
{
    if 0 <= i < attrs.len() {
        spec_attr_bytes(attrs[i]) + spec_attrs_bytes(attrs, i + 1)
    } else {
        Seq::empty()
    }
}

/// The concatenated records of the attributes named `name`, from index
/// `i` on.
pub open spec fn spec_named_bytes(attrs: Seq<AttrModel>, name: Seq<char>, i: int) -> Seq<u8>
    decreases attrs.len() - i,
{
    if 0 <= i < attrs.len() {
        (if attrs[i].name == name {
            spec_attr_bytes(attrs[i])
        } else {
            Seq::empty()
        }) + spec_named_bytes(attrs, name, i + 1)
    } else {
        Seq::empty()
    }
}

/// The concatenated records of the attributes that are not header
/// attributes, from index `i` on.
pub open spec fn spec_non_header_bytes(attrs: Seq<AttrModel>, i: int) -> Seq<u8>
    decreases attrs.len() - i,
{
    if 0 <= i < attrs.len() {
        (if !spec_is_header_name(attrs[i].name) {
            spec_attr_bytes(attrs[i])
        } else {
            Seq::empty()
        }) + spec_non_header_bytes(attrs, i + 1)
    } else {
        Seq::empty()
    }
}

/// The bytes of an operation group's attributes in the order RFC 8011
/// asks: `attributes-charset` first, then `attributes-natural-language`,
/// then `printer-uri`, then everything else in insertion order.
pub open spec fn spec_op_group_bytes(attrs: Seq<AttrModel>) -> Seq<u8> {
    spec_named_bytes(attrs, "attributes-charset"@, 0) + spec_named_bytes(
        attrs,
        "attributes-natural-language"@,
        0,
    ) + spec_named_bytes(attrs, "printer-uri"@, 0) + spec_non_header_bytes(attrs, 0)
}

/// The index of the first group with the given tag from `i` on, or -1.
pub open spec fn spec_first_tag(groups: Seq<GroupModel>, tag: DelimiterTag, i: int) -> int
    decreases groups.len() - i,
{
    if 0 <= i < groups.len() {
        if groups[i].tag == tag {
            i
        } else {
            spec_first_tag(groups, tag, i + 1)
        }
    } else {
        -1
    }
}

/// The attribute records of one group: an operation group in the RFC
/// 8011 header order, any other group in insertion order.
pub open spec fn spec_group_attr_bytes(g: GroupModel) -> Seq<u8> {
    if g.tag is OperationAttributes {
        spec_op_group_bytes(g.attrs)
    } else {
        spec_attrs_bytes(g.attrs, 0)
    }
}

/// The bytes of the groups from index `i` on, each under its delimiter
/// byte, except the one at `skip_at`: the operation group that was
/// already emitted at the head of the section. Later operation groups
/// are emitted here, at their positions.
pub open spec fn spec_rest_groups_bytes(groups: Seq<GroupModel>, i: int, skip_at: int) -> Seq<
    u8,
>
    decreases groups.len() - i,
{
    if 0 <= i < groups.len() {
        (if i == skip_at {
            Seq::empty()
        } else {
            seq![groups[i].tag.spec_as_u8()] + spec_group_attr_bytes(groups[i])
        }) + spec_rest_groups_bytes(groups, i + 1, skip_at)
    } else {
        Seq::empty()
    }
}

/// The bytes of the whole attribute section: the first operation group
/// (if any) under its delimiter first, then every other group in
/// insertion order — later operation groups included, each in header
/// order — then the end-of-attributes delimiter.
pub open spec fn spec_attributes_bytes(groups: Seq<GroupModel>) -> Seq<u8> {
    let k = spec_first_tag(groups, DelimiterTag::OperationAttributes, 0);
    (if k >= 0 {
        seq![1u8] + spec_op_group_bytes(groups[k].attrs)
    } else {
        Seq::empty()
    }) + spec_rest_groups_bytes(groups, 0, k) + seq![3u8]
}

/// Whether every attribute value from index `i` on fits the wire.
pub open spec fn attrs_fit(attrs: Seq<AttrModel>, i: int) -> bool
    decreases attrs.len() - i,
{
    if 0 <= i < attrs.len() {
        enc_fits(attrs[i].value) && attrs_fit(attrs, i + 1)
    } else {
        true
    }
}

/// Whether every attribute of every group from index `i` on fits the
/// wire.
pub open spec fn groups_fit(groups: Seq<GroupModel>, i: int) -> bool
    decreases groups.len() - i,
{
    if 0 <= i < groups.len() {
        attrs_fit(groups[i].attrs, 0) && groups_fit(groups, i + 1)
    } else {
        true
    }
}

/// Each attribute of a fitting sequence fits.
pub proof fn lemma_attrs_fit(attrs: Seq<AttrModel>, i: int, k: int)
    requires
        attrs_fit(attrs, i),
        0 <= i <= k < attrs.len(),
    ensures
        enc_fits(attrs[k].value),
    decreases k - i,
{
    if i < k {
        lemma_attrs_fit(attrs, i + 1, k);
    }
}

/// Each group of a fitting sequence fits.
pub proof fn lemma_groups_fit(groups: Seq<GroupModel>, i: int, k: int)
    requires
        groups_fit(groups, i),
        0 <= i <= k < groups.len(),
    ensures
        attrs_fit(groups[k].attrs, 0),
    decreases k - i,
{
    if i < k {
        lemma_groups_fit(groups, i + 1, k);
    }
}

/// Append the records of all attributes named `name`, in order.
#[verifier::loop_isolation(false)]
fn emit_named(buf: &mut Vec<u8>, attrs: &Vec<IppAttribute>, name: &str)
    requires
        attrs_fit(attr_models(attrs@), 0),
    ensures
        final(buf)@ == old(buf)@ + spec_named_bytes(attr_models(attrs@), name@, 0),
{
    let ghost m = attr_models(attrs@);
    let n = attrs.len();
    for i in 0..n
        invariant
            n == attrs@.len(),
            buf@ + spec_named_bytes(m, name@, i as int) == old(buf)@ + spec_named_bytes(
                m,
                name@,
                0,
            ),
        decreases n - i,
    {
        let a = &attrs[i];
        proof {
            assert(m[i as int] == a@);
        }
        if str_eq(a.name(), name) {
            proof {
                lemma_attrs_fit(m, 0, i as int);
            }
            let mut ab = match a.to_bytes() {
                Ok(b) => b,
                Err(_) => Vec::new(),
            };
            buf.append(&mut ab);
        }
        proof {
            assert(buf@ + spec_named_bytes(m, name@, i + 1) =~= old(buf)@ + spec_named_bytes(
                m,
                name@,
                0,
            ));
        }
    }
    proof {
        assert(buf@ =~= old(buf)@ + spec_named_bytes(m, name@, 0));
    }
}

/// Append the records of all attributes that are not header attributes,
/// in order.
#[verifier::loop_isolation(false)]
fn emit_non_header(buf: &mut Vec<u8>, attrs: &Vec<IppAttribute>)
    requires
        attrs_fit(attr_models(attrs@), 0),
    ensures
        final(buf)@ == old(buf)@ + spec_non_header_bytes(attr_models(attrs@), 0),
{
    let ghost m = attr_models(attrs@);
    let n = attrs.len();
    for i in 0..n
        invariant
            n == attrs@.len(),
            buf@ + spec_non_header_bytes(m, i as int) == old(buf)@ + spec_non_header_bytes(m, 0),
        decreases n - i,
    {
        let a = &attrs[i];
        proof {
            assert(m[i as int] == a@);
        }
        if !is_header_attr(a.name()) {
            proof {
                lemma_attrs_fit(m, 0, i as int);
            }
            let mut ab = match a.to_bytes() {
                Ok(b) => b,
                Err(_) => Vec::new(),
            };
            buf.append(&mut ab);
        }
        proof {
            assert(buf@ + spec_non_header_bytes(m, i + 1) =~= old(buf)@ + spec_non_header_bytes(
                m,
                0,
            ));
        }
    }
    proof {
        assert(buf@ =~= old(buf)@ + spec_non_header_bytes(m, 0));
    }
}

/// Append the records of all attributes, in order.
#[verifier::loop_isolation(false)]
fn emit_all(buf: &mut Vec<u8>, attrs: &Vec<IppAttribute>)
    requires
        attrs_fit(attr_models(attrs@), 0),
    ensures
        final(buf)@ == old(buf)@ + spec_attrs_bytes(attr_models(attrs@), 0),
{
    let ghost m = attr_models(attrs@);
    let n = attrs.len();
    for i in 0..n
        invariant
            n == attrs@.len(),
            buf@ + spec_attrs_bytes(m, i as int) == old(buf)@ + spec_attrs_bytes(m, 0),
        decreases n - i,
    {
        let a = &attrs[i];
        proof {
            assert(m[i as int] == a@);
            lemma_attrs_fit(m, 0, i as int);
        }
        let mut ab = match a.to_bytes() {
            Ok(b) => b,
            Err(_) => Vec::new(),
        };
        buf.append(&mut ab);
        proof {
            assert(buf@ + spec_attrs_bytes(m, i + 1) =~= old(buf)@ + spec_attrs_bytes(m, 0));
        }
    }
    proof {
        assert(buf@ =~= old(buf)@ + spec_attrs_bytes(m, 0));
    }
}

/// Append an operation group's attribute records in the RFC 8011 header
/// order.
fn emit_op_attrs(buf: &mut Vec<u8>, attrs: &Vec<IppAttribute>)
    requires
        attrs_fit(attr_models(attrs@), 0),
    ensures
        final(buf)@ == old(buf)@ + spec_op_group_bytes(attr_models(attrs@)),
{
    emit_named(buf, attrs, "attributes-charset");
    emit_named(buf, attrs, "attributes-natural-language");
    emit_named(buf, attrs, "printer-uri");
    emit_non_header(buf, attrs);
    proof {
        assert(buf@ =~= old(buf)@ + spec_op_group_bytes(attr_models(attrs@)));
    }
}

/// The group a lookup or an insertion lands in: the first group with the
/// sought tag.
pub open spec fn spec_add(groups: Seq<GroupModel>, tag: DelimiterTag, a: AttrModel) -> Seq<
    GroupModel,
> {
    let k = spec_first_tag(groups, tag, 0);
    if k >= 0 {
        groups.update(k, GroupModel { tag, attrs: spec_insert(groups[k].attrs, a) })
    } else {
        groups + seq![GroupModel { tag, attrs: seq![a] }]
    }
}

/// The models of the groups with the given tag, from index `i` on, in
/// order.
pub open spec fn spec_groups_of(groups: Seq<GroupModel>, tag: DelimiterTag, i: int) -> Seq<
    GroupModel,
>
    decreases groups.len() - i,
{
    if 0 <= i < groups.len() {
        (if groups[i].tag == tag {
            seq![groups[i]]
        } else {
            Seq::empty()
        }) + spec_groups_of(groups, tag, i + 1)
    } else {
        Seq::empty()
    }
}

/// An ordered list of attribute groups. Several groups may share a
/// delimiter tag; serialization emits the first operation group first.
#[derive(Debug, PartialEq, Eq)]
pub struct IppAttributes {
    groups: Vec<IppAttributeGroup>,
}

impl View for IppAttributes {
    type V = Seq<GroupModel>;

    closed spec fn view(&self) -> Seq<GroupModel> {
        group_models(self.groups@)
    }
}

impl Default for IppAttributes {
    /// The default list has no groups.
    fn default() -> (r: IppAttributes)
        ensures
            r@ == Seq::<GroupModel>::empty(),
    {
        let r = IppAttributes { groups: Vec::new() };
        proof {
            assert(r@ =~= Seq::<GroupModel>::empty());
        }
        r
    }
}

impl IppAttributes {
    /// Create an empty attribute list.
    pub fn new() -> (r: IppAttributes)
        ensures
            r@ == Seq::<GroupModel>::empty(),
    {
        let r = IppAttributes { groups: Vec::new() };
        proof {
            assert(r@ =~= Seq::<GroupModel>::empty());
        }
        r
    }

    /// Build a list from groups already in order.
    pub fn from_groups(groups: Vec<IppAttributeGroup>) -> (r: IppAttributes)
        ensures
            r@ == group_models(groups@),
    {
        IppAttributes { groups }
    }

    /// Borrow the groups, in insertion order.
    pub fn groups(&self) -> (r: &Vec<IppAttributeGroup>)
        ensures
            r@.len() == self@.len(),
            forall|i: int| 0 <= i < r@.len() ==> r@[i]@ == self@[i],
    {
        &self.groups
    }

    /// Consume the list and keep the groups.
    pub fn into_groups(self) -> (r: Vec<IppAttributeGroup>)
        ensures
            r@.len() == self@.len(),
            forall|i: int| 0 <= i < r@.len() ==> r@[i]@ == self@[i],
    {
        self.groups
    }

    /// The groups under the given delimiter tag, in order.
    #[verifier::loop_isolation(false)]
    pub fn groups_of(&self, tag: DelimiterTag) -> (r: Vec<IppAttributeGroup>)
        ensures
            group_models(r@) == spec_groups_of(self@, tag, 0),
    {
        let n = self.groups.len();
        let mut out: Vec<IppAttributeGroup> = Vec::new();
        for i in 0..n
            invariant
                n == self.groups@.len(),
                group_models(out@) + spec_groups_of(self@, tag, i as int) == spec_groups_of(
                    self@,
                    tag,
                    0,
                ),
            decreases n - i,
        {
            let g = &self.groups[i];
            proof {
                assert(self@[i as int] == g@);
            }
            if g.tag() == tag {
                out.push(g.clone());
                proof {
                    assert(group_models(out@) =~= group_models(out@.drop_last()) + seq![g@]);
                }
            }
            proof {
                assert(group_models(out@) + spec_groups_of(self@, tag, i + 1) =~= spec_groups_of(
                    self@,
                    tag,
                    0,
                ));
            }
        }
        proof {
            assert(group_models(out@) =~= group_models(out@) + spec_groups_of(
                self@,
                tag,
                n as int,
            ));
        }
        out
    }

    /// Add an attribute to the first group with the given tag, creating
    /// the group at the end of the list if none exists. Within the group
    /// the attribute replaces any attribute of the same name.
    #[verifier::loop_isolation(false)]
    pub fn add(&mut self, tag: DelimiterTag, attribute: IppAttribute)
        ensures
            final(self)@ == spec_add(old(self)@, tag, attribute@),
    {
        let n = self.groups.len();
        let ghost gm = old(self)@;
        let mut found: Option<usize> = None;
        let mut i: usize = 0;
        while i < n
            invariant
                n == self.groups@.len(),
                self.groups@ == old(self).groups@,
                found is None,
                0 <= i <= n,
                spec_first_tag(gm, tag, 0) == spec_first_tag(gm, tag, i as int),
            decreases n - i,
        {
            proof {
                assert(gm[i as int] == self.groups@[i as int]@);
            }
            if self.groups[i].tag() == tag {
                found = Some(i);
                break ;
            }
            i += 1;
        }
        match found {
            Some(k) => {
                proof {
                    assert(spec_first_tag(gm, tag, 0) == k as int);
                }
                let mut g = self.groups.remove(k);
                g.insert(attribute);
                self.groups.insert(k, g);
                proof {
                    assert(final(self)@ =~= spec_add(gm, tag, attribute@));
                }
            },
            None => {
                proof {
                    assert(spec_first_tag(gm, tag, 0) == -1);
                }
                let mut g = IppAttributeGroup::new(tag);
                g.insert(attribute);
                self.groups.push(g);
                proof {
                    assert(g@.attrs =~= seq![attribute@]);
                    assert(final(self)@ =~= spec_add(gm, tag, attribute@));
                }
            },
        }
    }

    /// Serialize the attribute section: the first operation group under
    /// its delimiter with header attributes first, then every other
    /// group in insertion order (later operation groups in header order
    /// too), then the end-of-attributes delimiter.
    #[verifier::loop_isolation(false)]
    #[verifier::rlimit(100)]
    pub fn to_bytes(&self) -> (r: Result<Vec<u8>, IppParseError>)
        requires
            groups_fit(self@, 0),
        ensures
            r matches Ok(b) && b@ == spec_attributes_bytes(self@),
    {
        let ghost gm = self@;
        let ghost skip_at = spec_first_tag(gm, DelimiterTag::OperationAttributes, 0);
        let n = self.groups.len();
        let mut buf: Vec<u8> = Vec::new();
        let mut found: Option<usize> = None;
        let mut i: usize = 0;
        while i < n
            invariant
                n == self.groups@.len(),
                found is None,
                0 <= i <= n,
                skip_at == spec_first_tag(gm, DelimiterTag::OperationAttributes, i as int),
            decreases n - i,
        {
            proof {
                assert(gm[i as int] == self.groups@[i as int]@);
            }
            if self.groups[i].tag() == DelimiterTag::OperationAttributes {
                found = Some(i);
                break ;
            }
            i += 1;
        }
        match found {
            Some(k) => {
                proof {
                    assert(skip_at == k as int);
                    lemma_groups_fit(gm, 0, k as int);
                }
                buf.push(1);
                let g = &self.groups[k];
                let ga = g.attributes();
                proof {
                    assert(gm[k as int] == g@);
                    assert(attr_models(ga@) =~= gm[k as int].attrs);
                }
                emit_op_attrs(&mut buf, ga);
                proof {
                    assert(buf@ =~= seq![1u8] + spec_op_group_bytes(gm[k as int].attrs));
                }
            },
            None => {
                proof {
                    assert(skip_at == -1);
                }
            },
        }
        let ghost op_part = buf@;
        for j in 0..n
            invariant
                n == self.groups@.len(),
                buf@ + spec_rest_groups_bytes(gm, j as int, skip_at) == op_part
                    + spec_rest_groups_bytes(gm, 0, skip_at),
            decreases n - j,
        {
            let g = &self.groups[j];
            proof {
                assert(gm[j as int] == g@);
            }
            let hoisted = match found {
                Some(k) => j == k,
                None => false,
            };
            proof {
                assert(hoisted == (j as int == skip_at));
            }
            if !hoisted {
                buf.push(g.tag().as_u8());
                let ga = g.attributes();
                proof {
                    lemma_groups_fit(gm, 0, j as int);
                    assert(attr_models(ga@) =~= gm[j as int].attrs);
                }
                if g.tag() == DelimiterTag::OperationAttributes {
                    emit_op_attrs(&mut buf, ga);
                } else {
                    emit_all(&mut buf, ga);
                }
            }
            proof {
                assert(buf@ + spec_rest_groups_bytes(gm, j + 1, skip_at) =~= op_part
                    + spec_rest_groups_bytes(gm, 0, skip_at));
            }
        }
        buf.push(3);
        proof {
            assert(buf@ =~= spec_attributes_bytes(gm));
        }
        Ok(buf)
    }
}

} // verus!
