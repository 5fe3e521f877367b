//! CUPS-specific IPP operations: listing printers and deleting one. For
//! operations that need authentication the URI may carry an authority
//! part.

use vstd::prelude::*;
use vstd::utf8::encode_utf8;

use crate::attribute::{
    spec_attrs_bytes, spec_named_bytes, spec_non_header_bytes, AttrModel, GroupModel,
    IppAttribute, IppAttributes,
};
use crate::error::IppParseError;
use crate::message::{IppMessage, IppVersion, MessageModel};
use crate::tags::DelimiterTag;
use crate::roundtrip::{attr_wf, attrs_wf, group_wf, groups_wf, msg_wf, op_canonical};
use crate::text::{lemma_encode_len_bound, lemma_encode_len_min, IppCharset, IppLanguage, IppString};
use crate::value::{IppValue, ValueModel};

verus! {

#[verifier::external_type_specification]
#[verifier::external_body]
pub struct ExUri(http::Uri);

/// Relies on `http::Uri`'s string rendering (its `Display`
/// implementation): it yields some string form of the URI.
#[verifier::external_body]
fn uri_to_string(u: &http::Uri) -> String {
    u.to_string()
}

/// The default protocol version of requests built here.
pub open spec fn spec_request_version() -> IppVersion {
    IppVersion { major: 1, minor: 1 }
}

/// The operation attributes every request opens with: the character set
/// and the natural language.
pub open spec fn spec_request_header_attrs() -> Seq<AttrModel> {
    seq![
        AttrModel { name: "attributes-charset"@, value: ValueModel::Charset("utf-8"@) },
        AttrModel {
            name: "attributes-natural-language"@,
            value: ValueModel::NaturalLanguage("en"@),
        },
    ]
}

/// Build a request skeleton: version 1.1, the given operation code,
/// request id 1, the two leading operation attributes, and the printer
/// URI as third attribute when one is given.
fn base_request(op: u16, printer_uri: Option<IppString>) -> (r: IppMessage)
    ensures
        r@.version == spec_request_version(),
        r@.op_or_status == op,
        r@.request_id == 1,
        r@.payload == Seq::<u8>::empty(),
        r@.groups.len() == 1,
        r@.groups[0].tag == DelimiterTag::OperationAttributes,
        match printer_uri {
            None => r@.groups[0].attrs == spec_request_header_attrs(),
            Some(u) => r@.groups[0].attrs == spec_request_header_attrs().push(
                AttrModel { name: "printer-uri"@, value: ValueModel::Uri(u@) },
            ),
        },
{
    let mut msg = IppMessage::new(IppVersion { major: 1, minor: 1 }, op, 1);
    proof {
        reveal_strlit("attributes-charset");
        reveal_strlit("attributes-natural-language");
        reveal_strlit("printer-uri");
        reveal_strlit("utf-8");
        reveal_strlit("en");
        lemma_encode_len_bound("attributes-charset"@);
        lemma_encode_len_bound("attributes-natural-language"@);
        lemma_encode_len_bound("printer-uri"@);
        lemma_encode_len_bound("utf-8"@);
        lemma_encode_len_bound("en"@);
    }
    let charset_name = match IppString::new("attributes-charset") {
        Ok(n) => n,
        Err(_) => {
            proof {
                assert(false);
            }
            return msg;
        },
    };
    let charset_value = match IppCharset::new("utf-8") {
        Ok(v) => v,
        Err(_) => {
            proof {
                assert(false);
            }
            return msg;
        },
    };
    let lang_name = match IppString::new("attributes-natural-language") {
        Ok(n) => n,
        Err(_) => {
            proof {
                assert(false);
            }
            return msg;
        },
    };
    let lang_value = match IppLanguage::new("en") {
        Ok(v) => v,
        Err(_) => {
            proof {
                assert(false);
            }
            return msg;
        },
    };
    let ghost a1 = AttrModel { name: "attributes-charset"@, value: ValueModel::Charset("utf-8"@) };
    let ghost a2 = AttrModel {
        name: "attributes-natural-language"@,
        value: ValueModel::NaturalLanguage("en"@),
    };
    msg.attributes.add(
        DelimiterTag::OperationAttributes,
        IppAttribute::new(charset_name, IppValue::Charset(charset_value)),
    );
    proof {
        assert(msg.attributes@ =~= seq![
            GroupModel { tag: DelimiterTag::OperationAttributes, attrs: seq![a1] },
        ]);
    }
    msg.attributes.add(
        DelimiterTag::OperationAttributes,
        IppAttribute::new(lang_name, IppValue::NaturalLanguage(lang_value)),
    );
    proof {
        assert(a1.name != a2.name) by {
            reveal_strlit("attributes-charset");
            reveal_strlit("attributes-natural-language");
            assert("attributes-charset"@.len() != "attributes-natural-language"@.len());
        }
        assert(crate::attribute::spec_without_name(seq![a1], a2.name, 1)
            =~= Seq::<AttrModel>::empty());
        assert(crate::attribute::spec_without_name(seq![a1], a2.name, 0) =~= seq![a1]);
        assert(crate::attribute::spec_insert(seq![a1], a2) =~= seq![a1, a2]);
        assert(msg.attributes@ =~= seq![
            GroupModel { tag: DelimiterTag::OperationAttributes, attrs: seq![a1, a2] },
        ]);
        assert(seq![a1, a2] =~= spec_request_header_attrs());
    }
    match printer_uri {
        Some(u) => {
            let uri_name = match IppString::new("printer-uri") {
                Ok(n) => n,
                Err(_) => {
                    proof {
                        assert(false);
                    }
                    return msg;
                },
            };
            let ghost a3 = AttrModel { name: "printer-uri"@, value: ValueModel::Uri(u@) };
            msg.attributes.add(
                DelimiterTag::OperationAttributes,
                IppAttribute::new(uri_name, IppValue::Uri(u)),
            );
            proof {
                assert(a1.name != a3.name) by {
                    reveal_strlit("attributes-charset");
                    reveal_strlit("printer-uri");
                    assert("attributes-charset"@.len() != "printer-uri"@.len());
                }
                assert(a2.name != a3.name) by {
                    reveal_strlit("attributes-natural-language");
                    reveal_strlit("printer-uri");
                    assert("attributes-natural-language"@.len() != "printer-uri"@.len());
                }
                assert(crate::attribute::spec_without_name(seq![a1, a2], a3.name, 2)
                    =~= Seq::<AttrModel>::empty());
                assert(crate::attribute::spec_without_name(seq![a1, a2], a3.name, 1) =~= seq![
                    a2,
                ]);
                assert(crate::attribute::spec_without_name(seq![a1, a2], a3.name, 0) =~= seq![
                    a1,
                    a2,
                ]);
                assert(crate::attribute::spec_insert(seq![a1, a2], a3) =~= seq![a1, a2, a3]);
                assert(msg.attributes@ =~= seq![
                    GroupModel {
                        tag: DelimiterTag::OperationAttributes,
                        attrs: seq![a1, a2, a3],
                    },
                ]);
                assert(seq![a1, a2, a3] =~= spec_request_header_attrs().push(a3));
            }
        },
        None => {},
    }
    msg
}

/// The CUPS-Get-Printers operation.
#[derive(Debug, Default)]
pub struct CupsGetPrinters;

impl CupsGetPrinters {
    /// Create the CUPS-Get-Printers operation.
    pub fn new() -> (r: CupsGetPrinters) {
        CupsGetPrinters
    }

    /// Build the request: version 1.1, the CUPS-Get-Printers operation
    /// code, request id 1 and the two leading operation attributes.
    pub fn into_ipp_request(self) -> (r: IppMessage)
        ensures
            r@.version == spec_request_version(),
            r@.op_or_status == 0x4002,
            r@.request_id == 1,
            r@.payload == Seq::<u8>::empty(),
            r@.groups.len() == 1,
            r@.groups[0].tag == DelimiterTag::OperationAttributes,
            r@.groups[0].attrs == spec_request_header_attrs(),
    {
        base_request(0x4002, None)
    }
}

/// The CUPS-Delete-Printer operation, for the printer under the given
/// URI.
#[derive(Debug)]
pub struct CupsDeletePrinter {
    printer_uri: IppString,
}

impl View for CupsDeletePrinter {
    type V = Seq<char>;

    closed spec fn view(&self) -> Seq<char> {
        self.printer_uri@
    }
}

impl CupsDeletePrinter {
    /// Create the CUPS-Delete-Printer operation; the URI's string form
    /// must be at most 1023 bytes.
    pub fn new(printer_uri: http::Uri) -> (r: Result<CupsDeletePrinter, IppParseError>)
        ensures
            match r {
                Ok(c) => encode_utf8(c@).len() <= 1023,
                Err(e) => e is InvalidStringLength,
            },
    {
        let s = uri_to_string(&printer_uri);
        match IppString::new(s.as_str()) {
            Ok(u) => Ok(CupsDeletePrinter { printer_uri: u }),
            Err(e) => Err(e),
        }
    }

    /// Build the request: version 1.1, the CUPS-Delete-Printer operation
    /// code, request id 1, the two leading operation attributes and the
    /// printer URI.
    pub fn into_ipp_request(self) -> (r: IppMessage)
        ensures
            r@.version == spec_request_version(),
            r@.op_or_status == 0x4004,
            r@.request_id == 1,
            r@.payload == Seq::<u8>::empty(),
            r@.groups.len() == 1,
            r@.groups[0].tag == DelimiterTag::OperationAttributes,
            r@.groups[0].attrs == spec_request_header_attrs().push(
                AttrModel { name: "printer-uri"@, value: ValueModel::Uri(self@) },
            ),
    {
        let CupsDeletePrinter { printer_uri } = self;
        base_request(0x4004, Some(printer_uri))
    }
}


/// The requests built here are well-formed for the message round trip:
/// their one operation group has distinct, bounded attribute names in
/// header order, so serializing such a message and parsing the bytes
/// again yields it back (see [`crate::roundtrip::lemma_message_roundtrip`]).
pub proof fn lemma_request_wf(uri: Option<Seq<char>>)
    requires
        uri matches Some(u) ==> encode_utf8(u).len() <= 1023,
    ensures
        msg_wf(
            seq![
                GroupModel {
                    tag: DelimiterTag::OperationAttributes,
                    attrs: match uri {
                        None => spec_request_header_attrs(),
                        Some(u) => spec_request_header_attrs().push(
                            AttrModel { name: "printer-uri"@, value: ValueModel::Uri(u) },
                        ),
                    },
                },
            ],
        ),
{
    reveal_strlit("attributes-charset");
    reveal_strlit("attributes-natural-language");
    reveal_strlit("printer-uri");
    reveal_strlit("utf-8");
    reveal_strlit("en");
    lemma_encode_len_bound("attributes-charset"@);
    lemma_encode_len_bound("attributes-natural-language"@);
    lemma_encode_len_bound("printer-uri"@);
    lemma_encode_len_bound("utf-8"@);
    lemma_encode_len_bound("en"@);
    lemma_encode_len_min("attributes-charset"@);
    lemma_encode_len_min("attributes-natural-language"@);
    lemma_encode_len_min("printer-uri"@);
    let a1 = AttrModel { name: "attributes-charset"@, value: ValueModel::Charset("utf-8"@) };
    let a2 = AttrModel {
        name: "attributes-natural-language"@,
        value: ValueModel::NaturalLanguage("en"@),
    };
    assert(a1.name != a2.name);
    assert(attr_wf(a1));
    assert(attr_wf(a2));
    match uri {
        None => {
            let attrs = spec_request_header_attrs();
            assert(attrs =~= seq![a1, a2]);
            assert(attrs_wf(attrs, 2));
            assert(attrs_wf(attrs, 1));
            assert(attrs_wf(attrs, 0));
            lemma_two_header_attrs_canonical(attrs, a1, a2);
            let g = GroupModel { tag: DelimiterTag::OperationAttributes, attrs };
            assert(group_wf(g));
            assert(groups_wf(seq![g], 1));
            assert(groups_wf(seq![g], 0));
        },
        Some(u) => {
            let a3 = AttrModel { name: "printer-uri"@, value: ValueModel::Uri(u) };
            assert(a1.name != a3.name);
            assert(a2.name != a3.name);
            assert(attr_wf(a3));
            let attrs = spec_request_header_attrs().push(a3);
            assert(attrs =~= seq![a1, a2, a3]);
            assert(attrs_wf(attrs, 3));
            assert(attrs_wf(attrs, 2));
            assert(attrs_wf(attrs, 1));
            assert(attrs_wf(attrs, 0));
            lemma_three_header_attrs_canonical(attrs, a1, a2, a3);
            let g = GroupModel { tag: DelimiterTag::OperationAttributes, attrs };
            assert(group_wf(g));
            assert(groups_wf(seq![g], 1));
            assert(groups_wf(seq![g], 0));
        },
    }
}

/// A group of exactly the two leading header attributes serializes the
/// same under the header discipline as in insertion order.
proof fn lemma_two_header_attrs_canonical(attrs: Seq<AttrModel>, a1: AttrModel, a2: AttrModel)
    requires
        attrs == seq![a1, a2],
        a1.name == "attributes-charset"@,
        a2.name == "attributes-natural-language"@,
        a1.name != a2.name,
    ensures
        op_canonical(attrs),
{
    let cs = "attributes-charset"@;
    let nl = "attributes-natural-language"@;
    let pu = "printer-uri"@;
    reveal_strlit("attributes-charset");
    reveal_strlit("attributes-natural-language");
    reveal_strlit("printer-uri");
    assert(a1.name != pu) by {
        assert("attributes-charset"@.len() != "printer-uri"@.len());
    }
    assert(a2.name != pu) by {
        assert("attributes-natural-language"@.len() != "printer-uri"@.len());
    }
    assert(spec_named_bytes(attrs, cs, 2) =~= Seq::<u8>::empty());
    assert(spec_named_bytes(attrs, cs, 1) =~= Seq::<u8>::empty());
    assert(spec_named_bytes(attrs, cs, 0) =~= crate::attribute::spec_attr_bytes(a1));
    assert(spec_named_bytes(attrs, nl, 2) =~= Seq::<u8>::empty());
    assert(spec_named_bytes(attrs, nl, 1) =~= crate::attribute::spec_attr_bytes(a2));
    assert(spec_named_bytes(attrs, nl, 0) =~= crate::attribute::spec_attr_bytes(a2));
    assert(spec_named_bytes(attrs, pu, 2) =~= Seq::<u8>::empty());
    assert(spec_named_bytes(attrs, pu, 1) =~= Seq::<u8>::empty());
    assert(spec_named_bytes(attrs, pu, 0) =~= Seq::<u8>::empty());
    assert(spec_non_header_bytes(attrs, 2) =~= Seq::<u8>::empty());
    assert(spec_non_header_bytes(attrs, 1) =~= Seq::<u8>::empty());
    assert(spec_non_header_bytes(attrs, 0) =~= Seq::<u8>::empty());
    assert(spec_attrs_bytes(attrs, 2) =~= Seq::<u8>::empty());
    assert(spec_attrs_bytes(attrs, 1) =~= crate::attribute::spec_attr_bytes(a2));
    assert(spec_attrs_bytes(attrs, 0) =~= crate::attribute::spec_attr_bytes(a1)
        + crate::attribute::spec_attr_bytes(a2));
    assert(crate::attribute::spec_op_group_bytes(attrs) =~= spec_attrs_bytes(attrs, 0));
}

/// A group of the two leading header attributes and the printer URI
/// serializes the same under the header discipline as in insertion
/// order.
proof fn lemma_three_header_attrs_canonical(
    attrs: Seq<AttrModel>,
    a1: AttrModel,
    a2: AttrModel,
    a3: AttrModel,
)
    requires
        attrs == seq![a1, a2, a3],
        a1.name == "attributes-charset"@,
        a2.name == "attributes-natural-language"@,
        a3.name == "printer-uri"@,
        a1.name != a2.name,
        a1.name != a3.name,
        a2.name != a3.name,
    ensures
        op_canonical(attrs),
{
    let cs = "attributes-charset"@;
    let nl = "attributes-natural-language"@;
    let pu = "printer-uri"@;
    assert(spec_named_bytes(attrs, cs, 3) =~= Seq::<u8>::empty());
    assert(spec_named_bytes(attrs, cs, 2) =~= Seq::<u8>::empty());
    assert(spec_named_bytes(attrs, cs, 1) =~= Seq::<u8>::empty());
    assert(spec_named_bytes(attrs, cs, 0) =~= crate::attribute::spec_attr_bytes(a1));
    assert(spec_named_bytes(attrs, nl, 3) =~= Seq::<u8>::empty());
    assert(spec_named_bytes(attrs, nl, 2) =~= Seq::<u8>::empty());
    assert(spec_named_bytes(attrs, nl, 1) =~= crate::attribute::spec_attr_bytes(a2));
    assert(spec_named_bytes(attrs, nl, 0) =~= crate::attribute::spec_attr_bytes(a2));
    assert(spec_named_bytes(attrs, pu, 3) =~= Seq::<u8>::empty());
    assert(spec_named_bytes(attrs, pu, 2) =~= crate::attribute::spec_attr_bytes(a3));
    assert(spec_named_bytes(attrs, pu, 1) =~= crate::attribute::spec_attr_bytes(a3));
    assert(spec_named_bytes(attrs, pu, 0) =~= crate::attribute::spec_attr_bytes(a3));
    assert(spec_non_header_bytes(attrs, 3) =~= Seq::<u8>::empty());
    assert(spec_non_header_bytes(attrs, 2) =~= Seq::<u8>::empty());
    assert(spec_non_header_bytes(attrs, 1) =~= Seq::<u8>::empty());
    assert(spec_non_header_bytes(attrs, 0) =~= Seq::<u8>::empty());
    assert(spec_attrs_bytes(attrs, 3) =~= Seq::<u8>::empty());
    assert(spec_attrs_bytes(attrs, 2) =~= crate::attribute::spec_attr_bytes(a3));
    assert(spec_attrs_bytes(attrs, 1) =~= crate::attribute::spec_attr_bytes(a2)
        + crate::attribute::spec_attr_bytes(a3));
    assert(spec_attrs_bytes(attrs, 0) =~= crate::attribute::spec_attr_bytes(a1)
        + crate::attribute::spec_attr_bytes(a2) + crate::attribute::spec_attr_bytes(a3));
    assert(crate::attribute::spec_op_group_bytes(attrs) =~= spec_attrs_bytes(attrs, 0));
}

} // verus!
