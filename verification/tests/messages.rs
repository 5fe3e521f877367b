use ipp::attribute::{is_header_attr, IppAttribute, IppAttributeGroup, IppAttributes};
use ipp::error::IppParseError;
use ipp::message::{parse_message, IppMessage, IppVersion};
use ipp::tags::{DelimiterTag, ValueTag};
use ipp::text::BoundedString;
use ipp::value::{CollectionMember, IppValue};

#[test]
fn test_array() {
    let attr = IppAttribute::new(
        BoundedString::<1023>::new("list").unwrap(),
        IppValue::Array(vec![
            IppValue::Integer(0x1111_1111),
            IppValue::Integer(0x2222_2222),
        ]),
    );
    let buf = attr.to_bytes().unwrap();

    assert_eq!(
        buf,
        vec![
            0x21, 0, 4, b'l', b'i', b's', b't', 0, 4, 0x11, 0x11, 0x11, 0x11, 0x21, 0, 0, 0, 4,
            0x22, 0x22, 0x22, 0x22
        ],
    );

    let mut data = vec![1, 1, 0, 0, 0, 0, 0, 0, 4];
    data.extend(buf);
    data.push(3);

    let result = parse_message(&data);
    assert!(result.is_ok());

    let res = result.ok().unwrap();
    let groups = res.attributes.groups_of(DelimiterTag::PrinterAttributes);
    let attrs = groups[0].attributes();
    let attr = attrs.iter().find(|a| a.name() == "list").unwrap();
    assert_eq!(
        attr.value().as_array(),
        Some(&vec![
            IppValue::Integer(0x1111_1111),
            IppValue::Integer(0x2222_2222)
        ])
    );
}

#[test]
fn test_collection() {
    let attr = IppAttribute::new(
        BoundedString::<1023>::new("coll").unwrap(),
        IppValue::Collection(vec![CollectionMember {
            name: BoundedString::<255>::new("abcd").unwrap(),
            value: IppValue::Integer(0x2222_2222),
        }]),
    );
    let buf = attr.to_bytes().unwrap();

    assert_eq!(
        vec![
            0x34, 0, 4, b'c', b'o', b'l', b'l', 0, 0, 0x4a, 0, 0, 0, 4, b'a', b'b', b'c', b'd',
            0x21, 0, 0, 0, 4, 0x22, 0x22, 0x22, 0x22, 0x37, 0, 0, 0, 0,
        ],
        buf
    );

    let mut data = vec![1, 1, 0, 0, 0, 0, 0, 0, 4];
    data.extend(buf);
    data.push(3);

    let result = parse_message(&data);
    assert!(result.is_ok());

    let res = result.ok().unwrap();
    let groups = res.attributes.groups_of(DelimiterTag::PrinterAttributes);
    let attrs = groups[0].attributes();
    let attr = attrs.iter().find(|a| a.name() == "coll").unwrap();
    assert_eq!(
        attr.value(),
        &IppValue::Collection(vec![CollectionMember {
            name: BoundedString::<255>::new("abcd").unwrap(),
            value: IppValue::Integer(0x2222_2222),
        }])
    );
}

#[test]
fn test_integer_attribute_bytes() {
    let attr = IppAttribute::new(
        BoundedString::<1023>::new("copies").unwrap(),
        IppValue::Integer(1),
    );
    assert_eq!(
        attr.to_bytes().unwrap(),
        vec![0x21, 0, 6, b'c', b'o', b'p', b'i', b'e', b's', 0, 4, 0, 0, 0, 1],
    );
}

#[test]
fn test_empty_message_bytes() {
    let msg = IppMessage::new(IppVersion { major: 1, minor: 1 }, 0x0002, 4);
    assert_eq!(
        msg.to_bytes(),
        vec![0x01, 0x01, 0x00, 0x02, 0x00, 0x00, 0x00, 0x04, 0x03],
    );
}

#[test]
fn test_message_roundtrip() {
    let mut msg = IppMessage::new(IppVersion { major: 2, minor: 0 }, 0x000B, 77);
    msg.attributes.add(
        DelimiterTag::OperationAttributes,
        IppAttribute::new(
            BoundedString::<1023>::new("attributes-charset").unwrap(),
            IppValue::Charset(BoundedString::<63>::new("utf-8").unwrap()),
        ),
    );
    msg.attributes.add(
        DelimiterTag::OperationAttributes,
        IppAttribute::new(
            BoundedString::<1023>::new("attributes-natural-language").unwrap(),
            IppValue::NaturalLanguage(BoundedString::<63>::new("en").unwrap()),
        ),
    );
    msg.attributes.add(
        DelimiterTag::PrinterAttributes,
        IppAttribute::new(
            BoundedString::<1023>::new("printer-name").unwrap(),
            IppValue::NameWithoutLanguage(BoundedString::<255>::new("office").unwrap()),
        ),
    );
    msg.payload = b"document-data".to_vec();

    let bytes = msg.to_bytes();
    let back = parse_message(&bytes).unwrap();
    assert_eq!(back.version, IppVersion { major: 2, minor: 0 });
    assert_eq!(back.op_or_status, 0x000B);
    assert_eq!(back.request_id, 77);
    assert_eq!(back.payload, b"document-data".to_vec());
    let groups = back.attributes.groups();
    assert_eq!(groups.len(), 2);
    assert_eq!(groups[0].tag(), DelimiterTag::OperationAttributes);
    assert_eq!(groups[0].attributes().len(), 2);
    assert_eq!(groups[1].tag(), DelimiterTag::PrinterAttributes);
    let printer = groups[1].get("printer-name").unwrap();
    assert_eq!(
        printer.value(),
        &IppValue::NameWithoutLanguage(BoundedString::<255>::new("office").unwrap())
    );
}

#[test]
fn test_multiple_operation_groups() {
    // several groups may share a delimiter tag; every one reaches the wire
    let mut g1 = IppAttributeGroup::new(DelimiterTag::OperationAttributes);
    g1.insert(IppAttribute::new(
        BoundedString::<1023>::new("job-name").unwrap(),
        IppValue::NameWithoutLanguage(BoundedString::<255>::new("first").unwrap()),
    ));
    let mut g2 = IppAttributeGroup::new(DelimiterTag::OperationAttributes);
    g2.insert(IppAttribute::new(
        BoundedString::<1023>::new("job-name").unwrap(),
        IppValue::NameWithoutLanguage(BoundedString::<255>::new("second").unwrap()),
    ));
    let mut msg = IppMessage::new(IppVersion { major: 1, minor: 1 }, 0x000B, 5);
    msg.attributes = IppAttributes::from_groups(vec![g1, g2]);
    let bytes = msg.to_bytes();
    let back = parse_message(&bytes).unwrap();
    let groups = back.attributes.groups();
    assert_eq!(groups.len(), 2);
    assert_eq!(groups[0].tag(), DelimiterTag::OperationAttributes);
    assert_eq!(groups[1].tag(), DelimiterTag::OperationAttributes);
    assert_eq!(
        groups[0].get("job-name").unwrap().value(),
        &IppValue::NameWithoutLanguage(BoundedString::<255>::new("first").unwrap())
    );
    assert_eq!(
        groups[1].get("job-name").unwrap().value(),
        &IppValue::NameWithoutLanguage(BoundedString::<255>::new("second").unwrap())
    );
}

#[test]
fn test_header_attrs_emitted_first() {
    // insertion order deliberately puts the headers last
    let mut msg = IppMessage::new(IppVersion { major: 1, minor: 1 }, 0x0002, 1);
    msg.attributes.add(
        DelimiterTag::OperationAttributes,
        IppAttribute::new(
            BoundedString::<1023>::new("requesting-user-name").unwrap(),
            IppValue::NameWithoutLanguage(BoundedString::<255>::new("someone").unwrap()),
        ),
    );
    msg.attributes.add(
        DelimiterTag::OperationAttributes,
        IppAttribute::new(
            BoundedString::<1023>::new("attributes-natural-language").unwrap(),
            IppValue::NaturalLanguage(BoundedString::<63>::new("en").unwrap()),
        ),
    );
    msg.attributes.add(
        DelimiterTag::OperationAttributes,
        IppAttribute::new(
            BoundedString::<1023>::new("attributes-charset").unwrap(),
            IppValue::Charset(BoundedString::<63>::new("utf-8").unwrap()),
        ),
    );
    let bytes = msg.to_bytes();
    // after the 8-byte header and the group delimiter the charset record
    // comes first, then the natural language
    assert_eq!(bytes[8], 0x01);
    assert_eq!(bytes[9], ValueTag::Charset.as_u8());
    let name1 = &bytes[12..12 + 18];
    assert_eq!(name1, b"attributes-charset");
    let nl_start = 12 + 18 + 2 + 5;
    assert_eq!(bytes[nl_start], ValueTag::NaturalLanguage.as_u8());
}

#[test]
fn test_is_header_attr() {
    assert!(is_header_attr("attributes-charset"));
    assert!(is_header_attr("attributes-natural-language"));
    assert!(is_header_attr("printer-uri"));
    assert!(!is_header_attr("copies"));
}

#[test]
fn test_group_insert_replaces() {
    let mut group = IppAttributeGroup::new(DelimiterTag::JobAttributes);
    group.insert(IppAttribute::new(
        BoundedString::<1023>::new("copies").unwrap(),
        IppValue::Integer(1),
    ));
    group.insert(IppAttribute::new(
        BoundedString::<1023>::new("copies").unwrap(),
        IppValue::Integer(2),
    ));
    assert_eq!(group.attributes().len(), 1);
    assert_eq!(
        group.get("copies").unwrap().value(),
        &IppValue::Integer(2)
    );
    assert_eq!(group.tag(), DelimiterTag::JobAttributes);
}

#[test]
fn test_attributes_list_accessors() {
    let mut attrs = IppAttributes::new();
    attrs.add(
        DelimiterTag::JobAttributes,
        IppAttribute::new(
            BoundedString::<1023>::new("job-id").unwrap(),
            IppValue::Integer(9),
        ),
    );
    assert_eq!(attrs.groups().len(), 1);
    let jobs = attrs.groups_of(DelimiterTag::JobAttributes);
    assert_eq!(jobs.len(), 1);
    let a = jobs[0].get("job-id").unwrap();
    assert_eq!(a.clone().into_value(), IppValue::Integer(9));
    let groups = attrs.into_groups();
    let inner = groups.into_iter().next().unwrap().into_attributes();
    assert_eq!(inner.len(), 1);
}

#[test]
fn test_parse_invalid_delimiter() {
    let data = vec![1, 1, 0, 0, 0, 0, 0, 0, 0x0B, 3];
    assert_eq!(
        parse_message(&data),
        Err(IppParseError::InvalidDelimiterTag(0x0B))
    );
}

#[test]
fn test_parse_unexpected_continuation() {
    // a zero-named integer record with no predecessor
    let data = vec![
        1, 1, 0, 0, 0, 0, 0, 0, 4, 0x21, 0, 0, 0, 4, 0, 0, 0, 1, 3,
    ];
    assert_eq!(
        parse_message(&data),
        Err(IppParseError::UnexpectedContinuation)
    );
}

#[test]
fn test_parse_unterminated_collection() {
    let data = vec![
        1, 1, 0, 0, 0, 0, 0, 0, 4, 0x34, 0, 1, b'c', 0, 0,
    ];
    assert_eq!(
        parse_message(&data),
        Err(IppParseError::UnterminatedCollection)
    );
}

#[test]
fn test_parse_invalid_tag_in_collection() {
    // a delimiter byte where a member record is expected
    let data = vec![
        1, 1, 0, 0, 0, 0, 0, 0, 4, 0x34, 0, 1, b'c', 0, 0, 0x02, 0, 0, 0, 0, 3,
    ];
    assert_eq!(parse_message(&data), Err(IppParseError::InvalidTag(0x02)));
}

#[test]
fn test_parse_truncated_header() {
    let data = vec![1, 1, 0];
    assert_eq!(
        parse_message(&data),
        Err(IppParseError::Truncated { needed: 8, available: 3 })
    );
}

#[test]
fn test_cups_get_printers() {
    let msg = ipp::cups::CupsGetPrinters::new().into_ipp_request();
    assert_eq!(msg.version, IppVersion { major: 1, minor: 1 });
    assert_eq!(msg.op_or_status, 0x4002);
    assert_eq!(msg.request_id, 1);
    let groups = msg.attributes.groups();
    assert_eq!(groups.len(), 1);
    let charset = groups[0].get("attributes-charset").unwrap();
    assert_eq!(
        charset.value(),
        &IppValue::Charset(BoundedString::<63>::new("utf-8").unwrap())
    );
}

#[test]
fn test_cups_delete_printer() {
    let uri: http::Uri = "ipp://host/printers/office".parse().unwrap();
    let op = ipp::cups::CupsDeletePrinter::new(uri).unwrap();
    let msg = op.into_ipp_request();
    assert_eq!(msg.op_or_status, 0x4004);
    let groups = msg.attributes.groups();
    let target = groups[0].get("printer-uri").unwrap();
    assert_eq!(
        target.value(),
        &IppValue::Uri(BoundedString::<1023>::new("ipp://host/printers/office").unwrap())
    );
    let bytes = msg.to_bytes();
    let back = parse_message(&bytes).unwrap();
    assert_eq!(back.op_or_status, 0x4004);
}

#[test]
fn test_delimiter_and_value_tags() {
    assert_eq!(DelimiterTag::from_u8(0x04), Some(DelimiterTag::PrinterAttributes));
    assert_eq!(DelimiterTag::from_u8(0x0B), None);
    assert_eq!(DelimiterTag::PrinterAttributes.as_u8(), 0x04);
    assert_eq!(ValueTag::from_u8(0x21), Some(ValueTag::Integer));
    assert_eq!(ValueTag::from_u8(0x20), None);
    assert_eq!(ValueTag::MemberAttrName.as_u8(), 0x4A);
}
