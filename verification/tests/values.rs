use ipp::error::IppParseError;
use ipp::text::{BoundedString, IppTextValue};
use ipp::value::{CollectionMember, IppValue};

fn value_check(value: IppValue) {
    let b = value.to_bytes();
    assert_eq!(IppValue::parse(value.to_tag(), &b[2..]).unwrap(), value);
}

#[test]
fn test_value_single() {
    value_check(IppValue::Integer(1234));
    value_check(IppValue::Enum(4321));
    value_check(IppValue::OctetString(
        IppTextValue::new("octet-string").expect("failed to create IPP text value"),
    ));
    value_check(IppValue::TextWithoutLanguage(
        IppTextValue::new("text-without").expect("failed to create IPP text value"),
    ));
    value_check(IppValue::NameWithoutLanguage(
        BoundedString::<255>::new("name-without").expect("failed to create IPP text value"),
    ));
    value_check(IppValue::TextWithLanguage {
        language: BoundedString::<63>::new("en").expect("failed to create IPP text value"),
        text: IppTextValue::new("text-with").expect("failed to create IPP text value"),
    });
    value_check(IppValue::NameWithLanguage {
        language: BoundedString::<63>::new("en").expect("failed to create IPP text value"),
        name: BoundedString::<255>::new("name-with").expect("failed to create IPP text value"),
    });
    value_check(IppValue::Charset(
        BoundedString::<63>::new("charset").expect("failed to create IPP text value"),
    ));
    value_check(IppValue::NaturalLanguage(
        BoundedString::<63>::new("natural").expect("failed to create IPP text value"),
    ));
    value_check(IppValue::Uri(
        BoundedString::<1023>::new("uri").expect("failed to create IPP text value"),
    ));
    value_check(IppValue::UriScheme(
        BoundedString::<1023>::new("urischeme").expect("failed to create IPP text value"),
    ));
    value_check(IppValue::RangeOfInteger { min: -12, max: 45 });
    value_check(IppValue::Boolean(true));
    value_check(IppValue::Boolean(false));
    value_check(IppValue::Keyword(
        BoundedString::<255>::new("keyword").expect("failed to create IPP text value"),
    ));
    value_check(IppValue::MimeMediaType(
        BoundedString::<255>::new("mime").expect("failed to create IPP text value"),
    ));
    value_check(IppValue::DateTime {
        year: 2020,
        month: 2,
        day: 13,
        hour: 12,
        minutes: 34,
        seconds: 22,
        deci_seconds: 1,
        utc_dir: 'c',
        utc_hours: 1,
        utc_mins: 30,
    });
    value_check(IppValue::MemberAttrName(
        BoundedString::<255>::new("member").expect("failed to create IPP text value"),
    ));
    value_check(IppValue::Resolution {
        cross_feed: 800,
        feed: 600,
        units: 2,
    });
    value_check(IppValue::NoValue);
    value_check(IppValue::Other {
        tag: 123,
        data: b"foo".to_vec(),
    });
}

#[test]
fn test_value_iterator_single() {
    let val = IppValue::Integer(1234);

    let mut it = val.iter();
    while let Some(v) = it.next() {
        assert_eq!(*v, val);
    }
}

#[test]
fn test_value_iterator_multiple() {
    let list = vec![IppValue::Integer(1234), IppValue::Integer(5678)];
    let val = IppValue::Array(list.clone());

    let mut it = val.iter();
    let mut i = 0;
    while let Some(v) = it.next() {
        assert_eq!(*v, list[i]);
        i += 1;
    }
    assert_eq!(i, 2);
}

#[test]
fn test_boolean_bytes() {
    assert_eq!(IppValue::Boolean(true).to_bytes(), vec![0x00, 0x01, 0x01]);
    assert_eq!(IppValue::Boolean(false).to_bytes(), vec![0x00, 0x01, 0x00]);
}

#[test]
fn test_bounded_string_rejection() {
    let input = "a".repeat(64);
    let r = BoundedString::<63>::new(&input);
    assert_eq!(r, Err(IppParseError::InvalidStringLength { len: 64, max: 63 }));
}

#[test]
fn test_bounded_string_expand_shrink() {
    let s = BoundedString::<63>::new("utf-8").unwrap();
    assert_eq!(s.len(), 5);
    assert!(!s.is_empty());
    assert_eq!(BoundedString::<63>::max(), 63);
    let wide: BoundedString<1023> = s.expand();
    assert_eq!(wide.as_str(), "utf-8");
    let narrow: BoundedString<15> = wide.shrink().unwrap();
    assert_eq!(narrow.into_inner(), "utf-8");
    let long = BoundedString::<1023>::new(&"b".repeat(100)).unwrap();
    let r: Result<BoundedString<63>, IppParseError> = long.shrink();
    assert_eq!(r, Err(IppParseError::InvalidStringLength { len: 100, max: 63 }));
}

#[test]
fn test_text_value_tiers() {
    assert!(matches!(IppTextValue::new("short"), Ok(IppTextValue::Short(_))));
    assert!(matches!(
        IppTextValue::new(&"m".repeat(200)),
        Ok(IppTextValue::Medium(_))
    ));
    assert!(matches!(
        IppTextValue::new(&"l".repeat(600)),
        Ok(IppTextValue::Long(_))
    ));
    assert_eq!(
        IppTextValue::new(&"x".repeat(1024)),
        Err(IppParseError::InvalidStringLength { len: 1024, max: 1023 })
    );
    let t = IppTextValue::new("abc").unwrap();
    assert_eq!(t.len(), 3);
    assert!(!t.is_empty());
    assert_eq!(t.as_str(), "abc");
}

#[test]
fn test_parse_lossy_replacement() {
    // invalid UTF-8 is decoded with the replacement character
    let v = IppValue::parse(0x44, &[0xFF]).unwrap();
    assert_eq!(
        v,
        IppValue::Keyword(BoundedString::<255>::new("\u{FFFD}").unwrap())
    );
}

#[test]
fn test_parse_truncated_integer() {
    let r = IppValue::parse(0x21, &[0x00, 0x01]);
    assert_eq!(r, Err(IppParseError::Truncated { needed: 4, available: 2 }));
}

#[test]
fn test_value_from_str() {
    assert_eq!("true".parse::<IppValue>().unwrap(), IppValue::Boolean(true));
    assert_eq!("false".parse::<IppValue>().unwrap(), IppValue::Boolean(false));
    assert_eq!("123".parse::<IppValue>().unwrap(), IppValue::Integer(123));
    assert_eq!("-42".parse::<IppValue>().unwrap(), IppValue::Integer(-42));
    assert_eq!(
        "draft".parse::<IppValue>().unwrap(),
        IppValue::Keyword(BoundedString::<255>::new("draft").unwrap())
    );
    assert_eq!(
        "k".repeat(300).parse::<IppValue>(),
        Err(IppParseError::InvalidStringLength { len: 300, max: 255 })
    );
}

#[test]
fn test_value_accessors() {
    let arr = IppValue::Array(vec![IppValue::Integer(1), IppValue::Integer(2)]);
    assert_eq!(
        arr.as_array(),
        Some(&vec![IppValue::Integer(1), IppValue::Integer(2)])
    );
    assert_eq!(arr.as_integer(), None);
    assert_eq!(IppValue::Integer(7).as_integer(), Some(7));
    assert_eq!(IppValue::Boolean(true).as_boolean(), Some(true));
    let coll = IppValue::Collection(vec![CollectionMember {
        name: BoundedString::<255>::new("abcd").unwrap(),
        value: IppValue::Integer(1),
    }]);
    assert!(coll.as_collection().is_some());
    let mut it = coll.iter();
    assert_eq!(it.next(), Some(&IppValue::Integer(1)));
    assert_eq!(it.next(), None);
}
