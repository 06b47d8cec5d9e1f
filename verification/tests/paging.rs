use microcosm::error::Error;
use microcosm::math::{parse_decimal, parse_u128, render_u128, Range, RangeMsg};
use microcosm::msg::{MetaMsg, MetadataMsg};
use microcosm::page::{PageLimits, PageMsg, PageQuery};
use microcosm::utility::Validate;

#[test]
fn start_index_places_the_page() {
    let limits = PageLimits::new(10, 30, 100);
    assert_eq!(limits.start_index(PageQuery { index: 0, limit: None }), Ok(0));
    assert_eq!(limits.start_index(PageQuery { index: 3, limit: Some(20) }), Ok(60));
    // a page size over the maximum is rejected
    assert_eq!(
        limits.start_index(PageQuery { index: 0, limit: Some(31) }),
        Err(Error::Input {})
    );
    // a start at or past the item count is rejected
    assert_eq!(
        limits.start_index(PageQuery { index: 10, limit: Some(10) }),
        Err(Error::Input {})
    );
}

#[test]
fn end_index_clamps_to_the_items() {
    let limits = PageLimits::new(10, 30, 100);
    // the end is the page number times one more than the page size
    assert_eq!(limits.end_index(PageQuery { index: 3, limit: Some(20) }), Ok(63));
    assert_eq!(limits.end_index(PageQuery { index: 9, limit: Some(30) }), Ok(100));
    assert_eq!(
        limits.end_index(PageQuery { index: 0, limit: Some(31) }),
        Err(Error::Input {})
    );
}

#[test]
fn page_info_builds_page_and_range() {
    let limits = PageLimits::new(10, 30, 100);
    let (page, range) = limits.page_info(Some(PageQuery { index: 2, limit: Some(20) })).unwrap();
    assert_eq!(page, PageMsg { index: 2, end: 60 });
    assert_eq!(range, Range::new(40, 60));

    // no query means the first page at the default size
    let (page, range) = limits.page_info(None).unwrap();
    assert_eq!(page, PageMsg { index: 0, end: 10 });
    assert_eq!(range, Range::new(0, 10));

    // the end clamps to the item count
    let (page, range) = limits.page_info(Some(PageQuery { index: 4, limit: Some(25) })).unwrap();
    assert_eq!(page, PageMsg { index: 4, end: 100 });
    assert_eq!(range, Range::new(100, 100));
}

#[test]
fn page_info_rejects_bad_sizes() {
    let limits = PageLimits::new(10, 30, 100);
    assert_eq!(
        limits.page_info(Some(PageQuery { index: 0, limit: Some(0) })),
        Err(Error::Input {})
    );
    assert_eq!(
        limits.page_info(Some(PageQuery { index: 0, limit: Some(31) })),
        Err(Error::Input {})
    );
    // a start past the item count is rejected
    assert_eq!(
        limits.page_info(Some(PageQuery { index: 11, limit: Some(10) })),
        Err(Error::Input {})
    );
    // a page so far out that placing it overflows is a generic error
    let far = limits.page_info(Some(PageQuery { index: u128::MAX, limit: Some(2) }));
    assert!(matches!(far, Err(Error::Generic { .. })));
}

#[test]
fn parse_u128_reads_decimals() {
    assert_eq!(parse_u128("0"), Some(0));
    assert_eq!(parse_u128("123"), Some(123));
    assert_eq!(
        parse_u128("340282366920938463463374607431768211455"),
        Some(u128::MAX)
    );
    assert_eq!(parse_u128("340282366920938463463374607431768211456"), None);
    assert_eq!(parse_u128(""), None);
    assert_eq!(parse_u128("12a"), None);
    assert_eq!(parse_u128("-3"), None);
}

#[test]
fn parse_decimal_follows_the_host_parse() {
    let accepted = [
        "0",
        "+1",
        "123",
        "+000",
        "340282366920938463463374607431768211455",
    ];
    for s in accepted {
        assert_eq!(parse_decimal(s).unwrap(), s.parse::<u128>().unwrap());
    }
    let rejected = [
        "",
        "+",
        "-",
        "-1",
        "12a",
        "++1",
        "340282366920938463463374607431768211456",
    ];
    for s in rejected {
        assert_eq!(
            parse_decimal(s).unwrap_err(),
            s.parse::<u128>().unwrap_err().to_string()
        );
    }
}

#[test]
fn render_u128_writes_decimals() {
    assert_eq!(render_u128(0), "0");
    assert_eq!(render_u128(1005), "1005");
    assert_eq!(
        render_u128(u128::MAX),
        "340282366920938463463374607431768211455"
    );
}

#[test]
fn range_messages_validate() {
    let msg = RangeMsg { low: "5".to_string(), high: "10".to_string() };
    let range: Range<u128> = msg.validate().unwrap();
    assert_eq!(range, Range::new(5, 10));

    // an optional leading plus sign parses, as the host integer parse has it
    let signed = RangeMsg { low: "+1".to_string(), high: "1".to_string() };
    let range: Range<u128> = signed.validate().unwrap();
    assert_eq!(range, Range::new(1, 1));

    // a rejected endpoint is wrapped into the generic error, with the
    // parse's own report
    let bad = RangeMsg { low: "five".to_string(), high: "10".to_string() };
    let err: Result<Range<u128>, Error> = bad.validate();
    assert_eq!(err, Err(Error::Generic { msg: "invalid digit found in string".to_string() }));

    // the high endpoint is read first
    let both_bad = RangeMsg { low: "five".to_string(), high: "".to_string() };
    let err: Result<Range<u128>, Error> = both_bad.validate();
    assert_eq!(
        err,
        Err(Error::Generic { msg: "cannot parse integer from empty string".to_string() })
    );

    let big = RangeMsg {
        low: "0".to_string(),
        high: "340282366920938463463374607431768211456".to_string(),
    };
    let err: Result<Range<u128>, Error> = big.validate();
    assert_eq!(
        err,
        Err(Error::Generic { msg: "number too large to fit in target type".to_string() })
    );

    assert_eq!(
        Range::new(5u128, 10u128).to_msg(),
        RangeMsg { low: "5".to_string(), high: "10".to_string() }
    );
}

#[test]
fn metadata_carries_the_page() {
    let mut meta = MetadataMsg::default();
    assert!(meta.page.is_none());
    meta.add_page(1, 20);
    assert_eq!(meta.page, Some(PageMsg { index: 1, end: 20 }));

    let mut msg = MetaMsg::new("payload");
    assert!(msg.meta.page.is_none());
    assert_eq!(msg.data, "payload");
    msg.add_metadata_page(2, 40);
    assert_eq!(msg.meta.page, Some(PageMsg { index: 2, end: 40 }));
}
