use ipset::element::DataValue;
use ipset::error::Error;
use ipset::listing::{parse_list_output, AddOption, ListHeader, ListResult, NormalListResult};
use ipset::settype::DataKind;

#[test]
fn header_line_fields() {
    let h = ListHeader::from_str("family inet hashsize 1024 maxelem 65536").unwrap();
    assert!(!h.ipv6);
    assert_eq!(1024, h.hash_size);
    assert_eq!(65536, h.max_elem);
    assert_eq!(None, h.bucket_size);
    assert!(!h.counters && !h.comment && !h.skbinfo);
    assert_eq!(None, h.initval);
}

#[test]
fn header_line_as_listed() {
    let mut r = NormalListResult::new();
    let kinds = vec![DataKind::Ip];
    r.update_from_str(&kinds, "Header: family inet hashsize 1024 maxelem 65536").unwrap();
    assert!(!r.header.ipv6);
    assert_eq!(1024, r.header.hash_size);
    assert_eq!(65536, r.header.max_elem);
    assert_eq!(None, r.header.bucket_size);
}

#[test]
fn header_flags_and_optional_values() {
    let h = ListHeader::from_str(
        "family inet6 hashsize 64 maxelem 10 bucketsize 12 counters comment skbinfo initval 0x1f",
    )
    .unwrap();
    assert!(h.ipv6 && h.counters && h.comment && h.skbinfo);
    assert_eq!(Some(12), h.bucket_size);
    assert_eq!(Some(0x1f), h.initval);
    let h = ListHeader::from_str("initval 31").unwrap();
    assert_eq!(None, h.initval);
}

#[test]
fn header_refuses_unknown_or_incomplete() {
    match ListHeader::from_str("family") {
        Err(Error::InvalidOutput(m)) => assert_eq!("family", m),
        other => panic!("{:?}", other),
    }
    assert!(matches!(ListHeader::from_str("colour red"), Err(Error::InvalidOutput(_))));
    assert!(matches!(ListHeader::from_str("hashsize big"), Err(Error::InvalidOutput(_))));
}

#[test]
fn member_line_with_options() {
    let mut r = NormalListResult::new();
    let kinds = vec![DataKind::Ip];
    r.update_from_str(&kinds, "Members:").unwrap();
    r.update_from_str(&kinds, "192.168.3.1 timeout 10 comment hello").unwrap();
    let items = r.items.as_ref().unwrap();
    assert_eq!(1, items.len());
    let (data, opts) = &items[0];
    assert!(matches!(data.values[0], DataValue::Ip(_)));
    assert_eq!("192.168.3.1", data.to_string());
    let opts = opts.as_ref().unwrap();
    assert_eq!(2, opts.len());
    assert!(matches!(opts[0], AddOption::Timeout(10)));
    assert!(matches!(&opts[1], AddOption::Comment(c) if c == "hello"));
}

#[test]
fn member_line_extension_options() {
    let mut r = NormalListResult::new();
    let kinds = vec![DataKind::Net];
    r.update_from_str(&kinds, "Members:").unwrap();
    r.update_from_str(
        &kinds,
        "10.0.0.0/8 packets 5 bytes 12\0 skbmark 0x10/0xff skbprio 1:2 skbqueue 3 nomatch",
    )
    .unwrap();
    r.update_from_str(&kinds, "10.1.0.0/16 skbmark 0x7").unwrap();
    r.update_from_str(&kinds, "10.2.0.0/16").unwrap();
    let items = r.items.as_ref().unwrap();
    let opts = items[0].1.as_ref().unwrap();
    assert!(matches!(opts[0], AddOption::Packets(5)));
    assert!(matches!(opts[1], AddOption::Bytes(12)));
    assert!(matches!(opts[2], AddOption::SkbMark(0x10, 0xff)));
    assert!(matches!(opts[3], AddOption::SkbPrio(1, 2)));
    assert!(matches!(opts[4], AddOption::SkbQueue(3)));
    assert!(matches!(opts[5], AddOption::Nomatch));
    let opts = items[1].1.as_ref().unwrap();
    assert!(matches!(opts[0], AddOption::SkbMark(7, 0xffff_ffff)));
    assert!(items[2].1.is_none());
}

#[test]
fn member_line_errors_leave_listing() {
    let mut r = NormalListResult::new();
    let kinds = vec![DataKind::Ip];
    r.update_from_str(&kinds, "Members:").unwrap();
    for line in [
        "not-an-ip",
        "1.2.3.4 timeout",
        "1.2.3.4 colour red",
        "1.2.3.4 skbmark 10",
        "1.2.3.4 skbprio 1",
    ] {
        match r.update_from_str(&kinds, line) {
            Err(Error::InvalidOutput(m)) => assert_eq!(line, m),
            other => panic!("{}: {:?}", line, other),
        }
    }
    for line in ["1.2.3.4 timeout x", "1.2.3.4 packets -1", "1.2.3.4 skbmark 0xzz", "1.2.3.4 skbprio g:1"] {
        assert!(matches!(r.update_from_str(&kinds, line), Err(Error::ParseInt)), "{}", line);
    }
    assert_eq!(0, r.items.as_ref().unwrap().len());
}

#[test]
fn header_block_then_members() {
    let output = vec![
        "Name: test\nType: hash:ip\nRevision: 6\n".to_string(),
        "Header: family inet hashsize 1024 maxelem 65536\nSize in memory: 200\nReferences: 0\nNumber of entries: 2\nMembers:\n".to_string(),
        "192.168.3.1\n192.168.3.2\n\n".to_string(),
    ];
    let kinds = vec![DataKind::Ip];
    match parse_list_output(&output, false, &kinds).unwrap() {
        ListResult::Normal(r) => {
            assert_eq!("test", r.name);
            assert_eq!("hash:ip", r.typ);
            assert_eq!(6, r.revision);
            assert_eq!(200, r.size_in_memory);
            assert_eq!(0, r.references);
            assert_eq!(2, r.entry_size);
            let items = r.items.unwrap();
            assert_eq!(2, items.len());
            assert_eq!("192.168.3.2", items[1].0.to_string());
        }
        ListResult::Terse(_) => panic!("expected a full listing"),
    }
}

#[test]
fn flushed_set_lists_no_members() {
    let output = vec!["Name: test\nType: hash:ip\nMembers:\n".to_string()];
    let kinds = vec![DataKind::Ip];
    match parse_list_output(&output, false, &kinds).unwrap() {
        ListResult::Normal(r) => assert_eq!(0, r.items.unwrap().len()),
        ListResult::Terse(_) => panic!("expected a full listing"),
    }
}

#[test]
fn terse_listing_keeps_names_in_order() {
    let output = vec!["a\nb\n".to_string(), "\nb\n".to_string()];
    let kinds = vec![DataKind::Ip];
    match parse_list_output(&output, true, &kinds).unwrap() {
        ListResult::Terse(names) => assert_eq!(vec!["a", "b", "b"], names),
        ListResult::Normal(_) => panic!("expected names"),
    }
}

#[test]
fn unknown_header_key_is_invalid_output() {
    let output = vec!["Colour: red\n".to_string()];
    let kinds = vec![DataKind::Ip];
    assert!(matches!(parse_list_output(&output, false, &kinds), Err(Error::InvalidOutput(_))));
    let output = vec!["Name test\n".to_string()];
    assert!(matches!(parse_list_output(&output, false, &kinds), Err(Error::InvalidOutput(_))));
}

#[test]
fn header_number_fields_give_parse_errors() {
    let kinds = vec![DataKind::Ip];
    for line in ["Revision: x", "Size in memory: -3", "References: ", "Number of entries: 99999999999"] {
        let mut r = NormalListResult::new();
        assert!(matches!(r.update_from_str(&kinds, line), Err(Error::ParseInt)), "{}", line);
        assert!(r.items.is_none());
    }
    let mut r = NormalListResult::new();
    match r.update_from_str(&kinds, "Header: family inet bogus") {
        Err(Error::InvalidOutput(m)) => assert_eq!("family inet bogus", m),
        other => panic!("{:?}", other),
    }
    match r.update_from_str(&kinds, "Colour: red") {
        Err(Error::InvalidOutput(m)) => assert_eq!("Colour: red", m),
        other => panic!("{:?}", other),
    }
    r.update_from_str(&kinds, "Revision: +7").unwrap();
    assert_eq!(7, r.revision);
}

#[test]
fn list_error_is_that_of_the_first_failing_line() {
    let output = vec!["Name: t\nMembers:\n1.2.3.4 timeout x\nbad line\n".to_string()];
    let kinds = vec![DataKind::Ip];
    assert!(matches!(parse_list_output(&output, false, &kinds), Err(Error::ParseInt)));
    let output = vec!["Name: t\nMembers:\nbad line\n1.2.3.4 timeout x\n".to_string()];
    match parse_list_output(&output, false, &kinds) {
        Err(Error::InvalidOutput(m)) => assert_eq!("bad line", m),
        _ => panic!("expected the first line's error"),
    }
}
