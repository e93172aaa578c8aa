use ipset::data::{IpDataType, NetDataType, PortDataType};
use ipset::element::{DataValue, Element};
use ipset::error::Error;
use ipset::listing::{AddOption, ListResult};
use ipset::protocol::{
    add_outcome, del_outcome, name_outcome, option_setting_of, test_outcome, Command,
    CreateBuilder, EnvOption, Role, SessionCore, Setting, Step,
};
use ipset::settype::SetKind;

fn cmd(m: &str, fatal: bool) -> Result<(), Error> {
    Err(Error::Cmd(m.to_string(), fatal))
}

fn ip(a: [u8; 4]) -> Element {
    Element { values: vec![DataValue::Ip(IpDataType::IPv4(a))] }
}

#[test]
fn outcomes_of_test_add_del() {
    assert!(matches!(test_outcome(Ok(())), Ok(true)));
    assert!(matches!(test_outcome(cmd("1.2.3.4 is NOT in set test.", true)), Ok(false)));
    assert!(matches!(test_outcome(cmd("The set with the given name does not exist", true)), Err(Error::Cmd(_, true))));
    assert!(matches!(add_outcome(Ok(())), Ok(true)));
    assert!(matches!(
        add_outcome(cmd("Element cannot be added to the set: it's already added", true)),
        Ok(false)
    ));
    assert!(matches!(add_outcome(cmd(" is NOT in set ", true)), Err(_)));
    assert!(matches!(
        del_outcome(cmd("Element cannot be deleted from the set: it's not added", true)),
        Ok(false)
    ));
    assert!(matches!(del_outcome(Err(Error::TypeGet("x".to_string(), false))), Err(Error::TypeGet(_, false))));
}

#[test]
fn outcomes_of_whole_set_commands() {
    assert!(matches!(name_outcome(Ok(())), Ok(true)));
    assert!(matches!(name_outcome(cmd("warning", false)), Ok(false)));
    assert!(matches!(name_outcome(cmd("error", true)), Err(Error::Cmd(_, true))));
    assert!(matches!(name_outcome(Err(Error::DataSet("x".to_string(), false))), Err(Error::DataSet(_, false))));
}

#[test]
fn error_flags() {
    assert!(Error::Cmd("m".to_string(), true).is_error());
    assert!(!Error::Cmd("m".to_string(), false).is_error());
    assert!(Error::DataSet("m".to_string(), true).is_error());
    assert!(Error::TypeGet("m".to_string(), true).is_error());
    assert!(!Error::InvalidOutput("m".to_string()).is_error());
    assert!(!Error::SaveRestore("m".to_string()).is_error());
    assert!(!Error::AddrParse.is_error());
    assert!(!Error::ParseInt.is_error());
    assert!(!Error::Nul.is_error());
    assert!(!Error::CAOption("m".to_string()).is_error());
    assert!(!Error::DataParse("m".to_string()).is_error());
    assert!(Error::Cmd("abc is NOT in set x".to_string(), true).cmd_contains(" is NOT in set "));
    assert!(!Error::DataSet("abc is NOT in set x".to_string(), true).cmd_contains(" is NOT in set "));
}

#[test]
fn env_option_values() {
    assert_eq!(1, EnvOption::Sorted.to_option());
    assert_eq!(2, EnvOption::Quiet.to_option());
    assert_eq!(4, EnvOption::Resolve.to_option());
    assert_eq!(8, EnvOption::Exist.to_option());
    assert_eq!(16, EnvOption::ListSetName.to_option());
    assert_eq!(32, EnvOption::ListHeader.to_option());
}

#[test]
fn session_name_checks() {
    assert!(matches!(SessionCore::new("a\0b", SetKind::HashIp), Err(Error::Nul)));
    assert!(SessionCore::new("", SetKind::HashIp).is_ok());
    let s = SessionCore::new("t", SetKind::HashIp).unwrap();
    assert!(s.fits(&ip([1, 2, 3, 4])));
    assert!(!s.fits(&Element { values: vec![DataValue::Port(PortDataType { port: 1 })] }));
    let s = SessionCore::new("test", SetKind::HashIp).unwrap();
    assert_eq!("test", s.name());
    assert!(!s.list_name());
}

#[test]
fn list_name_mode_follows_options() {
    let mut s = SessionCore::new("test", SetKind::HashIp).unwrap();
    assert_eq!(16, s.set_option(EnvOption::ListSetName));
    assert!(s.list_name());
    s.unset_option(EnvOption::Sorted);
    assert!(s.list_name());
    s.unset_option(EnvOption::ListSetName);
    assert!(!s.list_name());
    let forced = s.begin_exists();
    assert!(forced && s.list_name());
    s.end_exists(forced);
    assert!(!s.list_name());
    s.set_option(EnvOption::ListSetName);
    let forced = s.begin_exists();
    assert!(!forced);
    s.end_exists(forced);
    assert!(s.list_name());
}

#[test]
fn add_plan_order() {
    let s = SessionCore::new("test", SetKind::HashIp).unwrap();
    let plan = s.add_plan(&ip([192, 168, 3, 1]), &vec![AddOption::Timeout(10), AddOption::Nomatch]);
    assert_eq!(7, plan.len());
    assert!(matches!(&plan[0], Step::Write(Setting::SetName(n)) if n == "test"));
    assert!(matches!(plan[1], Step::ResolveType(Command::Add)));
    assert!(matches!(plan[2], Step::Write(Setting::Family(false))));
    assert!(matches!(plan[3], Step::Write(Setting::Ip(Role::Exact, IpDataType::IPv4([192, 168, 3, 1])))));
    assert!(matches!(plan[4], Step::Write(Setting::Timeout(10))));
    assert!(matches!(plan[5], Step::Write(Setting::Nomatch)));
    assert!(matches!(plan[6], Step::Run(Command::Add)));
}

#[test]
fn test_and_del_plans() {
    let s = SessionCore::new("s", SetKind::HashNetPort).unwrap();
    let e = Element {
        values: vec![
            DataValue::Net(NetDataType::new(IpDataType::IPv4([10, 0, 0, 0]), 8)),
            DataValue::Port(PortDataType { port: 80 }),
        ],
    };
    let plan = s.test_plan(&e);
    assert_eq!(7, plan.len());
    assert!(matches!(plan[1], Step::ResolveType(Command::Test)));
    assert!(matches!(plan[4], Step::Write(Setting::Cidr(8))));
    assert!(matches!(plan[5], Step::Write(Setting::Port(Role::Exact, 80))));
    let plan = s.del_plan(&e);
    assert!(matches!(plan[6], Step::Run(Command::Del)));
    let plan = s.name_plan(Command::Flush);
    assert_eq!(2, plan.len());
    assert!(matches!(plan[1], Step::Run(Command::Flush)));
}

#[test]
fn packed_option_values() {
    assert!(matches!(option_setting_of(&AddOption::SkbMark(1, 2)), Setting::SkbMark(0x1_0000_0002)));
    assert!(matches!(option_setting_of(&AddOption::SkbPrio(3, 4)), Setting::SkbPrio(0x3_0004)));
    assert!(matches!(option_setting_of(&AddOption::Comment("hi".to_string())), Setting::Comment(c) if c == "hi"));
}

#[test]
fn create_plan_order() {
    let s = SessionCore::new("test", SetKind::HashIp).unwrap();
    let opts = CreateBuilder::new(SetKind::HashIp)
        .with_ipv6(false)
        .unwrap()
        .with_hash_size(1024)
        .unwrap()
        .build()
        .unwrap();
    let head = s.create_head_plan();
    assert_eq!(3, head.len());
    assert!(matches!(head[0], Step::Reset));
    assert!(matches!(&head[1], Step::Write(Setting::TypeName(t)) if t == "hash:ip"));
    assert!(matches!(head[2], Step::ResolveType(Command::Create)));
    let plan = s.create_tail_plan(opts);
    assert_eq!(4, plan.len());
    assert!(matches!(plan[0], Step::Write(Setting::Family(false))));
    assert!(matches!(plan[1], Step::Write(Setting::HashSize(1024))));
    assert!(matches!(&plan[2], Step::Write(Setting::SetName(n)) if n == "test"));
    assert!(matches!(plan[3], Step::Run(Command::Create)));
}

#[test]
fn builder_capabilities() {
    assert!(matches!(CreateBuilder::new(SetKind::HashMac).with_ipv6(true), Err(Error::CAOption(_))));
    assert!(matches!(CreateBuilder::new(SetKind::BitmapIp).with_hash_size(8), Err(Error::CAOption(_))));
    assert!(matches!(
        CreateBuilder::new(SetKind::HashIp).with_nomatch(),
        Err(Error::CAOption(m)) if m == "nomatch only valid in net data type"
    ));
    assert!(matches!(
        CreateBuilder::new(SetKind::HashMac).with_ipv6(false),
        Err(Error::CAOption(m)) if m == "family is not supported in hash:mac"
    ));
    assert!(matches!(
        CreateBuilder::new(SetKind::BitmapPort).with_range(&ip([1, 0, 0, 0]), &ip([2, 0, 0, 0])),
        Err(Error::CAOption(m)) if m == "range bounds must be members of the set type"
    ));
    assert!(CreateBuilder::new(SetKind::HashNetPort).with_nomatch().is_ok());
    assert!(matches!(CreateBuilder::new(SetKind::HashNet).with_wildcard(), Err(Error::CAOption(_))));
    assert!(CreateBuilder::new(SetKind::HashNetIface).with_wildcard().is_ok());
    assert!(matches!(CreateBuilder::new(SetKind::HashIp).with_netmask(0), Err(Error::CAOption(_))));
    assert!(matches!(CreateBuilder::new(SetKind::HashIp).with_netmask(33), Err(Error::CAOption(_))));
    assert!(matches!(CreateBuilder::new(SetKind::HashNet).with_netmask(24), Err(Error::CAOption(_))));
    assert!(CreateBuilder::new(SetKind::BitmapIp).with_netmask(24).is_ok());
    assert!(matches!(CreateBuilder::new(SetKind::ListSet).with_forceadd(), Err(Error::CAOption(_))));
    let opts = CreateBuilder::new(SetKind::BitmapPort)
        .with_range(
            &Element { values: vec![DataValue::Port(PortDataType { port: 1 })] },
            &Element { values: vec![DataValue::Port(PortDataType { port: 9 })] },
        )
        .unwrap()
        .with_timeout(5)
        .unwrap()
        .with_counters()
        .unwrap()
        .with_comment()
        .unwrap()
        .with_skbinfo()
        .unwrap()
        .build()
        .unwrap();
    assert_eq!(6, opts.len());
    assert!(matches!(opts[0], Setting::Port(Role::From, 1)));
    assert!(matches!(opts[1], Setting::Port(Role::To, 9)));
    assert!(matches!(CreateBuilder::new(SetKind::HashIp).with_range(&ip([1, 0, 0, 0]), &ip([2, 0, 0, 0])), Err(Error::CAOption(_))));
}

#[test]
fn list_and_exists_outcomes() {
    let mut s = SessionCore::new("b", SetKind::HashIp).unwrap();
    s.set_option(EnvOption::ListSetName);
    let out = vec!["a\nb\n".to_string()];
    match s.list_outcome(Ok(()), &out).unwrap() {
        ListResult::Terse(names) => {
            assert_eq!(vec!["a", "b"], names);
            assert!(s.exists_in(&names));
        }
        ListResult::Normal(_) => panic!("expected names"),
    }
    assert!(matches!(s.list_outcome(cmd("err", true), &out), Err(Error::Cmd(_, true))));
    assert!(!s.exists_in(&vec!["a".to_string(), "bb".to_string()]));
}
