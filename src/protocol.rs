//! The session protocol: which options each command writes into the native
//! session, in which order, and what a native failure means for the caller.
//!
//! A command is a plan of steps. Whoever drives the native library runs the
//! steps in order and stops at the first that fails, reporting a refused
//! option write as `Error::DataSet`, an unresolvable type as
//! `Error::TypeGet` and a refused command as `Error::Cmd`; the outcome
//! functions here then turn that result into the command's answer.
use vstd::prelude::*;

use crate::data::{check_nul, IpDataType};
use crate::element::{value_kind, DataValue, Element};
use crate::error::{spec_cmd_contains, spec_is_error, Error};
use crate::listing::{
    chunks_view, line_fault, line_ok, listing_run, reports, output_lines, parse_list_output, AddOption, ListModel,
    ListResult, OptionModel,
};
use crate::settype::{kind_data, kind_method, kind_typename, DataKind, Method, SetKind};
use crate::text::{chars_eq, chars_of, contains_seq, string_of};

verus! {

/// Which slot of a range an address or port fills.
#[derive(Clone, Copy, Debug, PartialEq, Eq, Structural)]
pub enum Role {
    Exact,
    From,
    To,
}

/// A command of the native library.
#[derive(Clone, Copy, Debug, PartialEq, Eq, Structural)]
pub enum Command {
    Test,
    Add,
    Del,
    List,
    Flush,
    Destroy,
    Save,
    Create,
}

/// One option written into the native session data.
#[derive(Debug)]
pub enum Setting {
    SetName(String),
    TypeName(String),
    /// The address family: `true` for IPv6.
    Family(bool),
    Ip(Role, IpDataType),
    Cidr(u8),
    Ether([u8; 6]),
    Port(Role, u16),
    Iface(String),
    Mark(u32),
    Name(String),
    Timeout(u32),
    Bytes(u64),
    Packets(u64),
    /// Mark in the high 32 bits, mask in the low 32 bits.
    SkbMark(u64),
    /// Major in the high 16 bits, minor in the low 16 bits.
    SkbPrio(u32),
    SkbQueue(u16),
    Comment(String),
    Nomatch,
    Counters,
    SkbInfo,
    CreateComment,
    HashSize(u32),
    MaxElem(u32),
    ForceAdd,
    IfaceWildcard,
    Netmask(u8),
}

/// The value of a `Setting`, with its texts as characters.
pub enum SettingModel {
    SetName(Seq<char>),
    TypeName(Seq<char>),
    Family(bool),
    Ip(Role, IpDataType),
    Cidr(u8),
    Ether(Seq<u8>),
    Port(Role, u16),
    Iface(Seq<char>),
    Mark(u32),
    Name(Seq<char>),
    Timeout(u32),
    Bytes(u64),
    Packets(u64),
    SkbMark(u64),
    SkbPrio(u32),
    SkbQueue(u16),
    Comment(Seq<char>),
    Nomatch,
    Counters,
    SkbInfo,
    CreateComment,
    HashSize(u32),
    MaxElem(u32),
    ForceAdd,
    IfaceWildcard,
    Netmask(u8),
}

impl View for Setting {
    type V = SettingModel;

    open spec fn view(&self) -> SettingModel {
        match *self {
            Setting::SetName(s) => SettingModel::SetName(s@),
            Setting::TypeName(s) => SettingModel::TypeName(s@),
            Setting::Family(v6) => SettingModel::Family(v6),
            Setting::Ip(r, ip) => SettingModel::Ip(r, ip),
            Setting::Cidr(c) => SettingModel::Cidr(c),
            Setting::Ether(m) => SettingModel::Ether(m@),
            Setting::Port(r, p) => SettingModel::Port(r, p),
            Setting::Iface(s) => SettingModel::Iface(s@),
            Setting::Mark(m) => SettingModel::Mark(m),
            Setting::Name(s) => SettingModel::Name(s@),
            Setting::Timeout(t) => SettingModel::Timeout(t),
            Setting::Bytes(b) => SettingModel::Bytes(b),
            Setting::Packets(p) => SettingModel::Packets(p),
            Setting::SkbMark(v) => SettingModel::SkbMark(v),
            Setting::SkbPrio(v) => SettingModel::SkbPrio(v),
            Setting::SkbQueue(q) => SettingModel::SkbQueue(q),
            Setting::Comment(s) => SettingModel::Comment(s@),
            Setting::Nomatch => SettingModel::Nomatch,
            Setting::Counters => SettingModel::Counters,
            Setting::SkbInfo => SettingModel::SkbInfo,
            Setting::CreateComment => SettingModel::CreateComment,
            Setting::HashSize(v) => SettingModel::HashSize(v),
            Setting::MaxElem(v) => SettingModel::MaxElem(v),
            Setting::ForceAdd => SettingModel::ForceAdd,
            Setting::IfaceWildcard => SettingModel::IfaceWildcard,
            Setting::Netmask(c) => SettingModel::Netmask(c),
        }
    }
}

/// One step of a command.
#[derive(Debug)]
pub enum Step {
    /// Clear every option written so far.
    Reset,
    /// Write one option.
    Write(Setting),
    /// Resolve the set type for a command.
    ResolveType(Command),
    /// Run a command.
    Run(Command),
}

pub enum StepModel {
    Reset,
    Write(SettingModel),
    ResolveType(Command),
    Run(Command),
}

impl View for Step {
    type V = StepModel;

    open spec fn view(&self) -> StepModel {
        match *self {
            Step::Reset => StepModel::Reset,
            Step::Write(s) => StepModel::Write(s@),
            Step::ResolveType(c) => StepModel::ResolveType(c),
            Step::Run(c) => StepModel::Run(c),
        }
    }
}

pub open spec fn settings_view(v: Seq<Setting>) -> Seq<SettingModel> {
    v.map_values(|s: Setting| s@)
}

pub open spec fn steps_view(v: Seq<Step>) -> Seq<StepModel> {
    v.map_values(|s: Step| s@)
}

/// The options that an address writes: its family, then the address.
pub open spec fn ip_settings(ip: IpDataType, role: Role) -> Seq<SettingModel> {
    seq![SettingModel::Family(ip is IPv6), SettingModel::Ip(role, ip)]
}

/// The options that one field writes.
pub open spec fn value_settings(v: DataValue, role: Role) -> Seq<SettingModel> {
    match v {
        DataValue::Ip(ip) => ip_settings(ip, role),
        DataValue::Net(n) => ip_settings(n.ip, role).push(SettingModel::Cidr(n.cidr)),
        DataValue::Mac(m) => seq![SettingModel::Ether(m.mac@)],
        DataValue::Port(p) => seq![SettingModel::Port(role, p.port)],
        DataValue::Iface(i) => seq![SettingModel::Iface(i.spec_name())],
        DataValue::Mark(m) => seq![SettingModel::Mark(m.mark)],
        DataValue::SetName(s) => seq![SettingModel::Name(s.spec_name())],
    }
}

/// The options that a member writes: its fields' options, left to right.
pub open spec fn element_settings(vs: Seq<DataValue>, role: Role) -> Seq<SettingModel>
    decreases vs.len(),
{
    if vs.len() == 0 {
        Seq::empty()
    } else {
        element_settings(vs.drop_last(), role) + value_settings(vs.last(), role)
    }
}

/// The option that a per-member option writes.
pub open spec fn option_setting(o: OptionModel) -> SettingModel {
    match o {
        OptionModel::Timeout(t) => SettingModel::Timeout(t),
        OptionModel::Bytes(b) => SettingModel::Bytes(b),
        OptionModel::Packets(p) => SettingModel::Packets(p),
        OptionModel::SkbMark(m, k) => SettingModel::SkbMark(
            (m as int * 0x1_0000_0000 + k as int) as u64,
        ),
        OptionModel::SkbPrio(a, b) => SettingModel::SkbPrio((a as int * 0x1_0000 + b as int) as u32),
        OptionModel::SkbQueue(q) => SettingModel::SkbQueue(q),
        OptionModel::Comment(c) => SettingModel::Comment(c),
        OptionModel::Nomatch => SettingModel::Nomatch,
    }
}

pub open spec fn options_settings(os: Seq<AddOption>) -> Seq<SettingModel> {
    os.map_values(|o: AddOption| option_setting(o@))
}

proof fn lemma_settings_push(a: Seq<Setting>, x: Setting)
    ensures
        settings_view(a.push(x)) == settings_view(a).push(x@),
{
    assert(settings_view(a.push(x)) =~= settings_view(a).push(x@));
}

proof fn lemma_steps_push(a: Seq<Step>, x: Step)
    ensures
        steps_view(a.push(x)) == steps_view(a).push(x@),
{
    assert(steps_view(a.push(x)) =~= steps_view(a).push(x@));
}

fn push_ip(out: &mut Vec<Setting>, ip: IpDataType, role: Role)
    ensures
        settings_view(final(out)@) == settings_view(old(out)@) + ip_settings(ip, role),
{
    let v6 = match ip {
        IpDataType::IPv4(_) => false,
        IpDataType::IPv6(_) => true,
    };
    let ghost a = out@;
    let f = Setting::Family(v6);
    let ghost fv = f@;
    out.push(f);
    proof {
        lemma_settings_push(a, f);
    }
    let ghost b = out@;
    let x = Setting::Ip(role, ip);
    let ghost xv = x@;
    out.push(x);
    proof {
        lemma_settings_push(b, x);
    }
    assert(settings_view(out@) =~= settings_view(old(out)@) + ip_settings(ip, role));
}

fn push_setting(out: &mut Vec<Setting>, x: Setting)
    ensures
        settings_view(final(out)@) == settings_view(old(out)@).push(x@),
{
    let ghost a = out@;
    let ghost xv = x@;
    out.push(x);
    proof {
        lemma_settings_push(a, x);
    }
}

fn push_step(out: &mut Vec<Step>, x: Step)
    ensures
        steps_view(final(out)@) == steps_view(old(out)@).push(x@),
{
    let ghost a = out@;
    out.push(x);
    proof {
        lemma_steps_push(a, x);
    }
}

/// Appends the options that one field writes.
fn push_value(out: &mut Vec<Setting>, v: &DataValue, role: Role)
    ensures
        settings_view(final(out)@) == settings_view(old(out)@) + value_settings(*v, role),
{
    let ghost start = settings_view(out@);
    match v {
        DataValue::Ip(ip) => {
            push_ip(out, *ip, role);
        },
        DataValue::Net(n) => {
            push_ip(out, n.ip, role);
            push_setting(out, Setting::Cidr(n.cidr));
        },
        DataValue::Mac(m) => {
            push_setting(out, Setting::Ether(m.mac));
        },
        DataValue::Port(p) => {
            push_setting(out, Setting::Port(role, p.port));
        },
        DataValue::Iface(i) => {
            push_setting(out, Setting::Iface(i.to_string()));
        },
        DataValue::Mark(m) => {
            push_setting(out, Setting::Mark(m.mark));
        },
        DataValue::SetName(s) => {
            push_setting(out, Setting::Name(s.to_string()));
        },
    }
    assert(settings_view(out@) =~= start + value_settings(*v, role));
}

/// The options that a member writes, in the given role.
pub fn element_settings_of(e: &Element, role: Role) -> (r: Vec<Setting>)
    ensures
        settings_view(r@) == element_settings(e.values@, role),
{
    let mut out: Vec<Setting> = Vec::new();
    assert(settings_view(out@) =~= Seq::<SettingModel>::empty());
    let mut i: usize = 0;
    while i < e.values.len()
        invariant
            i <= e.values.len(),
            settings_view(out@) == element_settings(e.values@.subrange(0, i as int), role),
        decreases e.values.len() - i,
    {
        push_value(&mut out, &e.values[i], role);
        i = i + 1;
        assert(e.values@.subrange(0, i as int).drop_last() =~= e.values@.subrange(0, i - 1));
    }
    assert(e.values@.subrange(0, e.values.len() as int) =~= e.values@);
    out
}

/// The option that one per-member option writes.
pub fn option_setting_of(o: &AddOption) -> (r: Setting)
    ensures
        r@ == option_setting(o@),
{
    match o {
        AddOption::Timeout(t) => Setting::Timeout(*t),
        AddOption::Bytes(b) => Setting::Bytes(*b),
        AddOption::Packets(p) => Setting::Packets(*p),
        AddOption::SkbMark(mark, mask) => {
            let v: u64 = (*mark as u64) * 0x1_0000_0000 + (*mask as u64);
            Setting::SkbMark(v)
        },
        AddOption::SkbPrio(major, minor) => {
            let v: u32 = (*major as u32) * 0x1_0000 + (*minor as u32);
            Setting::SkbPrio(v)
        },
        AddOption::SkbQueue(q) => Setting::SkbQueue(*q),
        AddOption::Comment(c) => Setting::Comment(c.clone()),
        AddOption::Nomatch => Setting::Nomatch,
    }
}

/// Appends `v` to `out` as `Set` steps.
fn push_settings(out: &mut Vec<Step>, v: Vec<Setting>)
    ensures
        steps_view(final(out)@) == steps_view(old(out)@) + set_steps(settings_view(v@)),
{
    let mut v = v;
    let ghost all = settings_view(v@);
    let ghost start = steps_view(out@);
    let ghost mut k: int = 0;
    while v.len() > 0
        invariant
            0 <= k <= all.len(),
            all.len() == k + v@.len(),
            settings_view(v@) == all.subrange(k, all.len() as int),
            steps_view(out@) == start + set_steps(all.subrange(0, k)),
        decreases v.len(),
    {
        let ghost before = v@;
        let s = v.remove(0);
        assert(before[0] == s);
        assert(settings_view(before)[0] == all.subrange(k, all.len() as int)[0]);
        assert(s@ == all[k]);
        assert(settings_view(v@) =~= settings_view(before).subrange(1, before.len() as int));
        push_step(out, Step::Write(s));
        proof {
            assert(set_steps(all.subrange(0, k + 1)) =~= set_steps(all.subrange(0, k)).push(
                StepModel::Write(all[k]),
            ));
            k = k + 1;
            assert(settings_view(v@) =~= all.subrange(k, all.len() as int));
            assert(steps_view(out@) =~= start + set_steps(all.subrange(0, k)));
        }
    }
    assert(all.subrange(0, all.len() as int) =~= all);
}

pub open spec fn set_steps(s: Seq<SettingModel>) -> Seq<StepModel> {
    s.map_values(|x: SettingModel| StepModel::Write(x))
}

/// The native value of an environment option.
#[derive(Clone, Copy, Debug, PartialEq, Eq, Structural)]
pub enum EnvOption {
    /// List and save entries sorted.
    Sorted,
    /// Print nothing on standard output and error.
    Quiet,
    /// Resolve addresses to host names when listing.
    Resolve,
    /// Ignore the error of creating an existing set, adding an existing entry
    /// or deleting a missing one.
    Exist,
    /// List set names only.
    ListSetName,
    /// List set names and headers, without members.
    ListHeader,
}

/// The bit of the native environment-option word for an option.
pub open spec fn env_bit(o: EnvOption) -> u32 {
    match o {
        EnvOption::Sorted => 1,
        EnvOption::Quiet => 2,
        EnvOption::Resolve => 4,
        EnvOption::Exist => 8,
        EnvOption::ListSetName => 16,
        EnvOption::ListHeader => 32,
    }
}

impl EnvOption {
    /// The native value of the option.
    pub fn to_option(self) -> (r: u32)
        ensures
            r == env_bit(self),
    {
        match self {
            EnvOption::Sorted => 1,
            EnvOption::Quiet => 2,
            EnvOption::Resolve => 4,
            EnvOption::Exist => 8,
            EnvOption::ListSetName => 16,
            EnvOption::ListHeader => 32,
        }
    }
}

/// What `test` answers: a refusal that says the member is not in the set is
/// `false`; any other failure is passed on.
pub open spec fn test_answer(r: Result<(), Error>) -> Result<bool, Error> {
    match r {
        Ok(()) => Ok(true),
        Err(e) => if spec_cmd_contains(e, " is NOT in set "@) {
            Ok(false)
        } else {
            Err(e)
        },
    }
}

/// What `add` answers: a refusal that says the member is already there is
/// `false`.
pub open spec fn add_answer(r: Result<(), Error>) -> Result<bool, Error> {
    match r {
        Ok(()) => Ok(true),
        Err(e) => if spec_cmd_contains(
            e,
            "Element cannot be added to the set: it's already added"@,
        ) {
            Ok(false)
        } else {
            Err(e)
        },
    }
}

/// What `del` answers: a refusal that says the member is not there is
/// `false`.
pub open spec fn del_answer(r: Result<(), Error>) -> Result<bool, Error> {
    match r {
        Ok(()) => Ok(true),
        Err(e) => if spec_cmd_contains(
            e,
            "Element cannot be deleted from the set: it's not added"@,
        ) {
            Ok(false)
        } else {
            Err(e)
        },
    }
}

/// What a command on the set as a whole answers (flush, destroy, create,
/// list, save): a refused command that the native library reported only as
/// a warning is `false`.
pub open spec fn name_answer(r: Result<(), Error>) -> Result<bool, Error> {
    match r {
        Ok(()) => Ok(true),
        Err(e) => if e is Cmd && !spec_is_error(e) {
            Ok(false)
        } else {
            Err(e)
        },
    }
}

/// The answer of `test` to the result of its plan.
pub fn test_outcome(r: Result<(), Error>) -> (a: Result<bool, Error>)
    ensures
        a == test_answer(r),
{
    match r {
        Ok(()) => Ok(true),
        Err(e) => if e.cmd_contains(" is NOT in set ") {
            Ok(false)
        } else {
            Err(e)
        },
    }
}

/// The answer of `add` to the result of its plan.
pub fn add_outcome(r: Result<(), Error>) -> (a: Result<bool, Error>)
    ensures
        a == add_answer(r),
{
    match r {
        Ok(()) => Ok(true),
        Err(e) => if e.cmd_contains("Element cannot be added to the set: it's already added") {
            Ok(false)
        } else {
            Err(e)
        },
    }
}

/// The answer of `del` to the result of its plan.
pub fn del_outcome(r: Result<(), Error>) -> (a: Result<bool, Error>)
    ensures
        a == del_answer(r),
{
    match r {
        Ok(()) => Ok(true),
        Err(e) => if e.cmd_contains("Element cannot be deleted from the set: it's not added") {
            Ok(false)
        } else {
            Err(e)
        },
    }
}

/// The answer of a command on the whole set to the result of its plan.
pub fn name_outcome(r: Result<(), Error>) -> (a: Result<bool, Error>)
    ensures
        a == name_answer(r),
{
    match r {
        Ok(()) => Ok(true),
        Err(e) => {
            let warning = match &e {
                Error::Cmd(_, fatal) => !*fatal,
                _ => false,
            };
            if warning {
                Ok(false)
            } else {
                Err(e)
            }
        },
    }
}

/// The protocol state of a session bound to one set: its name, its set
/// type, and whether listing gives set names only.
#[derive(Debug)]
pub struct SessionCore {
    name: String,
    kind: SetKind,
    list_name: bool,
}

/// A plan that writes the set name, resolves the type for `cmd`, writes
/// `data`, then runs `cmd`.
pub open spec fn data_plan(name: Seq<char>, cmd: Command, data: Seq<SettingModel>) -> Seq<StepModel> {
    seq![StepModel::Write(SettingModel::SetName(name)), StepModel::ResolveType(cmd)] + set_steps(data)
        + seq![StepModel::Run(cmd)]
}

/// A plan that writes the set name, then runs `cmd`.
pub open spec fn name_plan(name: Seq<char>, cmd: Command) -> Seq<StepModel> {
    seq![StepModel::Write(SettingModel::SetName(name)), StepModel::Run(cmd)]
}

impl SessionCore {
    pub closed spec fn spec_name(&self) -> Seq<char> {
        self.name@
    }

    pub closed spec fn spec_kind(&self) -> SetKind {
        self.kind
    }

    pub closed spec fn spec_list_name(&self) -> bool {
        self.list_name
    }

    /// A session for the set `name` of type `kind`; the name must be free
    /// of NUL, or `Nul` is returned.
    pub fn new(name: &str, kind: SetKind) -> (r: Result<Self, Error>)
        ensures
            r is Ok == !name@.contains('\0'),
            r matches Err(e) ==> e is Nul,
            r matches Ok(s) ==> s.spec_name() == name@ && s.spec_kind() == kind
                && !s.spec_list_name(),
    {
        let cs = chars_of(name);
        check_nul(&cs)?;
        Ok(SessionCore { name: string_of(&cs), kind, list_name: false })
    }

    /// The set type.
    pub fn kind(&self) -> (r: SetKind)
        ensures
            r == self.spec_kind(),
    {
        self.kind
    }

    /// The set name.
    pub fn name(&self) -> (r: String)
        ensures
            r@ == self.spec_name(),
    {
        self.name.clone()
    }

    /// Whether listing gives set names only.
    pub fn list_name(&self) -> (r: bool)
        ensures
            r == self.spec_list_name(),
    {
        self.list_name
    }

    /// Turns an environment option on; returns its native value.
    pub fn set_option(&mut self, option: EnvOption) -> (r: u32)
        ensures
            r == env_bit(option),
            final(self).spec_name() == old(self).spec_name(),
            final(self).spec_kind() == old(self).spec_kind(),
            final(self).spec_list_name() == (old(self).spec_list_name() || option
                == EnvOption::ListSetName),
    {
        if option == EnvOption::ListSetName {
            self.list_name = true;
        }
        option.to_option()
    }

    /// Turns an environment option off; returns its native value.
    pub fn unset_option(&mut self, option: EnvOption) -> (r: u32)
        ensures
            r == env_bit(option),
            final(self).spec_name() == old(self).spec_name(),
            final(self).spec_kind() == old(self).spec_kind(),
            final(self).spec_list_name() == (old(self).spec_list_name() && option
                != EnvOption::ListSetName),
    {
        if option == EnvOption::ListSetName {
            self.list_name = false;
        }
        option.to_option()
    }

    fn data_plan_of(&self, cmd: Command, data: Vec<Setting>) -> (r: Vec<Step>)
        ensures
            steps_view(r@) == data_plan(self.spec_name(), cmd, settings_view(data@)),
    {
        let mut r: Vec<Step> = Vec::new();
        assert(steps_view(r@) =~= Seq::<StepModel>::empty());
        push_step(&mut r, Step::Write(Setting::SetName(self.name.clone())));
        push_step(&mut r, Step::ResolveType(cmd));
        push_settings(&mut r, data);
        push_step(&mut r, Step::Run(cmd));
        assert(steps_view(r@) =~= data_plan(self.spec_name(), cmd, settings_view(data@)));
        r
    }

    /// The plan of `test` for the member `data`.
    pub fn test_plan(&self, data: &Element) -> (r: Vec<Step>)
        requires
            fits(self.spec_kind(), data.values@),
        ensures
            steps_view(r@) == data_plan(
                self.spec_name(),
                Command::Test,
                element_settings(data.values@, Role::Exact),
            ),
    {
        let s = element_settings_of(data, Role::Exact);
        self.data_plan_of(Command::Test, s)
    }

    /// The plan of `del` for the member `data`.
    pub fn del_plan(&self, data: &Element) -> (r: Vec<Step>)
        requires
            fits(self.spec_kind(), data.values@),
        ensures
            steps_view(r@) == data_plan(
                self.spec_name(),
                Command::Del,
                element_settings(data.values@, Role::Exact),
            ),
    {
        let s = element_settings_of(data, Role::Exact);
        self.data_plan_of(Command::Del, s)
    }

    /// The plan of `add` for the member `data` with its options, which are
    /// written after the member, in order.
    pub fn add_plan(&self, data: &Element, options: &Vec<AddOption>) -> (r: Vec<Step>)
        requires
            fits(self.spec_kind(), data.values@),
        ensures
            steps_view(r@) == data_plan(
                self.spec_name(),
                Command::Add,
                element_settings(data.values@, Role::Exact) + options_settings(options@),
            ),
    {
        let mut s = element_settings_of(data, Role::Exact);
        let ghost start = settings_view(s@);
        let mut i: usize = 0;
        while i < options.len()
            invariant
                i <= options.len(),
                settings_view(s@) == start + options_settings(options@.subrange(0, i as int)),
            decreases options.len() - i,
        {
            let o = option_setting_of(&options[i]);
            push_setting(&mut s, o);
            i = i + 1;
            assert(settings_view(s@) =~= start + options_settings(options@.subrange(0, i as int)));
        }
        assert(options@.subrange(0, options.len() as int) =~= options@);
        self.data_plan_of(Command::Add, s)
    }

    /// The plan of a command on the whole set: `List`, `Flush`, `Destroy`
    /// or `Save`.
    pub fn name_plan(&self, cmd: Command) -> (r: Vec<Step>)
        ensures
            steps_view(r@) == name_plan(self.spec_name(), cmd),
    {
        let r = vec![Step::Write(Setting::SetName(self.name.clone())), Step::Run(cmd)];
        assert(steps_view(r@) =~= name_plan(self.spec_name(), cmd));
        r
    }

    /// The first part of `create`, run before the options are gathered:
    /// clear the data, write the type identifier, resolve the type.
    pub fn create_head_plan(&self) -> (r: Vec<Step>)
        ensures
            steps_view(r@) == seq![
                StepModel::Reset,
                StepModel::Write(SettingModel::TypeName(kind_typename(self.spec_kind()))),
                StepModel::ResolveType(Command::Create),
            ],
    {
        let mut r: Vec<Step> = Vec::new();
        assert(steps_view(r@) =~= Seq::<StepModel>::empty());
        push_step(&mut r, Step::Reset);
        push_step(&mut r, Step::Write(Setting::TypeName(self.kind.identifier())));
        push_step(&mut r, Step::ResolveType(Command::Create));
        assert(steps_view(r@) =~= seq![
            StepModel::Reset,
            StepModel::Write(SettingModel::TypeName(kind_typename(self.spec_kind()))),
            StepModel::ResolveType(Command::Create),
        ]);
        r
    }

    /// The rest of `create`, with the options that a builder gathered:
    /// write the options, then write the set name and run the command. Its
    /// result is answered by `name_outcome`.
    pub fn create_tail_plan(&self, options: Vec<Setting>) -> (r: Vec<Step>)
        ensures
            steps_view(r@) == set_steps(settings_view(options@)) + name_plan(
                self.spec_name(),
                Command::Create,
            ),
    {
        let mut r: Vec<Step> = Vec::new();
        assert(steps_view(r@) =~= Seq::<StepModel>::empty());
        push_settings(&mut r, options);
        push_step(&mut r, Step::Write(Setting::SetName(self.name.clone())));
        push_step(&mut r, Step::Run(Command::Create));
        assert(steps_view(r@) =~= set_steps(settings_view(options@)) + name_plan(
            self.spec_name(),
            Command::Create,
        ));
        r
    }

    /// The answer of `list` to the result of its plan and what the command
    /// printed: a failure is passed on (a warning is not), else the output
    /// is read in the session's listing mode.
    pub fn list_outcome(&self, r: Result<(), Error>, output: &Vec<String>) -> (a: Result<
        ListResult,
        Error,
    >)
        ensures
            name_answer(r) is Err ==> a is Err && a->Err_0 == name_answer(r)->Err_0,
            name_answer(r) is Ok && self.spec_list_name() ==> (a matches Ok(ListResult::Terse(names))
                && chunks_view(names@) == output_lines(chunks_view(output@))),
            name_answer(r) is Ok && !self.spec_list_name() ==> (a is Ok ==> exists|ms: Seq<ListModel>|
                listing_run(kind_data(self.spec_kind()), output_lines(chunks_view(output@)), ms) && (
                a matches Ok(ListResult::Normal(n)) && n@ == ms.last())),
            name_answer(r) is Ok && !self.spec_list_name() ==> (a is Err ==> exists|
                ms: Seq<ListModel>,
                j: int,
            |
                0 <= j < output_lines(chunks_view(output@)).len() && listing_run(
                    kind_data(self.spec_kind()),
                    output_lines(chunks_view(output@)).subrange(0, j),
                    ms,
                ) && !line_ok(ms.last(), kind_data(self.spec_kind()), output_lines(
                    chunks_view(output@),
                )[j]) && reports(
                    a->Err_0,
                    line_fault(ms.last(), kind_data(self.spec_kind()), output_lines(
                        chunks_view(output@),
                    )[j]),
                )),
    {
        match name_outcome(r) {
            Err(e) => Err(e),
            Ok(_) => {
                let kinds = self.kind.data_kinds();
                proof {
                    lemma_kinds_nonempty(self.kind);
                }
                parse_list_output(output, self.list_name, &kinds)
            },
        }
    }

    /// Whether the set names that a terse listing gave hold this session's
    /// set.
    pub fn exists_in(&self, names: &Vec<String>) -> (r: bool)
        ensures
            r == chunks_view(names@).contains(self.spec_name()),
    {
        let me = chars_of(self.name.as_str());
        let mut i: usize = 0;
        while i < names.len()
            invariant
                i <= names.len(),
                me@ == self.spec_name(),
                forall|k: int| 0 <= k < i ==> #[trigger] names@[k]@ != self.spec_name(),
            decreases names.len() - i,
        {
            let n = chars_of(names[i].as_str());
            if chars_eq(&n, &me) {
                assert(chunks_view(names@)[i as int] == self.spec_name());
                return true;
            }
            i = i + 1;
        }
        assert forall|k: int| 0 <= k < chunks_view(names@).len() implies #[trigger] chunks_view(
            names@,
        )[k] != self.spec_name() by {
            assert(names@[k]@ != self.spec_name());
        }
        false
    }

    /// Whether `data` is a member of this session's set type; the plans of
    /// `test`, `add` and `del` take only such members.
    pub fn fits(&self, data: &Element) -> (r: bool)
        ensures
            r == fits(self.spec_kind(), data.values@),
    {
        fits_kind(self.kind, data)
    }

    /// Forces listing of names only before `exists` lists; returns whether
    /// it had to, so that `end_exists` puts the mode back.
    pub fn begin_exists(&mut self) -> (forced: bool)
        ensures
            forced == !old(self).spec_list_name(),
            final(self).spec_list_name(),
            final(self).spec_name() == old(self).spec_name(),
            final(self).spec_kind() == old(self).spec_kind(),
    {
        if !self.list_name {
            self.list_name = true;
            true
        } else {
            false
        }
    }

    /// Puts the listing mode back after `exists`.
    pub fn end_exists(&mut self, forced: bool)
        ensures
            final(self).spec_list_name() == (old(self).spec_list_name() && !forced),
            final(self).spec_name() == old(self).spec_name(),
            final(self).spec_kind() == old(self).spec_kind(),
    {
        if forced {
            self.list_name = false;
        }
    }
}

/// Every set type has at least one data kind.
pub proof fn lemma_kinds_nonempty(k: SetKind)
    ensures
        kind_data(k).len() >= 1,
        kind_data(k).len() <= 3,
{
}

/// The options of `create`, gathered for the set type the session is bound
/// to; an option that does not apply to that type is refused with
/// `Error::CAOption`.
pub struct CreateBuilder {
    kind: SetKind,
    settings: Vec<Setting>,
}

/// Whether `e` refuses a creation option with the message `m`.
pub open spec fn refusal(e: Error, m: Seq<char>) -> bool {
    e is CAOption && e->CAOption_0@ == m
}

/// Whether the fields of a member are of the data kinds of the set type.
pub open spec fn fits(k: SetKind, vs: Seq<DataValue>) -> bool {
    vs.map_values(|v: DataValue| value_kind(v)) == kind_data(k)
}

/// Whether the member `e` is of the data kinds of the set type `k`.
pub fn fits_kind(k: SetKind, e: &Element) -> (r: bool)
    ensures
        r == fits(k, e.values@),
{
    let ks = k.data_kinds();
    if ks.len() != e.values.len() {
        proof {
            assert(e.values@.map_values(|v: DataValue| value_kind(v)).len() != kind_data(k).len());
        }
        return false;
    }
    let mut i: usize = 0;
    while i < ks.len()
        invariant
            i <= ks.len() == e.values@.len(),
            ks@ == kind_data(k),
            forall|j: int| 0 <= j < i ==> value_kind(#[trigger] e.values@[j]) == ks@[j],
        decreases ks.len() - i,
    {
        if e.values[i].kind() != ks[i] {
            assert(e.values@.map_values(|v: DataValue| value_kind(v))[i as int] != ks@[i as int]);
            return false;
        }
        i = i + 1;
    }
    assert(e.values@.map_values(|v: DataValue| value_kind(v)) =~= kind_data(k));
    true
}

/// Whether a set type stores a network field.
pub open spec fn has_net(k: SetKind) -> bool {
    kind_data(k).contains(DataKind::Net)
}

impl CreateBuilder {
    pub closed spec fn spec_kind(&self) -> SetKind {
        self.kind
    }

    pub closed spec fn spec_settings(&self) -> Seq<SettingModel> {
        settings_view(self.settings@)
    }

    /// A builder for the given set type, with no option yet.
    pub fn new(kind: SetKind) -> (r: Self)
        ensures
            r.spec_kind() == kind,
            r.spec_settings() == Seq::<SettingModel>::empty(),
    {
        let r = CreateBuilder { kind, settings: Vec::new() };
        assert(r.spec_settings() =~= Seq::<SettingModel>::empty());
        r
    }

    fn with(self, s: Setting) -> (r: Self)
        ensures
            r.spec_kind() == self.spec_kind(),
            r.spec_settings() == self.spec_settings().push(s@),
    {
        let mut b = self;
        let ghost before = b.spec_settings();
        b.settings.push(s);
        assert(b.spec_settings() =~= before.push(s@));
        b
    }

    fn refuse(message: &str) -> (r: Result<Self, Error>)
        ensures
            r matches Err(e) && refusal(e, message@),
    {
        Err(Error::CAOption(message.to_string()))
    }

    /// Default timeout, in seconds, of new entries.
    pub fn with_timeout(self, timeout: u32) -> (r: Result<Self, Error>)
        ensures
            r matches Ok(b) && b.spec_kind() == self.spec_kind() && b.spec_settings()
                == self.spec_settings().push(SettingModel::Timeout(timeout)),
    {
        Ok(self.with(Setting::Timeout(timeout)))
    }

    /// Packet and byte counters per entry.
    pub fn with_counters(self) -> (r: Result<Self, Error>)
        ensures
            r matches Ok(b) && b.spec_kind() == self.spec_kind() && b.spec_settings()
                == self.spec_settings().push(SettingModel::Counters),
    {
        Ok(self.with(Setting::Counters))
    }

    /// Mark, class and queue metadata per entry.
    pub fn with_skbinfo(self) -> (r: Result<Self, Error>)
        ensures
            r matches Ok(b) && b.spec_kind() == self.spec_kind() && b.spec_settings()
                == self.spec_settings().push(SettingModel::SkbInfo),
    {
        Ok(self.with(Setting::SkbInfo))
    }

    /// A comment per entry.
    pub fn with_comment(self) -> (r: Result<Self, Error>)
        ensures
            r matches Ok(b) && b.spec_kind() == self.spec_kind() && b.spec_settings()
                == self.spec_settings().push(SettingModel::CreateComment),
    {
        Ok(self.with(Setting::CreateComment))
    }

    /// The initial hash size; hash sets only.
    pub fn with_hash_size(self, size: u32) -> (r: Result<Self, Error>)
        ensures
            r is Ok == (kind_method(self.spec_kind()) == Method::Hash),
            r matches Ok(b) ==> b.spec_kind() == self.spec_kind() && b.spec_settings()
                == self.spec_settings().push(SettingModel::HashSize(size)),
            r matches Err(e) ==> refusal(e, "hashsize is valid for hash sets only"@),
    {
        if self.kind.method() != Method::Hash {
            return Self::refuse("hashsize is valid for hash sets only");
        }
        Ok(self.with(Setting::HashSize(size)))
    }

    /// The largest number of entries; hash sets only.
    pub fn with_max_elem(self, max: u32) -> (r: Result<Self, Error>)
        ensures
            r is Ok == (kind_method(self.spec_kind()) == Method::Hash),
            r matches Ok(b) ==> b.spec_kind() == self.spec_kind() && b.spec_settings()
                == self.spec_settings().push(SettingModel::MaxElem(max)),
            r matches Err(e) ==> refusal(e, "maxelem is valid for hash sets only"@),
    {
        if self.kind.method() != Method::Hash {
            return Self::refuse("maxelem is valid for hash sets only");
        }
        Ok(self.with(Setting::MaxElem(max)))
    }

    /// The address family; hash sets other than hash:mac only.
    pub fn with_ipv6(self, ipv6: bool) -> (r: Result<Self, Error>)
        ensures
            r is Ok == (kind_method(self.spec_kind()) == Method::Hash && self.spec_kind()
                != SetKind::HashMac),
            r matches Ok(b) ==> b.spec_kind() == self.spec_kind() && b.spec_settings()
                == self.spec_settings().push(SettingModel::Family(ipv6)),
            r matches Err(e) ==> refusal(e, if kind_method(self.spec_kind()) != Method::Hash {
                "family is valid for hash sets only"@
            } else {
                "family is not supported in hash:mac"@
            }),
    {
        if self.kind.method() != Method::Hash {
            return Self::refuse("family is valid for hash sets only");
        }
        if self.kind == SetKind::HashMac {
            return Self::refuse("family is not supported in hash:mac");
        }
        Ok(self.with(Setting::Family(ipv6)))
    }

    /// Exceptions among entries; hash sets with a network field only.
    pub fn with_nomatch(self) -> (r: Result<Self, Error>)
        ensures
            r is Ok == (kind_method(self.spec_kind()) == Method::Hash && has_net(self.spec_kind())),
            r matches Ok(b) ==> b.spec_kind() == self.spec_kind() && b.spec_settings()
                == self.spec_settings().push(SettingModel::Nomatch),
            r matches Err(e) ==> refusal(e, if kind_method(self.spec_kind()) != Method::Hash {
                "nomatch is valid for hash sets only"@
            } else {
                "nomatch only valid in net data type"@
            }),
    {
        if self.kind.method() != Method::Hash {
            return Self::refuse("nomatch is valid for hash sets only");
        }
        let ks = self.kind.data_kinds();
        let mut net = false;
        let mut i: usize = 0;
        while i < ks.len()
            invariant
                i <= ks.len(),
                net == (exists|k: int| 0 <= k < i && ks@[k] == DataKind::Net),
            decreases ks.len() - i,
        {
            if ks[i] == DataKind::Net {
                net = true;
            }
            i = i + 1;
        }
        if !net {
            return Self::refuse("nomatch only valid in net data type");
        }
        Ok(self.with(Setting::Nomatch))
    }

    /// A full set may take a new entry by evicting one; hash sets only.
    pub fn with_forceadd(self) -> (r: Result<Self, Error>)
        ensures
            r is Ok == (kind_method(self.spec_kind()) == Method::Hash),
            r matches Ok(b) ==> b.spec_kind() == self.spec_kind() && b.spec_settings()
                == self.spec_settings().push(SettingModel::ForceAdd),
            r matches Err(e) ==> refusal(e, "forceadd is valid for hash sets only"@),
    {
        if self.kind.method() != Method::Hash {
            return Self::refuse("forceadd is valid for hash sets only");
        }
        Ok(self.with(Setting::ForceAdd))
    }

    /// Prefix matching of interface names; hash:net,iface only.
    pub fn with_wildcard(self) -> (r: Result<Self, Error>)
        ensures
            r is Ok == (self.spec_kind() == SetKind::HashNetIface),
            r matches Ok(b) ==> b.spec_kind() == self.spec_kind() && b.spec_settings()
                == self.spec_settings().push(SettingModel::IfaceWildcard),
            r matches Err(e) ==> refusal(e, "wildcard is valid for hash:net,iface only"@),
    {
        if self.kind != SetKind::HashNetIface {
            return Self::refuse("wildcard is valid for hash:net,iface only");
        }
        Ok(self.with(Setting::IfaceWildcard))
    }

    /// The range of a bitmap set, from `from` to `to`; bitmap sets only,
    /// with bounds that are members of the set type.
    pub fn with_range(self, from: &Element, to: &Element) -> (r: Result<Self, Error>)
        ensures
            r is Ok == (kind_method(self.spec_kind()) == Method::Bitmap && fits(
                self.spec_kind(),
                from.values@,
            ) && fits(self.spec_kind(), to.values@)),
            r matches Err(e) ==> refusal(e, if kind_method(self.spec_kind()) != Method::Bitmap {
                "range is valid for bitmap sets only"@
            } else {
                "range bounds must be members of the set type"@
            }),
            r matches Ok(b) ==> b.spec_kind() == self.spec_kind() && b.spec_settings()
                == self.spec_settings() + element_settings(from.values@, Role::From)
                + element_settings(to.values@, Role::To),
    {
        if self.kind.method() != Method::Bitmap {
            return Self::refuse("range is valid for bitmap sets only");
        }
        if !fits_kind(self.kind, from) || !fits_kind(self.kind, to) {
            return Self::refuse("range bounds must be members of the set type");
        }
        let mut b = self;
        let ghost start = b.spec_settings();
        let f = element_settings_of(from, Role::From);
        let t = element_settings_of(to, Role::To);
        let mut f = f;
        let mut t = t;
        b.settings.append(&mut f);
        b.settings.append(&mut t);
        assert(b.spec_settings() =~= start + element_settings(from.values@, Role::From)
            + element_settings(to.values@, Role::To));
        Ok(b)
    }

    /// Store networks of the given prefix length, 1 to 32, instead of
    /// hosts; bitmap:ip and hash:ip only.
    pub fn with_netmask(self, cidr: u8) -> (r: Result<Self, Error>)
        ensures
            r is Ok == ((self.spec_kind() == SetKind::BitmapIp || self.spec_kind()
                == SetKind::HashIp) && 1 <= cidr <= 32),
            r matches Ok(b) ==> b.spec_kind() == self.spec_kind() && b.spec_settings()
                == self.spec_settings().push(SettingModel::Netmask(cidr)),
            r matches Err(e) ==> refusal(e, if self.spec_kind() != SetKind::BitmapIp && self.spec_kind() != SetKind::HashIp {
                "netmask is valid for bitmap:ip and hash:ip only"@
            } else {
                "netmask cidr should in range [1, 32]"@
            }),
    {
        if self.kind != SetKind::BitmapIp && self.kind != SetKind::HashIp {
            return Self::refuse("netmask is valid for bitmap:ip and hash:ip only");
        }
        if cidr < 1 || cidr > 32 {
            return Self::refuse("netmask cidr should in range [1, 32]");
        }
        Ok(self.with(Setting::Netmask(cidr)))
    }

    /// The options gathered.
    pub fn build(self) -> (r: Result<Vec<Setting>, Error>)
        ensures
            r matches Ok(v) && settings_view(v@) == self.spec_settings(),
    {
        Ok(self.settings)
    }
}

/// A command that went through answers `true` for `test`, `add` and `del`.
pub proof fn lemma_success_is_true()
    ensures
        test_answer(Ok(())) == Ok::<bool, Error>(true),
        add_answer(Ok(())) == Ok::<bool, Error>(true),
        del_answer(Ok(())) == Ok::<bool, Error>(true),
        name_answer(Ok(())) == Ok::<bool, Error>(true),
{
}

/// Adding a member that is already there answers `false`, not an error,
/// whether the native library called the refusal an error or a warning.
pub proof fn lemma_add_again_is_false(message: String, fatal: bool)
    requires
        contains_seq(message@, "Element cannot be added to the set: it's already added"@),
    ensures
        add_answer(Err(Error::Cmd(message, fatal))) == Ok::<bool, Error>(false),
{
}

/// Deleting a member that was never added answers `false`, not an error.
pub proof fn lemma_del_missing_is_false(message: String, fatal: bool)
    requires
        contains_seq(message@, "Element cannot be deleted from the set: it's not added"@),
    ensures
        del_answer(Err(Error::Cmd(message, fatal))) == Ok::<bool, Error>(false),
{
}

/// Testing a member that is not in the set answers `false`, not an error.
pub proof fn lemma_test_missing_is_false(message: String, fatal: bool)
    requires
        contains_seq(message@, " is NOT in set "@),
    ensures
        test_answer(Err(Error::Cmd(message, fatal))) == Ok::<bool, Error>(false),
{
}

/// A failure that is not a refused command is never turned into an answer.
pub proof fn lemma_other_failures_pass(e: Error)
    requires
        !(e is Cmd),
    ensures
        test_answer(Err(e)) == Err::<bool, Error>(e),
        add_answer(Err(e)) == Err::<bool, Error>(e),
        del_answer(Err(e)) == Err::<bool, Error>(e),
        name_answer(Err(e)) == Err::<bool, Error>(e),
{
}

} // verus!
