//! The service-manager side: socket families and protocols as its directives
//! name them, the catalog of sandboxing options, the resolver that picks the
//! strongest compatible value of each option, and the directive emitter.

use vstd::prelude::*;

use crate::sets::SetElement;
use crate::trace::string_eq_str;
use vstd::string::{StrSliceExecFns, StringExecFns, StringSliceAdditionalSpecFns};

verus! {

/// An address family, as the tracer names it (`AF_...`).
#[derive(Debug, Clone, Copy, PartialEq, Eq, Structural)]
pub enum SocketFamily {
    Unix,
    Inet,
    Inet6,
    Netlink,
    Packet,
}

impl SetElement for SocketFamily {
    fn same(&self, other: &Self) -> (r: bool)
        ensures
            r == (*self == *other),
    {
        *self == *other
    }
}

/// What `parse_socket_family` accepts, and the family each name means.
pub open spec fn spec_parse_socket_family(s: Seq<char>) -> Option<SocketFamily> {
    if s == "AF_UNIX"@ {
        Some(SocketFamily::Unix)
    } else if s == "AF_INET"@ {
        Some(SocketFamily::Inet)
    } else if s == "AF_INET6"@ {
        Some(SocketFamily::Inet6)
    } else if s == "AF_NETLINK"@ {
        Some(SocketFamily::Netlink)
    } else if s == "AF_PACKET"@ {
        Some(SocketFamily::Packet)
    } else {
        None
    }
}

/// The family a tracer-printed `AF_...` constant denotes.
pub fn parse_socket_family(name: &String) -> (r: Option<SocketFamily>)
    ensures
        r == spec_parse_socket_family(name@),
{
    if string_eq_str(name, "AF_UNIX") {
        Some(SocketFamily::Unix)
    } else if string_eq_str(name, "AF_INET") {
        Some(SocketFamily::Inet)
    } else if string_eq_str(name, "AF_INET6") {
        Some(SocketFamily::Inet6)
    } else if string_eq_str(name, "AF_NETLINK") {
        Some(SocketFamily::Netlink)
    } else if string_eq_str(name, "AF_PACKET") {
        Some(SocketFamily::Packet)
    } else {
        None
    }
}

/// A socket protocol, as derived from the `SOCK_...` type flag.
#[derive(Debug, Clone, Copy, PartialEq, Eq, Structural)]
pub enum SocketProtocol {
    Tcp,
    Udp,
}

impl SetElement for SocketProtocol {
    fn same(&self, other: &Self) -> (r: bool)
        ensures
            r == (*self == *other),
    {
        *self == *other
    }
}

/// What `parse_socket_protocol` accepts, and the protocol each flag means.
pub open spec fn spec_parse_socket_protocol(s: Seq<char>) -> Option<SocketProtocol> {
    if s == "SOCK_STREAM"@ {
        Some(SocketProtocol::Tcp)
    } else if s == "SOCK_DGRAM"@ {
        Some(SocketProtocol::Udp)
    } else {
        None
    }
}

/// The protocol a tracer-printed `SOCK_...` type flag denotes.
pub fn parse_socket_protocol(flag: &String) -> (r: Option<SocketProtocol>)
    ensures
        r == spec_parse_socket_protocol(flag@),
{
    if string_eq_str(flag, "SOCK_STREAM") {
        Some(SocketProtocol::Tcp)
    } else if string_eq_str(flag, "SOCK_DGRAM") {
        Some(SocketProtocol::Udp)
    } else {
        None
    }
}

/// Version of the running service manager.
#[derive(Debug, Clone, Copy, PartialEq, Eq, Structural)]
pub struct SystemdVersion {
    pub major: u32,
    pub minor: u32,
}

impl SystemdVersion {
    pub fn new(major: u32, minor: u32) -> (r: SystemdVersion)
        ensures
            r == (SystemdVersion { major, minor }),
    {
        SystemdVersion { major, minor }
    }

    /// Whether this version is at least the given major version.
    pub fn at_least(&self, major: u32) -> (r: bool)
        ensures
            r == (self.major >= major),
    {
        self.major >= major
    }
}

/// Version of the running kernel.
#[derive(Debug, Clone, Copy, PartialEq, Eq, Structural)]
pub struct KernelVersion {
    pub major: u32,
    pub minor: u32,
    pub patch: u32,
}

impl KernelVersion {
    pub fn new(major: u32, minor: u32, patch: u32) -> (r: KernelVersion)
        ensures
            r == (KernelVersion { major, minor, patch }),
    {
        KernelVersion { major, minor, patch }
    }

    /// Whether this version is at least the given major.minor version.
    pub fn at_least(&self, major: u32, minor: u32) -> (r: bool)
        ensures
            r == (self.major > major || (self.major == major && self.minor >= minor)),
    {
        self.major > major || (self.major == major && self.minor >= minor)
    }
}

/// Whether the options are built for the system manager or a user manager.
#[derive(Debug, Clone, Copy, PartialEq, Eq, Structural)]
pub enum InstanceKind {
    System,
    User,
}

/// The kernel tunables that decide which sandboxing features user managers
/// can use.
#[derive(Debug, Clone, Copy, PartialEq, Eq, Structural)]
pub struct SysctlState {
    /// Whether unprivileged processes may create user namespaces.
    pub unprivileged_userns_clone: bool,
}

impl SysctlState {
    /// The state with every feature available.
    pub fn all() -> (r: SysctlState)
        ensures
            r == (SysctlState { unprivileged_userns_clone: true }),
    {
        SysctlState { unprivileged_userns_clone: true }
    }
}

/// The value a resolved option carries.
#[derive(Debug, PartialEq, Eq)]
pub enum OptionValue {
    Boolean(bool),
    Text(String),
    List(Vec<String>),
}

/// Mathematical image of an `OptionValue`.
#[verifier::ext_equal]
pub enum OptionValueModel {
    Boolean(bool),
    Text(Seq<char>),
    List(Seq<Seq<char>>),
}

impl OptionValue {
    pub open spec fn model(self) -> OptionValueModel {
        match self {
            OptionValue::Boolean(b) => OptionValueModel::Boolean(b),
            OptionValue::Text(s) => OptionValueModel::Text(s@),
            OptionValue::List(vs) => OptionValueModel::List(vs.deep_view()),
        }
    }
}

/// Whether `prefix` is a byte prefix of `p`.
pub open spec fn is_path_prefix(prefix: Seq<u8>, p: Seq<u8>) -> bool {
    prefix.len() <= p.len() && p.subrange(0, prefix.len() as int) == prefix
}

/// Whether the path starts with any of the prefixes.
pub open spec fn under_any(prefixes: Seq<Seq<u8>>, p: Seq<u8>) -> bool {
    exists|i: int| 0 <= i < prefixes.len() && is_path_prefix(#[trigger] prefixes[i], p)
}

/// A deny effect: the predicate over program actions that one candidate
/// option value would prohibit.
#[derive(Debug, PartialEq, Eq)]
pub enum DenyAction {
    /// Denies writes and creations under any of the path prefixes.
    WritesUnder { prefixes: Vec<Vec<u8>> },
    /// Denies writes and creations outside all of the path prefixes.
    WritesOutside { allowed: Vec<Vec<u8>> },
    /// Denies reads under any of the path prefixes.
    ReadsUnder { prefixes: Vec<Vec<u8>> },
    /// Denies network activity whose family, protocol, kind and local port
    /// sets all intersect the pattern's.
    NetworkMatching { pattern: crate::summarize::NetworkActivity },
    /// Denies write-and-execute memory mappings.
    WriteExecuteMemory,
    /// Denies real-time scheduler policies.
    RealtimeScheduler,
    /// Denies creating special files.
    SpecialFiles,
    /// Denies making any of the named syscalls.
    SyscallsAmong { names: Vec<String> },
}

/// Mathematical image of a `DenyAction`.
#[verifier::ext_equal]
pub enum DenyActionModel {
    WritesUnder(Seq<Seq<u8>>),
    WritesOutside(Seq<Seq<u8>>),
    ReadsUnder(Seq<Seq<u8>>),
    NetworkMatching(crate::summarize::NetworkActivityModel),
    WriteExecuteMemory,
    RealtimeScheduler,
    SpecialFiles,
    SyscallsAmong(Seq<Seq<char>>),
}

impl DenyAction {
    pub open spec fn model(self) -> DenyActionModel {
        match self {
            DenyAction::WritesUnder { prefixes } => DenyActionModel::WritesUnder(
                prefixes.deep_view(),
            ),
            DenyAction::WritesOutside { allowed } => DenyActionModel::WritesOutside(
                allowed.deep_view(),
            ),
            DenyAction::ReadsUnder { prefixes } => DenyActionModel::ReadsUnder(
                prefixes.deep_view(),
            ),
            DenyAction::NetworkMatching { pattern } => DenyActionModel::NetworkMatching(
                pattern.model(),
            ),
            DenyAction::WriteExecuteMemory => DenyActionModel::WriteExecuteMemory,
            DenyAction::RealtimeScheduler => DenyActionModel::RealtimeScheduler,
            DenyAction::SpecialFiles => DenyActionModel::SpecialFiles,
            DenyAction::SyscallsAmong { names } => DenyActionModel::SyscallsAmong(
                names.deep_view(),
            ),
        }
    }
}

impl DenyActionModel {
    /// Network patterns carry well-formed port sets.
    pub open spec fn wf(self) -> bool {
        match self {
            DenyActionModel::NetworkMatching(pat) => pat.wf(),
            _ => true,
        }
    }
}

/// Two network activities intersect when all four component sets do.
pub open spec fn network_intersects(
    pat: crate::summarize::NetworkActivityModel,
    na: crate::summarize::NetworkActivityModel,
) -> bool {
    &&& exists|e: SocketFamily| pat.af.spec_contains(e) && na.af.spec_contains(e)
    &&& exists|e: SocketProtocol| pat.proto.spec_contains(e) && na.proto.spec_contains(e)
    &&& exists|e: crate::summarize::NetworkActivityKind|
        pat.kind.spec_contains(e) && na.kind.spec_contains(e)
    &&& exists|v: int| pat.local_port.spec_contains(v) && na.local_port.spec_contains(v)
}

/// Whether a deny effect prohibits an action.
pub open spec fn deny_matches(
    d: DenyActionModel,
    a: crate::summarize::ActionModel,
) -> bool {
    match d {
        DenyActionModel::WritesUnder(prefixes) => match a {
            crate::summarize::ActionModel::Write(p) => under_any(prefixes, p),
            crate::summarize::ActionModel::Create(p) => under_any(prefixes, p),
            _ => false,
        },
        DenyActionModel::WritesOutside(allowed) => match a {
            crate::summarize::ActionModel::Write(p) => !under_any(allowed, p),
            crate::summarize::ActionModel::Create(p) => !under_any(allowed, p),
            _ => false,
        },
        DenyActionModel::ReadsUnder(prefixes) => match a {
            crate::summarize::ActionModel::Read(p) => under_any(prefixes, p),
            _ => false,
        },
        DenyActionModel::NetworkMatching(pat) => match a {
            crate::summarize::ActionModel::NetworkActivity(na) => network_intersects(pat, na),
            _ => false,
        },
        DenyActionModel::WriteExecuteMemory => a is WriteExecuteMemoryMapping,
        DenyActionModel::RealtimeScheduler => a is SetRealtimeScheduler,
        DenyActionModel::SpecialFiles => a is MknodSpecial,
        DenyActionModel::SyscallsAmong(names) => match a {
            crate::summarize::ActionModel::Syscalls(observed) => exists|i: int|
                0 <= i < names.len() && observed.contains(#[trigger] names[i]),
            _ => false,
        },
    }
}

/// Whether the byte string starts with the prefix.
fn bytes_has_prefix(p: &Vec<u8>, prefix: &Vec<u8>) -> (r: bool)
    ensures
        r == is_path_prefix(prefix@, p@),
{
    if prefix.len() > p.len() {
        return false;
    }
    let mut i: usize = 0;
    while i < prefix.len()
        invariant
            0 <= i <= prefix@.len(),
            prefix@.len() <= p@.len(),
            forall|j: int| 0 <= j < i ==> p@[j] == prefix@[j],
        decreases prefix@.len() - i,
    {
        if p[i] != prefix[i] {
            proof {
                assert(p@.subrange(0, prefix@.len() as int)[i as int] != prefix@[i as int]);
            }
            return false;
        }
        i += 1;
    }
    proof {
        assert(p@.subrange(0, prefix@.len() as int) =~= prefix@);
    }
    true
}

/// Whether the path starts with any of the prefixes.
fn under_any_prefix(prefixes: &Vec<Vec<u8>>, p: &Vec<u8>) -> (r: bool)
    ensures
        r == under_any(prefixes.deep_view(), p@),
{
    let mut i: usize = 0;
    while i < prefixes.len()
        invariant
            0 <= i <= prefixes@.len(),
            forall|j: int|
                0 <= j < i ==> !is_path_prefix(#[trigger] prefixes.deep_view()[j], p@),
        decreases prefixes@.len() - i,
    {
        proof {
            assert(prefixes.deep_view()[i as int] == prefixes@[i as int]@);
        }
        if bytes_has_prefix(p, &prefixes[i]) {
            return true;
        }
        i += 1;
    }
    proof {
        if under_any(prefixes.deep_view(), p@) {
            let j = choose|j: int|
                0 <= j < prefixes.deep_view().len() && is_path_prefix(
                    #[trigger] prefixes.deep_view()[j],
                    p@,
                );
        }
    }
    false
}

/// Whether any of the denied names was observed.
fn any_name_observed(names: &Vec<String>, observed: &Vec<String>) -> (r: bool)
    ensures
        r == exists|i: int|
            0 <= i < names.deep_view().len() && observed.deep_view().contains(
                #[trigger] names.deep_view()[i],
            ),
{
    let mut i: usize = 0;
    while i < names.len()
        invariant
            0 <= i <= names@.len(),
            forall|j: int|
                0 <= j < i ==> !observed.deep_view().contains(#[trigger] names.deep_view()[j]),
        decreases names@.len() - i,
    {
        let mut k: usize = 0;
        while k < observed.len()
            invariant
                0 <= k <= observed@.len(),
                0 <= i < names@.len(),
                forall|j: int| 0 <= j < k ==> #[trigger] observed.deep_view()[j]
                    != names.deep_view()[i as int],
            decreases observed@.len() - k,
        {
            proof {
                assert(observed.deep_view()[k as int] == observed@[k as int]@);
                assert(names.deep_view()[i as int] == names@[i as int]@);
            }
            if observed[k] == names[i] {
                proof {
                    assert(observed.deep_view().contains(names.deep_view()[i as int]));
                }
                return true;
            }
            k += 1;
        }
        proof {
            if observed.deep_view().contains(names.deep_view()[i as int]) {
                let j = choose|j: int|
                    0 <= j < observed.deep_view().len() && observed.deep_view()[j]
                        == names.deep_view()[i as int];
            }
        }
        i += 1;
    }
    false
}

/// Whether a deny effect prohibits an action.
pub fn deny_matches_action(d: &DenyAction, a: &crate::summarize::ProgramAction) -> (r: bool)
    requires
        d.model().wf(),
        a.model().wf(),
    ensures
        r == deny_matches(d.model(), a.model()),
{
    match d {
        DenyAction::WritesUnder { prefixes } => match a {
            crate::summarize::ProgramAction::Write(p) => under_any_prefix(prefixes, p),
            crate::summarize::ProgramAction::Create(p) => under_any_prefix(prefixes, p),
            _ => false,
        },
        DenyAction::WritesOutside { allowed } => match a {
            crate::summarize::ProgramAction::Write(p) => !under_any_prefix(allowed, p),
            crate::summarize::ProgramAction::Create(p) => !under_any_prefix(allowed, p),
            _ => false,
        },
        DenyAction::ReadsUnder { prefixes } => match a {
            crate::summarize::ProgramAction::Read(p) => under_any_prefix(prefixes, p),
            _ => false,
        },
        DenyAction::NetworkMatching { pattern } => match a {
            crate::summarize::ProgramAction::NetworkActivity(na) => {
                let r1 = pattern.af.intersects(&na.af);
                let r2 = pattern.proto.intersects(&na.proto);
                let r3 = pattern.kind.intersects(&na.kind);
                let r4 = pattern.local_port.intersects(&na.local_port);
                proof {
                    assert(r1 == (exists|e: SocketFamily|
                        pattern.model().af.spec_contains(e)
                            && na.model().af.spec_contains(e))) by {
                        if r1 {
                            let e = choose|e: SocketFamily|
                                pattern.af.spec_contains(e) && na.af.spec_contains(e);
                            assert(pattern.model().af.spec_contains(e)
                                && na.model().af.spec_contains(e));
                        } else if exists|e: SocketFamily|
                            pattern.model().af.spec_contains(e) && na.model().af.spec_contains(
                            e,
                        ) {
                            let e = choose|e: SocketFamily|
                                pattern.model().af.spec_contains(e)
                                    && na.model().af.spec_contains(e);
                            assert(pattern.af.spec_contains(e) && na.af.spec_contains(e));
                        }
                    }
                    assert(r2 == (exists|e: SocketProtocol|
                        pattern.model().proto.spec_contains(e)
                            && na.model().proto.spec_contains(e))) by {
                        if r2 {
                            let e = choose|e: SocketProtocol|
                                pattern.proto.spec_contains(e) && na.proto.spec_contains(e);
                            assert(pattern.model().proto.spec_contains(e)
                                && na.model().proto.spec_contains(e));
                        } else if exists|e: SocketProtocol|
                            pattern.model().proto.spec_contains(e)
                                && na.model().proto.spec_contains(e) {
                            let e = choose|e: SocketProtocol|
                                pattern.model().proto.spec_contains(e)
                                    && na.model().proto.spec_contains(e);
                            assert(pattern.proto.spec_contains(e) && na.proto.spec_contains(
                                e,
                            ));
                        }
                    }
                    assert(r3 == (exists|e: crate::summarize::NetworkActivityKind|
                        pattern.model().kind.spec_contains(e)
                            && na.model().kind.spec_contains(e))) by {
                        if r3 {
                            let e = choose|e: crate::summarize::NetworkActivityKind|
                                pattern.kind.spec_contains(e) && na.kind.spec_contains(e);
                            assert(pattern.model().kind.spec_contains(e)
                                && na.model().kind.spec_contains(e));
                        } else if exists|e: crate::summarize::NetworkActivityKind|
                            pattern.model().kind.spec_contains(e)
                                && na.model().kind.spec_contains(e) {
                            let e = choose|e: crate::summarize::NetworkActivityKind|
                                pattern.model().kind.spec_contains(e)
                                    && na.model().kind.spec_contains(e);
                            assert(pattern.kind.spec_contains(e) && na.kind.spec_contains(e));
                        }
                    }
                    assert(r4 == (exists|v: int|
                        pattern.model().local_port.spec_contains(v)
                            && na.model().local_port.spec_contains(v))) by {
                        if r4 {
                            let v = choose|v: int|
                                pattern.local_port.spec_contains(v)
                                    && na.local_port.spec_contains(v);
                            assert(pattern.model().local_port.spec_contains(v)
                                && na.model().local_port.spec_contains(v));
                        } else if exists|v: int|
                            pattern.model().local_port.spec_contains(v)
                                && na.model().local_port.spec_contains(v) {
                            let v = choose|v: int|
                                pattern.model().local_port.spec_contains(v)
                                    && na.model().local_port.spec_contains(v);
                            assert(pattern.local_port.spec_contains(v)
                                && na.local_port.spec_contains(v));
                        }
                    }
                }
                r1 && r2 && r3 && r4
            },
            _ => false,
        },
        DenyAction::WriteExecuteMemory => matches!(
            a,
            crate::summarize::ProgramAction::WriteExecuteMemoryMapping,
        ),
        DenyAction::RealtimeScheduler => matches!(
            a,
            crate::summarize::ProgramAction::SetRealtimeScheduler,
        ),
        DenyAction::SpecialFiles => matches!(a, crate::summarize::ProgramAction::MknodSpecial),
        DenyAction::SyscallsAmong { names } => match a {
            crate::summarize::ProgramAction::Syscalls(observed) => any_name_observed(
                names,
                observed,
            ),
            _ => false,
        },
    }
}

/// One candidate value of a sandboxing option, with what it would deny.
#[derive(Debug, PartialEq, Eq)]
pub struct OptionValueDescription {
    pub value: OptionValue,
    pub deny: Vec<DenyAction>,
}

/// Mathematical image of an `OptionValueDescription`.
#[verifier::ext_equal]
pub struct OptionValueDescModel {
    pub value: OptionValueModel,
    pub deny: Seq<DenyActionModel>,
}

impl OptionValueDescription {
    pub open spec fn model(self) -> OptionValueDescModel {
        OptionValueDescModel {
            value: self.value.model(),
            deny: self.deny@.map_values(|d: DenyAction| d.model()),
        }
    }
}

/// One sandboxing option of the catalog, its candidate values listed from
/// least to most restrictive.
#[derive(Debug, PartialEq, Eq)]
pub struct OptionDescription {
    pub name: String,
    pub possible_values: Vec<OptionValueDescription>,
    /// Whether compatible list values are merged instead of one being picked.
    pub mergeable: bool,
}

/// Mathematical image of an `OptionDescription`.
#[verifier::ext_equal]
pub struct OptionModel {
    pub name: Seq<char>,
    pub values: Seq<OptionValueDescModel>,
    pub mergeable: bool,
}

impl OptionDescription {
    pub open spec fn model(self) -> OptionModel {
        OptionModel {
            name: self.name@,
            values: self.possible_values@.map_values(|v: OptionValueDescription| v.model()),
            mergeable: self.mergeable,
        }
    }
}

impl OptionModel {
    /// A usable catalog entry: a name, at least one candidate, well-formed
    /// deny effects, and only list values on a mergeable option.
    pub open spec fn wf(self) -> bool {
        &&& self.name.len() > 0
        &&& self.values.len() >= 1
        &&& forall|i: int, j: int|
            0 <= i < self.values.len() && 0 <= j < self.values[i].deny.len()
                ==> (#[trigger] self.values[i].deny[j]).wf()
        &&& self.mergeable ==> forall|i: int|
            0 <= i < self.values.len() ==> (#[trigger] self.values[i]).value is List
    }
}

/// A resolved option: the strongest compatible value found for it.
#[derive(Debug, PartialEq, Eq)]
pub struct ResolvedOption {
    pub name: String,
    pub value: OptionValue,
}

/// Mathematical image of a `ResolvedOption`.
#[verifier::ext_equal]
pub struct ResolvedModel {
    pub name: Seq<char>,
    pub value: OptionValueModel,
}

impl ResolvedOption {
    pub open spec fn model(self) -> ResolvedModel {
        ResolvedModel { name: self.name@, value: self.value.model() }
    }
}

/// A candidate is compatible when none of its deny effects matches any
/// observed action.
pub open spec fn value_compatible(
    vd: OptionValueDescModel,
    acts: Seq<crate::summarize::ActionModel>,
) -> bool {
    forall|i: int, j: int|
        0 <= i < acts.len() && 0 <= j < vd.deny.len() ==> !deny_matches(
            #[trigger] vd.deny[j],
            #[trigger] acts[i],
        )
}

/// The most restrictive compatible candidate among the first `n`: candidates
/// are listed least restrictive first, so the last compatible one wins.
pub open spec fn chosen_upto(
    values: Seq<OptionValueDescModel>,
    acts: Seq<crate::summarize::ActionModel>,
    n: int,
) -> Option<int>
    decreases n,
{
    if n <= 0 {
        None
    } else if value_compatible(values[n - 1], acts) {
        Some(n - 1)
    } else {
        chosen_upto(values, acts, n - 1)
    }
}

/// The most restrictive compatible candidate of the option.
pub open spec fn chosen_index(
    o: OptionModel,
    acts: Seq<crate::summarize::ActionModel>,
) -> Option<int> {
    chosen_upto(o.values, acts, o.values.len() as int)
}

/// The union, in catalog order, of the list entries of the compatible
/// candidates among the first `n`.
pub open spec fn merged_upto(
    values: Seq<OptionValueDescModel>,
    acts: Seq<crate::summarize::ActionModel>,
    n: int,
) -> Seq<Seq<char>>
    decreases n,
{
    if n <= 0 {
        Seq::empty()
    } else {
        merged_upto(values, acts, n - 1) + (if value_compatible(values[n - 1], acts)
            && values[n - 1].value is List {
            values[n - 1].value->List_0
        } else {
            Seq::empty()
        })
    }
}

/// What the resolver yields for one option: for a mergeable option the merged
/// list of all compatible candidates, otherwise the most restrictive
/// compatible candidate; nothing when no candidate is compatible.
pub open spec fn resolve_option_spec(
    o: OptionModel,
    acts: Seq<crate::summarize::ActionModel>,
) -> Option<ResolvedModel> {
    if o.mergeable {
        let merged = merged_upto(o.values, acts, o.values.len() as int);
        if merged.len() > 0 {
            Some(ResolvedModel { name: o.name, value: OptionValueModel::List(merged) })
        } else {
            None
        }
    } else {
        match chosen_index(o, acts) {
            Some(i) => Some(ResolvedModel { name: o.name, value: o.values[i].value }),
            None => None,
        }
    }
}

/// What the resolver yields for the first `n` options, in catalog order.
pub open spec fn resolve_upto(
    catalog: Seq<OptionModel>,
    acts: Seq<crate::summarize::ActionModel>,
    n: int,
) -> Seq<ResolvedModel>
    decreases n,
{
    if n <= 0 {
        Seq::empty()
    } else {
        resolve_upto(catalog, acts, n - 1) + (match resolve_option_spec(catalog[n - 1], acts) {
            Some(r) => seq![r],
            None => Seq::empty(),
        })
    }
}

/// What the resolver yields for the whole catalog.
pub open spec fn resolve_spec(
    catalog: Seq<OptionModel>,
    acts: Seq<crate::summarize::ActionModel>,
) -> Seq<ResolvedModel> {
    resolve_upto(catalog, acts, catalog.len() as int)
}

/// The models of a catalog.
pub open spec fn catalog_models(v: Seq<OptionDescription>) -> Seq<OptionModel> {
    v.map_values(|o: OptionDescription| o.model())
}

/// The models of a resolver result.
pub open spec fn resolved_models(v: Seq<ResolvedOption>) -> Seq<ResolvedModel> {
    v.map_values(|r: ResolvedOption| r.model())
}

/// Whether the candidate is compatible with every observed action.
#[verifier::loop_isolation(false)]
fn value_compatible_exec(
    vd: &OptionValueDescription,
    actions: &Vec<crate::summarize::ProgramAction>,
) -> (r: bool)
    requires
        forall|j: int| 0 <= j < vd.deny@.len() ==> (#[trigger] vd.deny@[j]).model().wf(),
        forall|i: int| 0 <= i < actions@.len() ==> (#[trigger] actions@[i]).model().wf(),
    ensures
        r == value_compatible(vd.model(), actions@.map_values(|a: crate::summarize::ProgramAction| a.model())),
{
    let ghost acts = actions@.map_values(|a: crate::summarize::ProgramAction| a.model());
    let mut j: usize = 0;
    while j < vd.deny.len()
        invariant
            0 <= j <= vd.deny@.len(),
            acts == actions@.map_values(|a: crate::summarize::ProgramAction| a.model()),
            forall|jj: int| 0 <= jj < vd.deny@.len() ==> (#[trigger] vd.deny@[jj]).model().wf(),
            forall|i: int| 0 <= i < actions@.len() ==> (#[trigger] actions@[i]).model().wf(),
            forall|i: int, jj: int|
                0 <= i < acts.len() && 0 <= jj < j ==> !deny_matches(
                    #[trigger] vd.model().deny[jj],
                    #[trigger] acts[i],
                ),
        decreases vd.deny@.len() - j,
    {
        let mut i: usize = 0;
        while i < actions.len()
            invariant
                0 <= i <= actions@.len(),
                0 <= j < vd.deny@.len(),
                acts == actions@.map_values(|a: crate::summarize::ProgramAction| a.model()),
                forall|jj: int|
                    0 <= jj < vd.deny@.len() ==> (#[trigger] vd.deny@[jj]).model().wf(),
                forall|ii: int| 0 <= ii < actions@.len() ==> (#[trigger] actions@[ii]).model().wf(),
                forall|ii: int|
                    0 <= ii < i ==> !deny_matches(
                        vd.model().deny[j as int],
                        #[trigger] acts[ii],
                    ),
            decreases actions@.len() - i,
        {
            if deny_matches_action(&vd.deny[j], &actions[i]) {
                proof {
                    assert(vd.model().deny[j as int] == vd.deny@[j as int].model());
                    assert(acts[i as int] == actions@[i as int].model());
                    assert(deny_matches(vd.model().deny[j as int], acts[i as int]));
                }
                return false;
            }
            i += 1;
        }
        j += 1;
    }
    true
}

/// Copies an option value.
#[verifier::loop_isolation(false)]
fn clone_option_value(v: &OptionValue) -> (r: OptionValue)
    ensures
        r.model() == v.model(),
{
    match v {
        OptionValue::Boolean(b) => OptionValue::Boolean(*b),
        OptionValue::Text(s) => OptionValue::Text(s.clone()),
        OptionValue::List(vs) => {
            let mut out: Vec<String> = Vec::new();
            let mut i: usize = 0;
            while i < vs.len()
                invariant
                    0 <= i <= vs@.len(),
                    out.deep_view() == vs.deep_view().take(i as int),
                decreases vs@.len() - i,
            {
                out.push(vs[i].clone());
                proof {
                    assert(out.deep_view() =~= vs.deep_view().take(i as int + 1));
                }
                i += 1;
            }
            proof {
                assert(out.deep_view() =~= vs.deep_view());
                assert(OptionValue::List(out).model() =~= v.model());
            }
            OptionValue::List(out)
        },
    }
}

/// Appends copies of all the strings of `src`.
fn append_strings(dst: &mut Vec<String>, src: &Vec<String>)
    ensures
        final(dst).deep_view() == old(dst).deep_view() + src.deep_view(),
{
    let mut i: usize = 0;
    while i < src.len()
        invariant
            0 <= i <= src@.len(),
            dst.deep_view() == old(dst).deep_view() + src.deep_view().take(i as int),
        decreases src@.len() - i,
    {
        let ghost prev = dst.deep_view();
        let c = src[i].clone();
        dst.push(c);
        proof {
            assert(dst.deep_view() =~= prev.push(c@));
            assert(dst.deep_view() =~= old(dst).deep_view() + src.deep_view().take(
                i as int + 1,
            ));
        }
        i += 1;
    }
    proof {
        assert(dst.deep_view() =~= old(dst).deep_view() + src.deep_view());
    }
}

/// Resolves one option against the observed actions.
#[verifier::loop_isolation(false)]
fn resolve_one(
    o: &OptionDescription,
    actions: &Vec<crate::summarize::ProgramAction>,
) -> (r: Option<ResolvedOption>)
    requires
        o.model().wf(),
        forall|i: int| 0 <= i < actions@.len() ==> (#[trigger] actions@[i]).model().wf(),
    ensures
        r is Some == resolve_option_spec(
            o.model(),
            actions@.map_values(|a: crate::summarize::ProgramAction| a.model()),
        ) is Some,
        r matches Some(ro) ==> ro.model() == resolve_option_spec(
            o.model(),
            actions@.map_values(|a: crate::summarize::ProgramAction| a.model()),
        ).unwrap(),
{
    let ghost acts = actions@.map_values(|a: crate::summarize::ProgramAction| a.model());
    let ghost om = o.model();
    proof {
        assert forall|k: int|
            0 <= k < o.possible_values@.len() implies #[trigger] om.values[k]
            == o.possible_values@[k].model() by {}
        assert forall|k: int, j: int|
            0 <= k < o.possible_values@.len() && 0 <= j
                < o.possible_values@[k].deny@.len() implies (
        #[trigger] o.possible_values@[k].deny@[j]).model().wf() by {
            assert(om.values[k].deny[j] == o.possible_values@[k].deny@[j].model());
        }
    }
    if o.mergeable {
        let mut merged: Vec<String> = Vec::new();
        let mut k: usize = 0;
        while k < o.possible_values.len()
            invariant
                0 <= k <= o.possible_values@.len(),
                om == o.model(),
                acts == actions@.map_values(|a: crate::summarize::ProgramAction| a.model()),
                om.wf(),
                forall|i: int| 0 <= i < actions@.len() ==> (#[trigger] actions@[i]).model().wf(),
                merged.deep_view() == merged_upto(om.values, acts, k as int),
            decreases o.possible_values@.len() - k,
        {
            let vd = &o.possible_values[k];
            proof {
                assert(om.values[k as int] == vd.model());
                assert forall|j: int|
                    0 <= j < vd.deny@.len() implies (#[trigger] vd.deny@[j]).model().wf() by {
                    assert(om.values[k as int].deny[j] == vd.deny@[j].model());
                }
            }
            let ghost pre = merged.deep_view();
            if value_compatible_exec(vd, actions) {
                match &vd.value {
                    OptionValue::List(vs) => {
                        append_strings(&mut merged, vs);
                        proof {
                            assert(vd.model().value->List_0 =~= vs.deep_view());
                        }
                    },
                    _ => {
                        proof {
                            assert(false);
                        }
                    },
                }
            } else {
                proof {
                    assert(merged.deep_view() =~= pre + Seq::<Seq<char>>::empty());
                }
            }
            proof {
                assert(merged.deep_view() =~= merged_upto(om.values, acts, k as int + 1));
            }
            k += 1;
        }
        if merged.len() > 0 {
            proof {
                assert(merged.deep_view().len() == merged@.len());
            }
            Some(ResolvedOption { name: o.name.clone(), value: OptionValue::List(merged) })
        } else {
            proof {
                assert(merged.deep_view().len() == merged@.len());
            }
            None
        }
    } else {
        let mut best: Option<usize> = None;
        let mut k: usize = 0;
        while k < o.possible_values.len()
            invariant
                0 <= k <= o.possible_values@.len(),
                om == o.model(),
                acts == actions@.map_values(|a: crate::summarize::ProgramAction| a.model()),
                om.wf(),
                forall|i: int| 0 <= i < actions@.len() ==> (#[trigger] actions@[i]).model().wf(),
                match best {
                    Some(b) => b < k && chosen_upto(om.values, acts, k as int) == Some(
                        b as int,
                    ),
                    None => chosen_upto(om.values, acts, k as int) is None,
                },
            decreases o.possible_values@.len() - k,
        {
            let vd = &o.possible_values[k];
            proof {
                assert(om.values[k as int] == vd.model());
                assert forall|j: int|
                    0 <= j < vd.deny@.len() implies (#[trigger] vd.deny@[j]).model().wf() by {
                    assert(om.values[k as int].deny[j] == vd.deny@[j].model());
                }
            }
            if value_compatible_exec(vd, actions) {
                best = Some(k);
            }
            k += 1;
        }
        match best {
            Some(b) => {
                let ro = ResolvedOption {
                    name: o.name.clone(),
                    value: clone_option_value(&o.possible_values[b].value),
                };
                proof {
                    assert(om.values[b as int] == o.possible_values@[b as int].model());
                }
                Some(ro)
            },
            None => None,
        }
    }
}

/// Computes, for every option of the catalog, the most restrictive value
/// whose deny effects are compatible with the observed actions; options with
/// no compatible value are omitted, and mergeable list options merge all
/// compatible entries.
#[verifier::loop_isolation(false)]
pub fn resolve(
    sd_opts: &Vec<OptionDescription>,
    actions: &Vec<crate::summarize::ProgramAction>,
) -> (r: Vec<ResolvedOption>)
    requires
        forall|k: int| 0 <= k < sd_opts@.len() ==> (#[trigger] sd_opts@[k]).model().wf(),
        forall|i: int| 0 <= i < actions@.len() ==> (#[trigger] actions@[i]).model().wf(),
    ensures
        resolved_models(r@) == resolve_spec(
            catalog_models(sd_opts@),
            actions@.map_values(|a: crate::summarize::ProgramAction| a.model()),
        ),
{
    let ghost acts = actions@.map_values(|a: crate::summarize::ProgramAction| a.model());
    let ghost cat = catalog_models(sd_opts@);
    let mut out: Vec<ResolvedOption> = Vec::new();
    let mut k: usize = 0;
    proof {
        assert(resolved_models(out@) =~= resolve_upto(cat, acts, 0));
    }
    while k < sd_opts.len()
        invariant
            0 <= k <= sd_opts@.len(),
            acts == actions@.map_values(|a: crate::summarize::ProgramAction| a.model()),
            cat == catalog_models(sd_opts@),
            forall|kk: int| 0 <= kk < sd_opts@.len() ==> (#[trigger] sd_opts@[kk]).model().wf(),
            forall|i: int| 0 <= i < actions@.len() ==> (#[trigger] actions@[i]).model().wf(),
            resolved_models(out@) == resolve_upto(cat, acts, k as int),
        decreases sd_opts@.len() - k,
    {
        let ghost pre = resolved_models(out@);
        proof {
            assert(cat[k as int] == sd_opts@[k as int].model());
        }
        match resolve_one(&sd_opts[k], actions) {
            Some(ro) => {
                out.push(ro);
                proof {
                    assert(resolved_models(out@) =~= pre.push(ro.model()));
                    assert(resolved_models(out@) =~= resolve_upto(cat, acts, k as int + 1));
                }
            },
            None => {
                proof {
                    assert(resolved_models(out@) =~= resolve_upto(cat, acts, k as int + 1));
                }
            },
        }
        k += 1;
    }
    out
}

/// Compatibility only shrinks when actions are added.
proof fn lemma_compat_superset(
    vd: OptionValueDescModel,
    acts1: Seq<crate::summarize::ActionModel>,
    acts2: Seq<crate::summarize::ActionModel>,
)
    requires
        forall|i: int| 0 <= i < acts1.len() ==> acts2.contains(#[trigger] acts1[i]),
        value_compatible(vd, acts2),
    ensures
        value_compatible(vd, acts1),
{
    assert forall|i: int, j: int|
        0 <= i < acts1.len() && 0 <= j < vd.deny.len() implies !deny_matches(
        #[trigger] vd.deny[j],
        #[trigger] acts1[i],
    ) by {
        let k = choose|k: int| 0 <= k < acts2.len() && acts2[k] == acts1[i];
        assert(!deny_matches(vd.deny[j], acts2[k]));
    }
}

/// The chosen candidate moves only toward less restrictive under more actions.
proof fn lemma_chosen_monotone(
    values: Seq<OptionValueDescModel>,
    acts1: Seq<crate::summarize::ActionModel>,
    acts2: Seq<crate::summarize::ActionModel>,
    n: int,
)
    requires
        forall|i: int| 0 <= i < acts1.len() ==> acts2.contains(#[trigger] acts1[i]),
    ensures
        chosen_upto(values, acts2, n) matches Some(j2) ==> chosen_upto(values, acts1, n)
            matches Some(j1) && j2 <= j1,
    decreases n,
{
    if n > 0 {
        lemma_chosen_monotone(values, acts1, acts2, n - 1);
        if value_compatible(values[n - 1], acts2) {
            lemma_compat_superset(values[n - 1], acts1, acts2);
            assert(chosen_upto(values, acts2, n) == Some(n - 1));
            assert(chosen_upto(values, acts1, n) == Some(n - 1));
        } else {
            assert(chosen_upto(values, acts2, n) == chosen_upto(values, acts2, n - 1));
            if chosen_upto(values, acts2, n - 1) is Some {
                let j2 = chosen_upto(values, acts2, n - 1).unwrap();
                let j1 = chosen_upto(values, acts1, n - 1).unwrap();
                if value_compatible(values[n - 1], acts1) {
                    assert(chosen_upto(values, acts1, n) == Some(n - 1));
                    assert(j2 <= n - 1) by {
                        lemma_chosen_upto_range(values, acts2, n - 1);
                    }
                } else {
                    assert(chosen_upto(values, acts1, n) == Some(j1));
                }
            }
        }
    }
}

/// A chosen candidate index lies among the first `n`.
proof fn lemma_chosen_upto_range(
    values: Seq<OptionValueDescModel>,
    acts: Seq<crate::summarize::ActionModel>,
    n: int,
)
    ensures
        chosen_upto(values, acts, n) matches Some(j) ==> 0 <= j < n,
    decreases n,
{
    if n > 0 {
        lemma_chosen_upto_range(values, acts, n - 1);
    }
}

/// Resolver monotonicity: when every action observed before is still observed
/// (the action set only grows), the value chosen for an option can only move
/// to an earlier — less restrictive — candidate, or the option can drop out;
/// it never moves to a more restrictive candidate.
pub proof fn lemma_resolver_monotone(
    o: OptionModel,
    acts1: Seq<crate::summarize::ActionModel>,
    acts2: Seq<crate::summarize::ActionModel>,
)
    requires
        forall|i: int| 0 <= i < acts1.len() ==> acts2.contains(#[trigger] acts1[i]),
    ensures
        chosen_index(o, acts2) matches Some(j2) ==> chosen_index(o, acts1) matches Some(j1)
            && j2 <= j1,
{
    lemma_chosen_monotone(o.values, acts1, acts2, o.values.len() as int);
}

/// The rendered text of one option value.
pub open spec fn emit_value(v: OptionValueModel) -> Seq<char> {
    match v {
        OptionValueModel::Boolean(b) => if b {
            "true"@
        } else {
            "false"@
        },
        OptionValueModel::Text(s) => s,
        OptionValueModel::List(vs) => join_words(vs),
    }
}

/// The words joined by single spaces.
pub open spec fn join_words(vs: Seq<Seq<char>>) -> Seq<char>
    decreases vs.len(),
{
    if vs.len() == 0 {
        Seq::empty()
    } else if vs.len() == 1 {
        vs[0]
    } else {
        join_words(vs.drop_last()) + " "@ + vs.last()
    }
}

/// The rendered configuration: one `Name=Value` line per resolved option, in
/// order.
pub open spec fn emit_spec(rs: Seq<ResolvedModel>) -> Seq<char>
    decreases rs.len(),
{
    if rs.len() == 0 {
        Seq::empty()
    } else {
        emit_spec(rs.drop_last()) + rs.last().name + "="@ + emit_value(rs.last().value)
            + "\n"@
    }
}

/// Renders resolved options as service-manager directive text: one
/// `Name=Value` line per option, list values space-separated, booleans in
/// lowercase. The emitter has no policy; it only formats.
#[verifier::loop_isolation(false)]
pub fn emit_config(resolved: &Vec<ResolvedOption>) -> (r: String)
    ensures
        r@ == emit_spec(resolved_models(resolved@)),
{
    let ghost rms = resolved_models(resolved@);
    let mut out = String::new();
    let mut k: usize = 0;
    proof {
        assert(out@ =~= emit_spec(rms.take(0)));
    }
    while k < resolved.len()
        invariant
            0 <= k <= resolved@.len(),
            out@ == emit_spec(rms.take(k as int)),
        decreases resolved@.len() - k,
    {
        let ro = &resolved[k];
        out.append(ro.name.as_str());
        out.append("=");
        let ghost base = out@;
        match &ro.value {
            OptionValue::Boolean(b) => {
                if *b {
                    out.append("true");
                } else {
                    out.append("false");
                }
            },
            OptionValue::Text(s) => {
                out.append(s.as_str());
            },
            OptionValue::List(vs) => {
                let ghost words = vs.deep_view();
                let mut i: usize = 0;
                while i < vs.len()
                    invariant
                        0 <= i <= vs@.len(),
                        words == vs.deep_view(),
                        out@ == base + join_words(words.take(i as int)),
                    decreases vs@.len() - i,
                {
                    if i > 0 {
                        out.append(" ");
                    }
                    out.append(vs[i].as_str());
                    proof {
                        assert(words.take(i as int + 1).drop_last() =~= words.take(i as int));
                        assert(words.take(i as int + 1).last() == words[i as int]);
                        if i == 0 {
                            assert(out@ =~= base + join_words(words.take(1)));
                        } else {
                            assert(out@ =~= base + join_words(words.take(i as int + 1)));
                        }
                    }
                    i += 1;
                }
                proof {
                    assert(words.take(vs@.len() as int) =~= words);
                }
            },
        }
        out.append("\n");
        proof {
            assert(rms.take(k as int + 1).drop_last() =~= rms.take(k as int));
            assert(rms.take(k as int + 1).last() == rms[k as int]);
            assert(rms[k as int] == ro.model());
            assert(out@ =~= emit_spec(rms.take(k as int + 1)));
        }
        k += 1;
    }
    proof {
        assert(rms.take(resolved@.len() as int) =~= rms);
    }
    out
}

/// Catalog determinism: resolving a catalog against an action stream and
/// emitting the result is a pure function — the same catalog and the same
/// stream give byte-identical output.
pub proof fn lemma_emitter_deterministic(
    cat1: Seq<OptionModel>,
    acts1: Seq<crate::summarize::ActionModel>,
    cat2: Seq<OptionModel>,
    acts2: Seq<crate::summarize::ActionModel>,
)
    requires
        cat1 == cat2,
        acts1 == acts2,
    ensures
        emit_spec(resolve_spec(cat1, acts1)) == emit_spec(resolve_spec(cat2, acts2)),
{
}

/// The home hierarchies `ProtectHome` shields.
pub open spec fn home_paths() -> Seq<Seq<u8>> {
    seq!["/home".spec_bytes(), "/root".spec_bytes(), "/run/user".spec_bytes()]
}

/// The model of a one-candidate boolean option.
pub open spec fn bool_option_model(name: Seq<char>, deny: Seq<DenyActionModel>) -> OptionModel {
    OptionModel {
        name,
        values: seq![
            OptionValueDescModel { value: OptionValueModel::Boolean(true), deny }
        ],
        mergeable: false,
    }
}

/// The model of the `ProtectSystem` option.
pub open spec fn protect_system_model() -> OptionModel {
    OptionModel {
        name: "ProtectSystem"@,
        values: seq![
            OptionValueDescModel {
                value: OptionValueModel::Text("true"@),
                deny: seq![
                    DenyActionModel::WritesUnder(
                        seq!["/usr".spec_bytes(), "/boot".spec_bytes(), "/efi".spec_bytes()],
                    )
                ],
            },
            OptionValueDescModel {
                value: OptionValueModel::Text("full"@),
                deny: seq![
                    DenyActionModel::WritesUnder(
                        seq![
                            "/usr".spec_bytes(),
                            "/boot".spec_bytes(),
                            "/efi".spec_bytes(),
                            "/etc".spec_bytes(),
                        ],
                    )
                ],
            },
            OptionValueDescModel {
                value: OptionValueModel::Text("strict"@),
                deny: seq![
                    DenyActionModel::WritesOutside(
                        seq![
                            "/dev".spec_bytes(),
                            "/proc".spec_bytes(),
                            "/run".spec_bytes(),
                            "/sys".spec_bytes(),
                            "/tmp".spec_bytes(),
                            "/var".spec_bytes(),
                        ],
                    )
                ],
            },
        ],
        mergeable: false,
    }
}

/// The model of the `ProtectHome` option; the hiding candidate appears only
/// under aggressive hardening.
pub open spec fn protect_home_model(aggressive: bool) -> OptionModel {
    OptionModel {
        name: "ProtectHome"@,
        values: seq![
            OptionValueDescModel {
                value: OptionValueModel::Text("read-only"@),
                deny: seq![DenyActionModel::WritesUnder(home_paths())],
            }
        ] + (if aggressive {
            seq![
                OptionValueDescModel {
                    value: OptionValueModel::Text("true"@),
                    deny: seq![
                        DenyActionModel::WritesUnder(home_paths()),
                        DenyActionModel::ReadsUnder(home_paths()),
                    ],
                }
            ]
        } else {
            Seq::<OptionValueDescModel>::empty()
        }),
        mergeable: false,
    }
}

/// The network pattern that matches every activity.
pub open spec fn any_network_model() -> crate::summarize::NetworkActivityModel {
    crate::summarize::NetworkActivityModel {
        af: crate::sets::SetSpecModel::All,
        proto: crate::sets::SetSpecModel::All,
        kind: crate::sets::SetSpecModel::All,
        local_port: crate::sets::CountableSetModel::All,
    }
}

/// The model of one mergeable `SystemCallFilter` candidate.
pub open spec fn syscall_filter_value_model(
    group: Seq<char>,
    names: Seq<Seq<char>>,
) -> OptionValueDescModel {
    OptionValueDescModel {
        value: OptionValueModel::List(seq![group]),
        deny: seq![DenyActionModel::SyscallsAmong(names)],
    }
}

/// The model of the `SystemCallFilter` option.
pub open spec fn syscall_filter_model() -> OptionModel {
    OptionModel {
        name: "SystemCallFilter"@,
        values: seq![
            syscall_filter_value_model(
                "~@clock"@,
                seq!["adjtimex"@, "clock_adjtime"@, "clock_settime"@, "settimeofday"@],
            ),
            syscall_filter_value_model(
                "~@module"@,
                seq!["init_module"@, "finit_module"@, "delete_module"@, "query_module"@],
            ),
            syscall_filter_value_model(
                "~@reboot"@,
                seq!["reboot"@, "kexec_load"@, "kexec_file_load"@, "reboot"@],
            ),
            syscall_filter_value_model(
                "~@swap"@,
                seq!["swapon"@, "swapoff"@, "swapon"@, "swapoff"@],
            ),
        ],
        mergeable: true,
    }
}

/// The model of the `IPAddressDeny` option.
pub open spec fn ip_address_deny_model() -> OptionModel {
    OptionModel {
        name: "IPAddressDeny"@,
        values: seq![
            OptionValueDescModel {
                value: OptionValueModel::List(seq!["any"@]),
                deny: seq![
                    DenyActionModel::NetworkMatching(
                        crate::summarize::NetworkActivityModel {
                            af: crate::sets::SetSpecModel::SomeOf(
                                seq![SocketFamily::Inet, SocketFamily::Inet6],
                            ),
                            proto: crate::sets::SetSpecModel::All,
                            kind: crate::sets::SetSpecModel::All,
                            local_port: crate::sets::CountableSetModel::All,
                        },
                    )
                ],
            }
        ],
        mergeable: false,
    }
}

/// The bytes of an option path.
fn path_bytes(s: &str) -> (r: Vec<u8>)
    ensures
        r@ == s.spec_bytes(),
{
    s.as_bytes_vec()
}

/// A boolean option with one candidate, `true`, carrying the given denials.
fn bool_option(name: &str, deny: Vec<DenyAction>) -> (r: OptionDescription)
    requires
        name@.len() > 0,
        forall|j: int| 0 <= j < deny@.len() ==> (#[trigger] deny@[j]).model().wf(),
    ensures
        r.model().wf(),
        r.model() == bool_option_model(name@, deny@.map_values(|d: DenyAction| d.model())),
{
    let ghost denym = deny@.map_values(|d: DenyAction| d.model());
    let mut vals: Vec<OptionValueDescription> = Vec::new();
    vals.push(OptionValueDescription { value: OptionValue::Boolean(true), deny });
    let r = OptionDescription {
        name: name.to_owned(),
        possible_values: vals,
        mergeable: false,
    };
    proof {
        assert forall|i: int, j: int|
            0 <= i < r.model().values.len() && 0 <= j
                < r.model().values[i].deny.len() implies (
        #[trigger] r.model().values[i].deny[j]).wf() by {
            assert(r.model().values[i] == r.possible_values@[i].model());
            assert(r.model().values[i].deny[j] == r.possible_values@[i].deny@[j].model());
        }
        assert(r.model().values[0].deny =~= denym);
        assert(r.model() =~~= bool_option_model(name@, denym));
    }
    r
}

/// A candidate value denying writes and creations under the given paths.
fn writes_under(paths: Vec<Vec<u8>>) -> (r: Vec<DenyAction>)
    ensures
        forall|j: int| 0 <= j < r@.len() ==> (#[trigger] r@[j]).model().wf(),
        r@.map_values(|d: DenyAction| d.model()) == seq![
            DenyActionModel::WritesUnder(paths.deep_view())
        ],
{
    let ghost pv = paths.deep_view();
    let mut deny: Vec<DenyAction> = Vec::new();
    deny.push(DenyAction::WritesUnder { prefixes: paths });
    proof {
        lemma_plain_denies_wf(deny@);
        assert(deny@.map_values(|d: DenyAction| d.model()) =~= seq![
            DenyActionModel::WritesUnder(pv)
        ]);
    }
    deny
}

/// Deny effects other than network patterns are well-formed as they stand.
proof fn lemma_plain_denies_wf(deny: Seq<DenyAction>)
    requires
        forall|j: int| 0 <= j < deny.len() ==> !((#[trigger] deny[j]) is NetworkMatching),
    ensures
        forall|j: int| 0 <= j < deny.len() ==> (#[trigger] deny[j]).model().wf(),
{
}

/// The `ProtectSystem` option: ever larger parts of the system hierarchy
/// become read-only, from `/usr` alone up to everything but the volatile
/// trees.
fn opt_protect_system() -> (r: OptionDescription)
    ensures
        r.model().wf(),
        r.model() == protect_system_model(),
{
    let mut vals: Vec<OptionValueDescription> = Vec::new();
    let mut p1: Vec<Vec<u8>> = Vec::new();
    p1.push(path_bytes("/usr"));
    p1.push(path_bytes("/boot"));
    p1.push(path_bytes("/efi"));
    proof {
        assert(p1.deep_view() =~~= seq![
            "/usr".spec_bytes(),
            "/boot".spec_bytes(),
            "/efi".spec_bytes(),
        ]);
    }
    vals.push(
        OptionValueDescription {
            value: OptionValue::Text("true".to_owned()),
            deny: writes_under(p1),
        },
    );
    let mut p2: Vec<Vec<u8>> = Vec::new();
    p2.push(path_bytes("/usr"));
    p2.push(path_bytes("/boot"));
    p2.push(path_bytes("/efi"));
    p2.push(path_bytes("/etc"));
    proof {
        assert(p2.deep_view() =~~= seq![
            "/usr".spec_bytes(),
            "/boot".spec_bytes(),
            "/efi".spec_bytes(),
            "/etc".spec_bytes(),
        ]);
    }
    vals.push(
        OptionValueDescription {
            value: OptionValue::Text("full".to_owned()),
            deny: writes_under(p2),
        },
    );
    let mut allowed: Vec<Vec<u8>> = Vec::new();
    allowed.push(path_bytes("/dev"));
    allowed.push(path_bytes("/proc"));
    allowed.push(path_bytes("/run"));
    allowed.push(path_bytes("/sys"));
    allowed.push(path_bytes("/tmp"));
    allowed.push(path_bytes("/var"));
    proof {
        assert(allowed.deep_view() =~~= seq![
            "/dev".spec_bytes(),
            "/proc".spec_bytes(),
            "/run".spec_bytes(),
            "/sys".spec_bytes(),
            "/tmp".spec_bytes(),
            "/var".spec_bytes(),
        ]);
    }
    let ghost allowedv = allowed.deep_view();
    let mut d3: Vec<DenyAction> = Vec::new();
    d3.push(DenyAction::WritesOutside { allowed });
    proof {
        lemma_plain_denies_wf(d3@);
        assert(d3@.map_values(|d: DenyAction| d.model()) =~= seq![
            DenyActionModel::WritesOutside(allowedv)
        ]);
    }
    vals.push(
        OptionValueDescription { value: OptionValue::Text("strict".to_owned()), deny: d3 },
    );
    let r = OptionDescription {
        name: "ProtectSystem".to_owned(),
        possible_values: vals,
        mergeable: false,
    };
    proof {
        reveal_strlit("ProtectSystem");
        assert forall|i: int, j: int|
            0 <= i < r.model().values.len() && 0 <= j
                < r.model().values[i].deny.len() implies (
        #[trigger] r.model().values[i].deny[j]).wf() by {
            assert(r.model().values[i] == r.possible_values@[i].model());
            assert(r.model().values[i].deny[j] == r.possible_values@[i].deny@[j].model());
        }
        assert(r.model().values[0] == r.possible_values@[0].model());
        assert(r.model().values[1] == r.possible_values@[1].model());
        assert(r.model().values[2] == r.possible_values@[2].model());
        assert(r.model() =~~= protect_system_model());
    }
    r
}

/// The `ProtectHome` option: the home hierarchies become read-only, or, when
/// hardening aggressively, inaccessible.
fn opt_protect_home(aggressive: bool) -> (r: OptionDescription)
    ensures
        r.model().wf(),
        r.model() == protect_home_model(aggressive),
{
    let mut vals: Vec<OptionValueDescription> = Vec::new();
    let mut p1: Vec<Vec<u8>> = Vec::new();
    p1.push(path_bytes("/home"));
    p1.push(path_bytes("/root"));
    p1.push(path_bytes("/run/user"));
    proof {
        assert(p1.deep_view() =~~= home_paths());
    }
    vals.push(
        OptionValueDescription {
            value: OptionValue::Text("read-only".to_owned()),
            deny: writes_under(p1),
        },
    );
    if aggressive {
        let mut p2: Vec<Vec<u8>> = Vec::new();
        p2.push(path_bytes("/home"));
        p2.push(path_bytes("/root"));
        p2.push(path_bytes("/run/user"));
        let mut p3: Vec<Vec<u8>> = Vec::new();
        p3.push(path_bytes("/home"));
        p3.push(path_bytes("/root"));
        p3.push(path_bytes("/run/user"));
        proof {
            assert(p2.deep_view() =~~= home_paths());
            assert(p3.deep_view() =~~= home_paths());
        }
        let ghost p2v = p2.deep_view();
        let ghost p3v = p3.deep_view();
        let mut d2: Vec<DenyAction> = Vec::new();
        d2.push(DenyAction::WritesUnder { prefixes: p2 });
        d2.push(DenyAction::ReadsUnder { prefixes: p3 });
        proof {
            lemma_plain_denies_wf(d2@);
            assert(d2@.map_values(|d: DenyAction| d.model()) =~= seq![
                DenyActionModel::WritesUnder(p2v),
                DenyActionModel::ReadsUnder(p3v),
            ]);
        }
        vals.push(
            OptionValueDescription { value: OptionValue::Text("true".to_owned()), deny: d2 },
        );
    }
    let r = OptionDescription {
        name: "ProtectHome".to_owned(),
        possible_values: vals,
        mergeable: false,
    };
    proof {
        reveal_strlit("ProtectHome");
        assert forall|i: int, j: int|
            0 <= i < r.model().values.len() && 0 <= j
                < r.model().values[i].deny.len() implies (
        #[trigger] r.model().values[i].deny[j]).wf() by {
            assert(r.model().values[i] == r.possible_values@[i].model());
            assert(r.model().values[i].deny[j] == r.possible_values@[i].deny@[j].model());
        }
        assert(r.model().values[0] == r.possible_values@[0].model());
        if aggressive {
            assert(r.model().values[1] == r.possible_values@[1].model());
        }
        assert(r.model() =~~= protect_home_model(aggressive));
    }
    r
}

/// A network pattern that matches every activity.
fn any_network_activity() -> (r: crate::summarize::NetworkActivity)
    ensures
        r.model().wf(),
        r.model() == any_network_model(),
{
    crate::summarize::NetworkActivity {
        af: crate::sets::SetSpecifier::All,
        proto: crate::sets::SetSpecifier::All,
        kind: crate::sets::SetSpecifier::All,
        local_port: crate::sets::CountableSetSpecifier::All,
    }
}

/// One mergeable `SystemCallFilter` candidate: filtering out one syscall
/// group, denied when any of the group's syscalls was observed.
fn syscall_filter_candidate(group: &str, names: Vec<String>) -> (r: OptionValueDescription)
    ensures
        r.model().value is List,
        forall|j: int| 0 <= j < r.model().deny.len() ==> (#[trigger] r.model().deny[j]).wf(),
        r.model() == syscall_filter_value_model(group@, names.deep_view()),
{
    let ghost nm = names.deep_view();
    let mut vs: Vec<String> = Vec::new();
    vs.push(group.to_owned());
    let mut deny: Vec<DenyAction> = Vec::new();
    deny.push(DenyAction::SyscallsAmong { names });
    let r = OptionValueDescription { value: OptionValue::List(vs), deny };
    proof {
        assert forall|j: int|
            0 <= j < r.model().deny.len() implies (#[trigger] r.model().deny[j]).wf() by {
            assert(r.model().deny[j] == r.deny@[j].model());
        }
        assert(r.model() =~~= syscall_filter_value_model(group@, nm));
    }
    r
}

/// A list of syscall names.
fn name_list(a: &str, b: &str, c: &str, d: &str) -> (r: Vec<String>)
    ensures
        r.deep_view() == seq![a@, b@, c@, d@],
{
    let mut names: Vec<String> = Vec::new();
    names.push(a.to_owned());
    names.push(b.to_owned());
    names.push(c.to_owned());
    names.push(d.to_owned());
    proof {
        assert(names.deep_view() =~= seq![a@, b@, c@, d@]);
    }
    names
}

/// The `SystemCallFilter` option: mergeable syscall-group exclusions.
fn opt_syscall_filter() -> (r: OptionDescription)
    ensures
        r.model().wf(),
        r.model() == syscall_filter_model(),
{
    let mut vals: Vec<OptionValueDescription> = Vec::new();
    vals.push(
        syscall_filter_candidate(
            "~@clock",
            name_list("adjtimex", "clock_adjtime", "clock_settime", "settimeofday"),
        ),
    );
    vals.push(
        syscall_filter_candidate(
            "~@module",
            name_list("init_module", "finit_module", "delete_module", "query_module"),
        ),
    );
    vals.push(
        syscall_filter_candidate(
            "~@reboot",
            name_list("reboot", "kexec_load", "kexec_file_load", "reboot"),
        ),
    );
    vals.push(
        syscall_filter_candidate("~@swap", name_list("swapon", "swapoff", "swapon", "swapoff")),
    );
    let r = OptionDescription {
        name: "SystemCallFilter".to_owned(),
        possible_values: vals,
        mergeable: true,
    };
    proof {
        reveal_strlit("SystemCallFilter");
        assert forall|i: int, j: int|
            0 <= i < r.model().values.len() && 0 <= j
                < r.model().values[i].deny.len() implies (
        #[trigger] r.model().values[i].deny[j]).wf() by {
            assert(r.model().values[i] == r.possible_values@[i].model());
        }
        assert forall|i: int|
            0 <= i < r.model().values.len() implies (#[trigger] r.model().values[i]).value
            is List by {
            assert(r.model().values[i] == r.possible_values@[i].model());
        }
        assert(r.model().values[0] == r.possible_values@[0].model());
        assert(r.model().values[1] == r.possible_values@[1].model());
        assert(r.model().values[2] == r.possible_values@[2].model());
        assert(r.model().values[3] == r.possible_values@[3].model());
        assert(r.model() =~~= syscall_filter_model());
    }
    r
}

/// Catalog determinism, end to end: one environment, hardening level and
/// action stream determine the emitted directive text exactly, since the
/// catalog builder, the resolver and the emitter are each pinned to a pure
/// function of their inputs.
pub proof fn lemma_catalog_determinism(
    sd_version: SystemdVersion,
    kernel_version: KernelVersion,
    sysctl_state: SysctlState,
    instance_kind: InstanceKind,
    hardening_opts: crate::cl::HardeningOptions,
    acts1: Seq<crate::summarize::ActionModel>,
    acts2: Seq<crate::summarize::ActionModel>,
)
    requires
        acts1 == acts2,
    ensures
        emit_spec(
            resolve_spec(
                sd_catalog_spec(
                    sd_version,
                    kernel_version,
                    sysctl_state,
                    instance_kind,
                    hardening_opts,
                ),
                acts1,
            ),
        ) == emit_spec(
            resolve_spec(
                sd_catalog_spec(
                    sd_version,
                    kernel_version,
                    sysctl_state,
                    instance_kind,
                    hardening_opts,
                ),
                acts2,
            ),
        ),
{
}

/// The `IPAddressDeny` option: denies IP-family network activity outright.
fn opt_ip_address_deny() -> (r: OptionDescription)
    ensures
        r.model().wf(),
        r.model() == ip_address_deny_model(),
{
    let mut af: Vec<SocketFamily> = Vec::new();
    af.push(SocketFamily::Inet);
    af.push(SocketFamily::Inet6);
    proof {
        assert(af@ =~= seq![SocketFamily::Inet, SocketFamily::Inet6]);
    }
    let pattern = crate::summarize::NetworkActivity {
        af: crate::sets::SetSpecifier::SomeOf(af),
        proto: crate::sets::SetSpecifier::All,
        kind: crate::sets::SetSpecifier::All,
        local_port: crate::sets::CountableSetSpecifier::All,
    };
    let mut deny: Vec<DenyAction> = Vec::new();
    deny.push(DenyAction::NetworkMatching { pattern });
    let mut vs: Vec<String> = Vec::new();
    vs.push("any".to_owned());
    let mut vals: Vec<OptionValueDescription> = Vec::new();
    vals.push(OptionValueDescription { value: OptionValue::List(vs), deny });
    let r = OptionDescription {
        name: "IPAddressDeny".to_owned(),
        possible_values: vals,
        mergeable: false,
    };
    proof {
        reveal_strlit("IPAddressDeny");
        assert forall|i: int, j: int|
            0 <= i < r.model().values.len() && 0 <= j
                < r.model().values[i].deny.len() implies (
        #[trigger] r.model().values[i].deny[j]).wf() by {
            assert(r.model().values[i] == r.possible_values@[i].model());
            assert(r.model().values[i].deny[j] == r.possible_values@[i].deny@[j].model());
        }
        assert(r.model().values[0] == r.possible_values@[0].model());
        assert(r.model() =~~= ip_address_deny_model());
    }
    r
}

/// The whole catalog, as a function of the environment and the hardening
/// level: which options appear, under which gates, with which candidate
/// values and deny effects. Candidates are listed least restrictive first.
pub open spec fn sd_catalog_spec(
    sd_version: SystemdVersion,
    kernel_version: KernelVersion,
    sysctl_state: SysctlState,
    instance_kind: InstanceKind,
    hardening_opts: crate::cl::HardeningOptions,
) -> Seq<OptionModel> {
    (if instance_kind is System || sysctl_state.unprivileged_userns_clone {
        seq![
            protect_system_model(),
            protect_home_model(hardening_opts.mode is Aggressive),
        ]
    } else {
        Seq::<OptionModel>::empty()
    }) + (if sd_version.major >= 209 {
        seq![bool_option_model("PrivateDevices"@, seq![DenyActionModel::SpecialFiles])]
    } else {
        Seq::<OptionModel>::empty()
    }) + (if sd_version.major >= 228 {
        seq![
            bool_option_model(
                "MemoryDenyWriteExecute"@,
                seq![DenyActionModel::WriteExecuteMemory],
            )
        ]
    } else {
        Seq::<OptionModel>::empty()
    }) + (if sd_version.major >= 231 {
        seq![bool_option_model("RestrictRealtime"@, seq![DenyActionModel::RealtimeScheduler])]
    } else {
        Seq::<OptionModel>::empty()
    }) + (if sd_version.major >= 235 {
        seq![
            bool_option_model(
                "LockPersonality"@,
                seq![DenyActionModel::SyscallsAmong(seq!["personality"@])],
            )
        ]
    } else {
        Seq::<OptionModel>::empty()
    }) + (if instance_kind is System {
        seq![
            bool_option_model(
                "PrivateNetwork"@,
                seq![DenyActionModel::NetworkMatching(any_network_model())],
            )
        ]
    } else {
        Seq::<OptionModel>::empty()
    }) + (if hardening_opts.network_firewalling {
        seq![ip_address_deny_model()]
    } else {
        Seq::<OptionModel>::empty()
    }) + (if kernel_version.major > 3 || (kernel_version.major == 3 && kernel_version.minor
        >= 5) {
        seq![syscall_filter_model()]
    } else {
        Seq::<OptionModel>::empty()
    })
}

/// Builds the catalog of sandboxing options supported in this environment,
/// exactly as `sd_catalog_spec` writes it out: which options appear depends
/// on the service manager and kernel versions, the kernel tunables, the
/// instance kind and the hardening level asked for. Candidate values are
/// listed from least to most restrictive.
#[verifier::rlimit(100)]
pub fn sd_options(
    sd_version: &SystemdVersion,
    kernel_version: &KernelVersion,
    sysctl_state: &SysctlState,
    instance_kind: &InstanceKind,
    hardening_opts: &crate::cl::HardeningOptions,
) -> (r: Vec<OptionDescription>)
    ensures
        forall|k: int| 0 <= k < r@.len() ==> (#[trigger] r@[k]).model().wf(),
        catalog_models(r@) == sd_catalog_spec(
            *sd_version,
            *kernel_version,
            *sysctl_state,
            *instance_kind,
            *hardening_opts,
        ),
{
    let mut opts: Vec<OptionDescription> = Vec::new();
    let ghost mut cat: Seq<OptionModel> = Seq::empty();
    proof {
        assert(catalog_models(opts@) =~= cat);
    }
    let namespaces_usable: bool = matches!(instance_kind, InstanceKind::System)
        || sysctl_state.unprivileged_userns_clone;
    let aggressive: bool = matches!(hardening_opts.mode, crate::cl::HardeningMode::Aggressive);
    if namespaces_usable {
        opts.push(opt_protect_system());
        proof {
            cat = cat.push(protect_system_model());
            assert(catalog_models(opts@) =~= cat);
        }
        opts.push(opt_protect_home(aggressive));
        proof {
            cat = cat.push(protect_home_model(aggressive));
            assert(catalog_models(opts@) =~= cat);
        }
    }
    if sd_version.at_least(209) {
        let mut deny: Vec<DenyAction> = Vec::new();
        deny.push(DenyAction::SpecialFiles);
        proof {
            lemma_plain_denies_wf(deny@);
            assert(deny@.map_values(|d: DenyAction| d.model()) =~= seq![
                DenyActionModel::SpecialFiles
            ]);
            reveal_strlit("PrivateDevices");
        }
        opts.push(bool_option("PrivateDevices", deny));
        proof {
            cat = cat.push(
                bool_option_model("PrivateDevices"@, seq![DenyActionModel::SpecialFiles]),
            );
            assert(catalog_models(opts@) =~= cat);
        }
    }
    if sd_version.at_least(228) {
        let mut deny: Vec<DenyAction> = Vec::new();
        deny.push(DenyAction::WriteExecuteMemory);
        proof {
            lemma_plain_denies_wf(deny@);
            assert(deny@.map_values(|d: DenyAction| d.model()) =~= seq![
                DenyActionModel::WriteExecuteMemory
            ]);
            reveal_strlit("MemoryDenyWriteExecute");
        }
        opts.push(bool_option("MemoryDenyWriteExecute", deny));
        proof {
            cat = cat.push(
                bool_option_model(
                    "MemoryDenyWriteExecute"@,
                    seq![DenyActionModel::WriteExecuteMemory],
                ),
            );
            assert(catalog_models(opts@) =~= cat);
        }
    }
    if sd_version.at_least(231) {
        let mut deny: Vec<DenyAction> = Vec::new();
        deny.push(DenyAction::RealtimeScheduler);
        proof {
            lemma_plain_denies_wf(deny@);
            assert(deny@.map_values(|d: DenyAction| d.model()) =~= seq![
                DenyActionModel::RealtimeScheduler
            ]);
            reveal_strlit("RestrictRealtime");
        }
        opts.push(bool_option("RestrictRealtime", deny));
        proof {
            cat = cat.push(
                bool_option_model(
                    "RestrictRealtime"@,
                    seq![DenyActionModel::RealtimeScheduler],
                ),
            );
            assert(catalog_models(opts@) =~= cat);
        }
    }
    if sd_version.at_least(235) {
        let mut deny: Vec<DenyAction> = Vec::new();
        let mut names: Vec<String> = Vec::new();
        names.push("personality".to_owned());
        proof {
            assert(names.deep_view() =~= seq!["personality"@]);
        }
        deny.push(DenyAction::SyscallsAmong { names });
        proof {
            lemma_plain_denies_wf(deny@);
            assert(deny@.map_values(|d: DenyAction| d.model()) =~= seq![
                DenyActionModel::SyscallsAmong(seq!["personality"@])
            ]);
            reveal_strlit("LockPersonality");
        }
        opts.push(bool_option("LockPersonality", deny));
        proof {
            cat = cat.push(
                bool_option_model(
                    "LockPersonality"@,
                    seq![DenyActionModel::SyscallsAmong(seq!["personality"@])],
                ),
            );
            assert(catalog_models(opts@) =~= cat);
        }
    }
    if matches!(instance_kind, InstanceKind::System) {
        let mut deny: Vec<DenyAction> = Vec::new();
        deny.push(DenyAction::NetworkMatching { pattern: any_network_activity() });
        proof {
            reveal_strlit("PrivateNetwork");
            assert forall|j: int|
                0 <= j < deny@.len() implies (#[trigger] deny@[j]).model().wf() by {}
            assert(deny@.map_values(|d: DenyAction| d.model()) =~= seq![
                DenyActionModel::NetworkMatching(any_network_model())
            ]);
        }
        opts.push(bool_option("PrivateNetwork", deny));
        proof {
            cat = cat.push(
                bool_option_model(
                    "PrivateNetwork"@,
                    seq![DenyActionModel::NetworkMatching(any_network_model())],
                ),
            );
            assert(catalog_models(opts@) =~= cat);
        }
    }
    if hardening_opts.network_firewalling {
        opts.push(opt_ip_address_deny());
        proof {
            cat = cat.push(ip_address_deny_model());
            assert(catalog_models(opts@) =~= cat);
        }
    }
    if kernel_version.at_least(3, 5) {
        opts.push(opt_syscall_filter());
        proof {
            cat = cat.push(syscall_filter_model());
            assert(catalog_models(opts@) =~= cat);
        }
    }
    proof {
        assert(cat =~= sd_catalog_spec(
            *sd_version,
            *kernel_version,
            *sysctl_state,
            *instance_kind,
            *hardening_opts,
        ));
    }
    opts
}

} // verus!
