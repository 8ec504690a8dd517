//! Folds a stream of parsed syscalls into high-level program actions:
//! path reads/writes/creates, network activity, privileged operations, and
//! the aggregate set of syscall names.

use vstd::prelude::*;

use crate::sets::{
    CountableSetModel, CountableSetSpecifier, NetworkPort, SetSpecModel, SetSpecifier,
};
use crate::systemd::{
    parse_socket_family, parse_socket_protocol, spec_parse_socket_family,
    spec_parse_socket_protocol, SocketFamily, SocketProtocol,
};
use crate::trace::{
    member_lookup, spec_has_prefix, spec_has_suffix, string_eq_str, string_has_prefix,
    string_has_suffix, struct_member, BufferExpression, BufferType, Expression,
    IntegerExpression, IntegerExpressionValue, ParseError, Syscall,
};

verus! {

/// Socket activity kind.
#[derive(Debug, Clone, Copy, PartialEq, Eq, Structural)]
pub enum NetworkActivityKind {
    SocketCreation,
    Bind,
}

impl crate::sets::SetElement for NetworkActivityKind {
    fn same(&self, other: &Self) -> (r: bool)
        ensures
            r == (*self == *other),
    {
        *self == *other
    }
}

/// Network (socket) activity: what was done, over which families, protocols
/// and local ports.
#[derive(Debug, PartialEq, Eq)]
pub struct NetworkActivity {
    pub af: SetSpecifier<SocketFamily>,
    pub proto: SetSpecifier<SocketProtocol>,
    pub kind: SetSpecifier<NetworkActivityKind>,
    pub local_port: CountableSetSpecifier,
}

/// Mathematical image of a `NetworkActivity`.
#[verifier::ext_equal]
pub struct NetworkActivityModel {
    pub af: SetSpecModel<SocketFamily>,
    pub proto: SetSpecModel<SocketProtocol>,
    pub kind: SetSpecModel<NetworkActivityKind>,
    pub local_port: CountableSetModel,
}

impl NetworkActivity {
    pub open spec fn model(self) -> NetworkActivityModel {
        NetworkActivityModel {
            af: self.af.model(),
            proto: self.proto.model(),
            kind: self.kind.model(),
            local_port: self.local_port.model(),
        }
    }
}

impl NetworkActivityModel {
    pub open spec fn wf(self) -> bool {
        self.local_port.wf()
    }
}

/// A high-level program runtime action. This does not map one-to-one onto
/// syscalls and does not necessarily respect chronology. Paths are byte
/// strings, as the kernel sees them.
#[derive(Debug, PartialEq, Eq)]
pub enum ProgramAction {
    /// Path was accessed (opened, stat'ed, read...).
    Read(Vec<u8>),
    /// Path was written to (data, metadata, path removal...).
    Write(Vec<u8>),
    /// Path was created.
    Create(Vec<u8>),
    /// Network (socket) activity.
    NetworkActivity(NetworkActivity),
    /// Memory mapping with both write and execute bits.
    WriteExecuteMemoryMapping,
    /// Set a real-time scheduler policy.
    SetRealtimeScheduler,
    /// Inhibit suspend.
    Wakeup,
    /// Create special files.
    MknodSpecial,
    /// Set a privileged timer alarm.
    SetAlarm,
    /// The names of the syscalls the program made, without duplicates, in
    /// first-occurrence order.
    Syscalls(Vec<String>),
}

/// Mathematical image of a `ProgramAction`.
#[verifier::ext_equal]
pub enum ActionModel {
    Read(Seq<u8>),
    Write(Seq<u8>),
    Create(Seq<u8>),
    NetworkActivity(NetworkActivityModel),
    WriteExecuteMemoryMapping,
    SetRealtimeScheduler,
    Wakeup,
    MknodSpecial,
    SetAlarm,
    Syscalls(Seq<Seq<char>>),
}

impl ProgramAction {
    pub open spec fn model(self) -> ActionModel {
        match self {
            ProgramAction::Read(p) => ActionModel::Read(p@),
            ProgramAction::Write(p) => ActionModel::Write(p@),
            ProgramAction::Create(p) => ActionModel::Create(p@),
            ProgramAction::NetworkActivity(na) => ActionModel::NetworkActivity(na.model()),
            ProgramAction::WriteExecuteMemoryMapping => ActionModel::WriteExecuteMemoryMapping,
            ProgramAction::SetRealtimeScheduler => ActionModel::SetRealtimeScheduler,
            ProgramAction::Wakeup => ActionModel::Wakeup,
            ProgramAction::MknodSpecial => ActionModel::MknodSpecial,
            ProgramAction::SetAlarm => ActionModel::SetAlarm,
            ProgramAction::Syscalls(names) => ActionModel::Syscalls(names.deep_view()),
        }
    }
}

impl ActionModel {
    pub open spec fn wf(self) -> bool {
        match self {
            ActionModel::NetworkActivity(na) => na.wf(),
            _ => true,
        }
    }
}

/// The models of a sequence of actions.
pub open spec fn models_of(v: Seq<ProgramAction>) -> Seq<ActionModel> {
    v.map_values(|a: ProgramAction| a.model())
}

/// Byte-string equality.
pub fn bytes_eq(a: &Vec<u8>, b: &Vec<u8>) -> (r: bool)
    ensures
        r == (a@ == b@),
{
    if a.len() != b.len() {
        return false;
    }
    let mut i: usize = 0;
    while i < a.len()
        invariant
            0 <= i <= a@.len(),
            a@.len() == b@.len(),
            forall|j: int| 0 <= j < i ==> a@[j] == b@[j],
        decreases a@.len() - i,
    {
        if a[i] != b[i] {
            return false;
        }
        i += 1;
    }
    proof {
        assert(a@ =~= b@);
    }
    true
}

/// Copies a byte string.
pub fn copy_bytes(v: &Vec<u8>) -> (r: Vec<u8>)
    ensures
        r@ == v@,
{
    let mut r: Vec<u8> = Vec::new();
    let mut i: usize = 0;
    while i < v.len()
        invariant
            0 <= i <= v@.len(),
            r@ == v@.take(i as int),
        decreases v@.len() - i,
    {
        r.push(v[i]);
        proof {
            assert(r@ =~= v@.take(i as int + 1));
        }
        i += 1;
    }
    proof {
        assert(r@ =~= v@);
    }
    r
}

/// Equality of set specifiers over a small element type, at the model level.
fn set_spec_eq<T: crate::sets::SetElement>(a: &SetSpecifier<T>, b: &SetSpecifier<T>) -> (r:
    bool)
    ensures
        r == (a.model() == b.model()),
{
    match (a, b) {
        (SetSpecifier::NoneOf, SetSpecifier::NoneOf) => true,
        (SetSpecifier::One(x), SetSpecifier::One(y)) => x.same(y),
        (SetSpecifier::SomeOf(xs), SetSpecifier::SomeOf(ys)) => {
            let r = element_lists_eq(xs, ys);
            proof {
                if r {
                    assert(a.model() =~= b.model());
                }
            }
            r
        },
        (SetSpecifier::All, SetSpecifier::All) => true,
        _ => false,
    }
}

/// Element-wise equality of two element lists.
fn element_lists_eq<T: crate::sets::SetElement>(xs: &Vec<T>, ys: &Vec<T>) -> (r: bool)
    ensures
        r == (xs@ == ys@),
{
    if xs.len() != ys.len() {
        return false;
    }
    let mut i: usize = 0;
    while i < xs.len()
        invariant
            0 <= i <= xs@.len(),
            xs@.len() == ys@.len(),
            forall|j: int| 0 <= j < i ==> xs@[j] == ys@[j],
        decreases xs@.len() - i,
    {
        if !xs[i].same(&ys[i]) {
            return false;
        }
        i += 1;
    }
    proof {
        assert(xs@ =~= ys@);
    }
    true
}

/// Equality of port set specifiers, at the model level.
fn countable_set_eq(a: &CountableSetSpecifier, b: &CountableSetSpecifier) -> (r: bool)
    ensures
        r == (a.model() == b.model()),
{
    match (a, b) {
        (CountableSetSpecifier::NoneOf, CountableSetSpecifier::NoneOf) => true,
        (CountableSetSpecifier::One(x), CountableSetSpecifier::One(y)) => x.0 == y.0,
        (CountableSetSpecifier::SomeOf(xs), CountableSetSpecifier::SomeOf(ys)) => {
            let r = element_lists_eq(xs, ys);
            proof {
                if r {
                    assert(a.model() =~= b.model());
                }
            }
            r
        },
        (CountableSetSpecifier::AllExcept(xs), CountableSetSpecifier::AllExcept(ys)) => {
            let r = element_lists_eq(xs, ys);
            proof {
                if r {
                    assert(a.model() =~= b.model());
                }
            }
            r
        },
        (CountableSetSpecifier::All, CountableSetSpecifier::All) => true,
        _ => false,
    }
}

/// Equality of network activities, at the model level.
fn network_activity_eq(a: &NetworkActivity, b: &NetworkActivity) -> (r: bool)
    ensures
        r == (a.model() == b.model()),
{
    let r = set_spec_eq(&a.af, &b.af) && set_spec_eq(&a.proto, &b.proto) && set_spec_eq(
        &a.kind,
        &b.kind,
    ) && countable_set_eq(&a.local_port, &b.local_port);
    proof {
        if r {
            assert(a.model() =~= b.model());
        }
    }
    r
}

/// Element-wise equality of two name lists, by contents.
fn string_lists_eq(xs: &Vec<String>, ys: &Vec<String>) -> (r: bool)
    ensures
        r == (xs.deep_view() == ys.deep_view()),
{
    if xs.len() != ys.len() {
        proof {
            assert(xs.deep_view().len() == xs@.len());
            assert(ys.deep_view().len() == ys@.len());
        }
        return false;
    }
    let mut i: usize = 0;
    while i < xs.len()
        invariant
            0 <= i <= xs@.len(),
            xs@.len() == ys@.len(),
            forall|j: int| 0 <= j < i ==> xs@[j]@ == ys@[j]@,
        decreases xs@.len() - i,
    {
        if !(xs[i] == ys[i]) {
            proof {
                assert(xs.deep_view()[i as int] == xs@[i as int]@);
                assert(ys.deep_view()[i as int] == ys@[i as int]@);
            }
            return false;
        }
        i += 1;
    }
    proof {
        assert(xs.deep_view() =~= ys.deep_view());
    }
    true
}

/// Equality of program actions, at the model level: this is the equality the
/// adjacent-duplicate collapse works with.
pub fn action_eq(a: &ProgramAction, b: &ProgramAction) -> (r: bool)
    ensures
        r == (a.model() == b.model()),
{
    match (a, b) {
        (ProgramAction::Read(x), ProgramAction::Read(y)) => bytes_eq(x, y),
        (ProgramAction::Write(x), ProgramAction::Write(y)) => bytes_eq(x, y),
        (ProgramAction::Create(x), ProgramAction::Create(y)) => bytes_eq(x, y),
        (ProgramAction::NetworkActivity(x), ProgramAction::NetworkActivity(y)) => {
            network_activity_eq(x, y)
        },
        (
            ProgramAction::WriteExecuteMemoryMapping,
            ProgramAction::WriteExecuteMemoryMapping,
        ) => true,
        (ProgramAction::SetRealtimeScheduler, ProgramAction::SetRealtimeScheduler) => true,
        (ProgramAction::Wakeup, ProgramAction::Wakeup) => true,
        (ProgramAction::MknodSpecial, ProgramAction::MknodSpecial) => true,
        (ProgramAction::SetAlarm, ProgramAction::SetAlarm) => true,
        (ProgramAction::Syscalls(x), ProgramAction::Syscalls(y)) => string_lists_eq(x, y),
        _ => false,
    }
}

/// The sequence with runs of adjacent equal entries collapsed to their first
/// entry.
pub open spec fn dedup_adjacent(s: Seq<ActionModel>) -> Seq<ActionModel>
    decreases s.len(),
{
    if s.len() <= 1 {
        s
    } else {
        let d = dedup_adjacent(s.drop_last());
        if s[s.len() - 1] == s[s.len() - 2] {
            d
        } else {
            d.push(s.last())
        }
    }
}

/// Collapsing keeps the last entry, and keeps the sequence non-empty.
pub proof fn lemma_dedup_last(s: Seq<ActionModel>)
    requires
        s.len() > 0,
    ensures
        dedup_adjacent(s).len() > 0,
        dedup_adjacent(s).last() == s.last(),
    decreases s.len(),
{
    if s.len() > 1 {
        lemma_dedup_last(s.drop_last());
    }
}

/// After collapsing, no two adjacent entries are equal.
pub proof fn lemma_dedup_no_adjacent(s: Seq<ActionModel>)
    ensures
        forall|k: int|
            0 <= k < dedup_adjacent(s).len() - 1 ==> #[trigger] dedup_adjacent(s)[k]
                != dedup_adjacent(s)[k + 1],
    decreases s.len(),
{
    if s.len() > 1 {
        lemma_dedup_no_adjacent(s.drop_last());
        lemma_dedup_last(s.drop_last());
        let d = dedup_adjacent(s.drop_last());
        if s[s.len() - 1] == s[s.len() - 2] {
        } else {
            assert forall|k: int|
                0 <= k < dedup_adjacent(s).len() - 1 implies #[trigger] dedup_adjacent(s)[k]
                != dedup_adjacent(s)[k + 1] by {
                if k < d.len() - 1 {
                    assert(d.push(s.last())[k] == d[k]);
                    assert(d.push(s.last())[k + 1] == d[k + 1]);
                } else {
                    assert(d.push(s.last())[k] == d[k]);
                    assert(d[d.len() - 1] == s.drop_last().last());
                    assert(s.drop_last().last() == s[s.len() - 2]);
                }
            }
        }
    }
}

/// Everything the collapse keeps was in the sequence it collapsed.
pub proof fn lemma_dedup_membership(s: Seq<ActionModel>)
    ensures
        forall|k: int|
            0 <= k < dedup_adjacent(s).len() ==> s.contains(#[trigger] dedup_adjacent(s)[k]),
    decreases s.len(),
{
    if s.len() > 1 {
        lemma_dedup_membership(s.drop_last());
        let d = dedup_adjacent(s.drop_last());
        assert forall|k: int|
            0 <= k < dedup_adjacent(s).len() implies s.contains(
            #[trigger] dedup_adjacent(s)[k],
        ) by {
            if k < d.len() {
                assert(s.drop_last().contains(d[k]));
                let j = choose|j: int| 0 <= j < s.drop_last().len() && s.drop_last()[j] == d[k];
                assert(s[j] == d[k]);
            } else {
                assert(dedup_adjacent(s)[k] == s.last());
                assert(s[s.len() - 1] == s.last());
            }
        }
    } else if s.len() == 1 {
        assert(s.contains(s[0]));
    }
}

/// Appends an action, collapsing it into the previous entry when equal: the
/// result tracks `dedup_adjacent` of everything appended so far.
fn push_dedup(out: &mut Vec<ProgramAction>, action: ProgramAction, Ghost(raw): Ghost<
    Seq<ActionModel>,
>)
    requires
        models_of(old(out)@) == dedup_adjacent(raw),
    ensures
        models_of(final(out)@) == dedup_adjacent(raw.push(action.model())),
{
    proof {
        assert(models_of(out@).len() == out@.len());
    }
    let n = out.len();
    let keep = if n == 0 {
        true
    } else {
        !action_eq(&out[n - 1], &action)
    };
    proof {
        let t = raw.push(action.model());
        assert(t.drop_last() =~= raw);
        assert(t.last() == action.model());
        if raw.len() > 0 {
            lemma_dedup_last(raw);
            assert(models_of(out@)[out@.len() - 1] == out@[out@.len() - 1].model());
            assert(t[t.len() - 2] == raw.last());
        } else {
            assert(dedup_adjacent(raw).len() == 0);
        }
    }
    if keep {
        out.push(action);
        proof {
            let t = raw.push(action.model());
            assert(models_of(out@) =~= dedup_adjacent(raw).push(action.model()));
            assert(models_of(out@) =~= dedup_adjacent(t));
        }
    } else {
        proof {
            let t = raw.push(action.model());
            assert(models_of(out@) =~= dedup_adjacent(t));
        }
    }
}

/// A lowercase ASCII letter.
pub open spec fn is_lower_alpha(b: u8) -> bool {
    97 <= b <= 122
}

/// A lowercase ASCII letter or a decimal digit.
pub open spec fn is_lower_alnum(b: u8) -> bool {
    is_lower_alpha(b) || (48 <= b <= 57)
}

/// The split of a pseudo-fd path: letters up to `a`, `:` and `[` at `a` and
/// `a + 1`, digits or lowercase letters up to `b`, `]` at `b`, then at most a
/// final `/`.
pub open spec fn pseudo_path_shape(p: Seq<u8>, a: int, b: int) -> bool {
    &&& 1 <= a
    &&& a + 3 <= b
    &&& b < p.len()
    &&& forall|k: int| 0 <= k < a ==> is_lower_alpha(#[trigger] p[k])
    &&& p[a] == 58u8
    &&& p[a + 1] == 91u8
    &&& forall|k: int| a + 2 <= k < b ==> is_lower_alnum(#[trigger] p[k])
    &&& p[b] == 93u8
    &&& (p.len() == b + 1 || (p.len() == b + 2 && p[b + 1] == 47u8))
}

/// The language of pseudo-fd paths, the byte strings a tracer prints for
/// non-filesystem file descriptors: `socket:[12345]`, `pipe:[9]/`, ...
pub open spec fn pseudo_path_model(p: Seq<u8>) -> bool {
    exists|a: int, b: int| pseudo_path_shape(p, a, b)
}

/// Relies on `regex::bytes::Regex`: `is_match` with the anchored pattern
/// `^[a-z]+:\[[0-9a-z]+\]/?$` holds exactly of the byte strings of that
/// language, which `pseudo_path_model` writes out; `Regex::new` cannot fail
/// on this fixed, well-formed pattern.
#[verifier::external_body]
fn pseudo_path_regex_match(path: &[u8]) -> (r: bool)
    ensures
        r == pseudo_path_model(path@),
{
    let re = regex::bytes::Regex::new(r"^[a-z]+:\[[0-9a-z]+\]/?$").unwrap();
    re.is_match(path)
}

/// Whether the byte string is a pseudo-fd path (a socket, pipe, epoll or
/// similar descriptor, not a filesystem path).
pub fn is_fd_pseudo_path(path: &Vec<u8>) -> (r: bool)
    ensures
        r == pseudo_path_model(path@),
{
    pseudo_path_regex_match(path.as_slice())
}

/// A pseudo-fd path starts with a lowercase letter, so it is never absolute.
pub proof fn lemma_pseudo_path_starts_lower(p: Seq<u8>)
    requires
        pseudo_path_model(p),
    ensures
        p.len() > 0 && is_lower_alpha(p[0]),
{
    let (a, b) = choose|a: int, b: int| pseudo_path_shape(p, a, b);
    assert(is_lower_alpha(p[0]));
}

/// An absolute path: non-empty, starting with `/`.
pub open spec fn is_abs_path(p: Seq<u8>) -> bool {
    p.len() > 0 && p[0] == 47u8
}

/// Joining as paths: a single `/` separates, unless the directory already
/// ends with one.
pub open spec fn path_join(dir: Seq<u8>, rel: Seq<u8>) -> Seq<u8> {
    if dir.len() > 0 && dir.last() == 47u8 {
        dir + rel
    } else {
        dir + seq![47u8] + rel
    }
}

/// The metadata bytes of the argument at `idx`, if any.
pub open spec fn arg_metadata(s: Syscall, idx: Option<usize>) -> Option<Seq<u8>> {
    match idx {
        Some(i) => if i < s.args@.len() {
            s.args@[i as int].spec_metadata()
        } else {
            None
        },
        None => None,
    }
}

/// What `resolve_path` returns: an absolute path is taken as it is; a
/// relative one is resolved against the directory-fd metadata of the argument
/// at `relfd_idx`, unless that metadata is missing, is a pseudo-fd path, or
/// is not absolute itself.
pub open spec fn spec_resolve_path(path: Seq<u8>, relfd_idx: Option<usize>, s: Syscall) -> Option<
    Seq<u8>,
> {
    if is_abs_path(path) {
        Some(path)
    } else {
        match arg_metadata(s, relfd_idx) {
            None => None,
            Some(m) => if pseudo_path_model(m) {
                None
            } else if !is_abs_path(m) {
                None
            } else {
                Some(path_join(m, path))
            },
        }
    }
}

/// Every resolved path is absolute and no pseudo-fd path.
pub proof fn lemma_resolved_path_absolute(path: Seq<u8>, relfd_idx: Option<usize>, s: Syscall)
    ensures
        spec_resolve_path(path, relfd_idx, s) matches Some(p) ==> is_abs_path(p)
            && !pseudo_path_model(p),
{
    let res = spec_resolve_path(path, relfd_idx, s);
    if res is Some {
        let p = res.unwrap();
        if is_abs_path(path) {
        } else {
            let m = arg_metadata(s, relfd_idx).unwrap();
            assert(p == path_join(m, path));
            assert(p[0] == m[0]);
        }
        if pseudo_path_model(p) {
            lemma_pseudo_path_starts_lower(p);
        }
    }
}

/// Whether the bytes form an absolute path.
fn is_absolute_bytes(v: &Vec<u8>) -> (r: bool)
    ensures
        r == is_abs_path(v@),
{
    v.len() > 0 && v[0] == 47
}

/// Joins a directory path and a relative path.
fn join_bytes(dir: &Vec<u8>, rel: &Vec<u8>) -> (r: Vec<u8>)
    ensures
        r@ == path_join(dir@, rel@),
{
    let mut r = copy_bytes(dir);
    if !(dir.len() > 0 && dir[dir.len() - 1] == 47) {
        r.push(47);
    }
    let mut i: usize = 0;
    let ghost base = r@;
    while i < rel.len()
        invariant
            0 <= i <= rel@.len(),
            r@ == base + rel@.take(i as int),
        decreases rel@.len() - i,
    {
        r.push(rel[i]);
        proof {
            assert(r@ =~= base + rel@.take(i as int + 1));
        }
        i += 1;
    }
    proof {
        assert(r@ =~= base + rel@);
        if dir@.len() > 0 && dir@.last() == 47u8 {
            assert(r@ =~= path_join(dir@, rel@));
        } else {
            assert(base =~= dir@ + seq![47u8]);
            assert(r@ =~= path_join(dir@, rel@));
        }
    }
    r
}

/// Resolves a path against the syscall's directory-fd metadata, skipping
/// pseudo-fd anchors. A returned path is always absolute and never a
/// pseudo-fd path. The call-time filesystem canonicalization of resolved
/// paths is applied by `summarize` to each emitted action, through
/// `canonicalize_action`.
pub fn resolve_path(path: &Vec<u8>, relfd_idx: Option<usize>, syscall: &Syscall) -> (r: Option<
    Vec<u8>,
>)
    ensures
        r is Some == spec_resolve_path(path@, relfd_idx, *syscall) is Some,
        r matches Some(p) ==> p@ == spec_resolve_path(path@, relfd_idx, *syscall).unwrap(),
        r matches Some(p) ==> is_abs_path(p@) && !pseudo_path_model(p@),
{
    proof {
        lemma_resolved_path_absolute(path@, relfd_idx, *syscall);
    }
    if is_absolute_bytes(path) {
        Some(copy_bytes(path))
    } else {
        let meta: Option<&Vec<u8>> = if let Some(i) = relfd_idx {
            if i < syscall.args.len() {
                syscall.args[i].metadata()
            } else {
                None
            }
        } else {
            None
        };
        match meta {
            None => None,
            Some(m) => {
                if is_fd_pseudo_path(m) {
                    None
                } else if !is_absolute_bytes(m) {
                    None
                } else {
                    Some(join_bytes(m, path))
                }
            },
        }
    }
}

/// What `socket_address_uds_path` returns: the resolved `sun_path` member of
/// a socket address struct, when it is a plain (non-abstract) buffer.
pub open spec fn spec_socket_address_uds_path(
    members: Seq<(String, Expression)>,
    s: Syscall,
) -> Option<Seq<u8>> {
    match member_lookup(members, "sun_path"@) {
        Some(Expression::Buffer(be)) => if be.type_ is Unknown {
            spec_resolve_path(be.value@, None, s)
        } else {
            None
        },
        _ => None,
    }
}

/// The path of a Unix-domain socket address, if it is a non-abstract one.
pub fn socket_address_uds_path(members: &Vec<(String, Expression)>, syscall: &Syscall) -> (r:
    Option<Vec<u8>>)
    ensures
        r is Some == spec_socket_address_uds_path(members@, *syscall) is Some,
        r matches Some(p) ==> p@ == spec_socket_address_uds_path(members@, *syscall).unwrap(),
        r matches Some(p) ==> is_abs_path(p@) && !pseudo_path_model(p@),
{
    match struct_member(members, "sun_path") {
        Some(Expression::Buffer(be)) => {
            match be.type_ {
                BufferType::Unknown => resolve_path(&be.value, None, syscall),
                BufferType::AbstractPath => None,
            }
        },
        _ => None,
    }
}

/// Groups syscalls with the same summary handling, with the indices of the
/// arguments the handler reads.
#[derive(Clone, Copy)]
pub enum SyscallInfo {
    Mknod { mode_idx: usize },
    Mmap { prot_idx: usize },
    Network { sockaddr_idx: usize },
    Open { relfd_idx: Option<usize>, path_idx: usize, flags_idx: usize },
    Rename {
        relfd_src_idx: Option<usize>,
        path_src_idx: usize,
        relfd_dst_idx: Option<usize>,
        path_dst_idx: usize,
        flags_idx: Option<usize>,
    },
    SetScheduler,
    Socket,
    StatFd { fd_idx: usize },
    StatPath { relfd_idx: Option<usize>, path_idx: usize },
}

/// The dispatch table: which handler each known syscall name gets.
pub open spec fn spec_syscall_info(name: Seq<char>) -> Option<SyscallInfo> {
    if name == "mknod"@ {
        Some(SyscallInfo::Mknod { mode_idx: 1 })
    } else if name == "mknodat"@ {
        Some(SyscallInfo::Mknod { mode_idx: 2 })
    } else if name == "mmap"@ || name == "mmap2"@ || name == "shmat"@ || name == "mprotect"@
        || name == "pkey_mprotect"@ {
        Some(SyscallInfo::Mmap { prot_idx: 2 })
    } else if name == "connect"@ || name == "bind"@ {
        Some(SyscallInfo::Network { sockaddr_idx: 1 })
    } else if name == "recvfrom"@ || name == "sendto"@ {
        Some(SyscallInfo::Network { sockaddr_idx: 4 })
    } else if name == "open"@ {
        Some(SyscallInfo::Open { relfd_idx: None, path_idx: 0, flags_idx: 1 })
    } else if name == "openat"@ {
        Some(SyscallInfo::Open { relfd_idx: Some(0), path_idx: 1, flags_idx: 2 })
    } else if name == "rename"@ {
        Some(
            SyscallInfo::Rename {
                relfd_src_idx: None,
                path_src_idx: 0,
                relfd_dst_idx: None,
                path_dst_idx: 1,
                flags_idx: None,
            },
        )
    } else if name == "renameat"@ {
        Some(
            SyscallInfo::Rename {
                relfd_src_idx: Some(0),
                path_src_idx: 1,
                relfd_dst_idx: Some(2),
                path_dst_idx: 3,
                flags_idx: None,
            },
        )
    } else if name == "renameat2"@ {
        Some(
            SyscallInfo::Rename {
                relfd_src_idx: Some(0),
                path_src_idx: 1,
                relfd_dst_idx: Some(2),
                path_dst_idx: 3,
                flags_idx: Some(4),
            },
        )
    } else if name == "sched_setscheduler"@ {
        Some(SyscallInfo::SetScheduler)
    } else if name == "socket"@ {
        Some(SyscallInfo::Socket)
    } else if name == "fstat"@ || name == "getdents"@ {
        Some(SyscallInfo::StatFd { fd_idx: 0 })
    } else if name == "stat"@ || name == "lstat"@ {
        Some(SyscallInfo::StatPath { relfd_idx: None, path_idx: 0 })
    } else if name == "newfstatat"@ {
        Some(SyscallInfo::StatPath { relfd_idx: Some(0), path_idx: 1 })
    } else {
        None
    }
}

/// Looks a syscall name up in the dispatch table.
pub fn syscall_info(name: &String) -> (r: Option<SyscallInfo>)
    ensures
        r == spec_syscall_info(name@),
{
    if string_eq_str(name, "mknod") {
        Some(SyscallInfo::Mknod { mode_idx: 1 })
    } else if string_eq_str(name, "mknodat") {
        Some(SyscallInfo::Mknod { mode_idx: 2 })
    } else if string_eq_str(name, "mmap") || string_eq_str(name, "mmap2") || string_eq_str(
        name,
        "shmat",
    ) || string_eq_str(name, "mprotect") || string_eq_str(name, "pkey_mprotect") {
        Some(SyscallInfo::Mmap { prot_idx: 2 })
    } else if string_eq_str(name, "connect") || string_eq_str(name, "bind") {
        Some(SyscallInfo::Network { sockaddr_idx: 1 })
    } else if string_eq_str(name, "recvfrom") || string_eq_str(name, "sendto") {
        Some(SyscallInfo::Network { sockaddr_idx: 4 })
    } else if string_eq_str(name, "open") {
        Some(SyscallInfo::Open { relfd_idx: None, path_idx: 0, flags_idx: 1 })
    } else if string_eq_str(name, "openat") {
        Some(SyscallInfo::Open { relfd_idx: Some(0), path_idx: 1, flags_idx: 2 })
    } else if string_eq_str(name, "rename") {
        Some(
            SyscallInfo::Rename {
                relfd_src_idx: None,
                path_src_idx: 0,
                relfd_dst_idx: None,
                path_dst_idx: 1,
                flags_idx: None,
            },
        )
    } else if string_eq_str(name, "renameat") {
        Some(
            SyscallInfo::Rename {
                relfd_src_idx: Some(0),
                path_src_idx: 1,
                relfd_dst_idx: Some(2),
                path_dst_idx: 3,
                flags_idx: None,
            },
        )
    } else if string_eq_str(name, "renameat2") {
        Some(
            SyscallInfo::Rename {
                relfd_src_idx: Some(0),
                path_src_idx: 1,
                relfd_dst_idx: Some(2),
                path_dst_idx: 3,
                flags_idx: Some(4),
            },
        )
    } else if string_eq_str(name, "sched_setscheduler") {
        Some(SyscallInfo::SetScheduler)
    } else if string_eq_str(name, "socket") {
        Some(SyscallInfo::Socket)
    } else if string_eq_str(name, "fstat") || string_eq_str(name, "getdents") {
        Some(SyscallInfo::StatFd { fd_idx: 0 })
    } else if string_eq_str(name, "stat") || string_eq_str(name, "lstat") {
        Some(SyscallInfo::StatPath { relfd_idx: None, path_idx: 0 })
    } else if string_eq_str(name, "newfstatat") {
        Some(SyscallInfo::StatPath { relfd_idx: Some(0), path_idx: 1 })
    } else {
        None
    }
}

/// Why a summarization pass failed.
#[derive(Debug, PartialEq, Eq)]
pub enum SummarizeError {
    /// A malformed tracer line was handed in; recoverable per line upstream,
    /// fatal once handed to the summarizer.
    Parse(ParseError),
    /// A known syscall's arguments do not match the expected expression
    /// shape: an upstream bug, not a valid input.
    MalformedSyscall { name: String },
    /// An `AF_...` constant no family is known for.
    UnknownSocketFamily { family: String },
    /// No usable `SOCK_...` type flag on a socket creation.
    UnknownSocketProtocol { flag: String },
}

/// Mathematical image of a `SummarizeError`.
#[verifier::ext_equal]
pub enum SummarizeErrorModel {
    Parse(Seq<char>, int),
    MalformedSyscall(Seq<char>),
    UnknownSocketFamily(Seq<char>),
    UnknownSocketProtocol(Seq<char>),
}

impl SummarizeError {
    pub open spec fn model(self) -> SummarizeErrorModel {
        match self {
            SummarizeError::Parse(pe) => SummarizeErrorModel::Parse(pe.line@, pe.offset as int),
            SummarizeError::MalformedSyscall { name } => SummarizeErrorModel::MalformedSyscall(
                name@,
            ),
            SummarizeError::UnknownSocketFamily { family } =>
                SummarizeErrorModel::UnknownSocketFamily(family@),
            SummarizeError::UnknownSocketProtocol { flag } =>
                SummarizeErrorModel::UnknownSocketProtocol(flag@),
        }
    }
}

/// The malformed-arguments error for this syscall.
fn malformed(s: &Syscall) -> (r: SummarizeError)
    ensures
        r.model() == SummarizeErrorModel::MalformedSyscall(s.name@),
{
    SummarizeError::MalformedSyscall { name: s.name.clone() }
}

/// One remembered socket: which process created it, under which descriptor,
/// with which protocol.
#[derive(Debug, Clone, Copy, PartialEq, Eq)]
struct SockEntry {
    pid: u32,
    fd: i128,
    proto: SocketProtocol,
}

/// The per-process descriptor-to-protocol table the entries stand for; a
/// later entry for the same descriptor overrides an earlier one.
spec fn socks_model(entries: Seq<SockEntry>) -> Map<(u32, int), SocketProtocol>
    decreases entries.len(),
{
    if entries.len() == 0 {
        Map::empty()
    } else {
        socks_model(entries.drop_last()).insert(
            (entries.last().pid, entries.last().fd as int),
            entries.last().proto,
        )
    }
}

/// The protocol last remembered for this process and descriptor.
fn socks_lookup(entries: &Vec<SockEntry>, pid: u32, fd: i128) -> (r: Option<SocketProtocol>)
    ensures
        r is Some == socks_model(entries@).contains_key((pid, fd as int)),
        r matches Some(p) ==> p == socks_model(entries@)[(pid, fd as int)],
{
    let ghost key = (pid, fd as int);
    let mut i: usize = entries.len();
    proof {
        assert(entries@.take(entries@.len() as int) =~= entries@);
    }
    while i > 0
        invariant
            0 <= i <= entries@.len(),
            key == (pid, fd as int),
            socks_model(entries@).contains_key(key) == socks_model(
                entries@.take(i as int),
            ).contains_key(key),
            socks_model(entries@).contains_key(key) ==> socks_model(entries@)[key]
                == socks_model(entries@.take(i as int))[key],
        decreases i,
    {
        let e = entries[i - 1];
        proof {
            assert(entries@.take(i as int).drop_last() =~= entries@.take(i as int - 1));
            assert(entries@.take(i as int).last() == entries@[i - 1]);
        }
        if e.pid == pid && e.fd == fd {
            proof {
                assert((e.pid, e.fd as int) == key);
                assert(socks_model(entries@.take(i as int)) == socks_model(
                    entries@.take(i as int - 1),
                ).insert(key, e.proto));
                assert(socks_model(entries@.take(i as int)).contains_key(key));
                assert(socks_model(entries@.take(i as int))[key] == e.proto);
            }
            return Some(e.proto);
        }
        proof {
            assert((e.pid, e.fd as int) != key);
            assert(socks_model(entries@.take(i as int)) == socks_model(
                entries@.take(i as int - 1),
            ).insert((e.pid, e.fd as int), e.proto));
        }
        i -= 1;
    }
    proof {
        assert(entries@.take(0) =~= Seq::<SockEntry>::empty());
    }
    None
}

/// Remembers the protocol of a freshly created socket.
fn socks_insert(entries: &mut Vec<SockEntry>, pid: u32, fd: i128, proto: SocketProtocol)
    ensures
        socks_model(final(entries)@) == socks_model(old(entries)@).insert(
            (pid, fd as int),
            proto,
        ),
{
    entries.push(SockEntry { pid, fd, proto });
    proof {
        assert(entries@.drop_last() =~= old(entries)@);
    }
}

/// The actions an `open`-family call stands for, by its flags.
pub open spec fn open_flag_actions(v: IntegerExpressionValue, p: Seq<u8>) -> Seq<ActionModel> {
    (if v.spec_is_flag_set("O_CREAT"@) {
        seq![ActionModel::Create(p)]
    } else {
        Seq::empty()
    }) + (if v.spec_is_flag_set("O_WRONLY"@) || v.spec_is_flag_set("O_RDWR"@)
        || v.spec_is_flag_set("O_TRUNC"@) {
        seq![ActionModel::Write(p)]
    } else {
        Seq::empty()
    }) + (if !v.spec_is_flag_set("O_WRONLY"@) {
        seq![ActionModel::Read(p)]
    } else {
        Seq::empty()
    })
}

/// What an `open`-family handler produces.
pub open spec fn open_actions_spec(
    s: Syscall,
    relfd_idx: Option<usize>,
    path_idx: usize,
    flags_idx: usize,
) -> Result<Seq<ActionModel>, SummarizeErrorModel> {
    if path_idx < s.args@.len() && flags_idx < s.args@.len() {
        match (s.args@[path_idx as int], s.args@[flags_idx as int]) {
            (Expression::Buffer(be), Expression::Integer(ie)) => if be.type_ is Unknown {
                match spec_resolve_path(be.value@, relfd_idx, s) {
                    None => Ok(Seq::empty()),
                    Some(p) => Ok(open_flag_actions(ie.value, p)),
                }
            } else {
                Err(SummarizeErrorModel::MalformedSyscall(s.name@))
            },
            _ => Err(SummarizeErrorModel::MalformedSyscall(s.name@)),
        }
    } else {
        Err(SummarizeErrorModel::MalformedSyscall(s.name@))
    }
}

/// `open`/`openat`: create, write and read actions on the opened path.
fn handle_open(
    s: &Syscall,
    relfd_idx: Option<usize>,
    path_idx: usize,
    flags_idx: usize,
) -> (r: Result<Vec<ProgramAction>, SummarizeError>)
    ensures
        r matches Ok(v) ==> open_actions_spec(*s, relfd_idx, path_idx, flags_idx)
            matches Ok(m) && models_of(v@) == m,
        r matches Err(e) ==> open_actions_spec(*s, relfd_idx, path_idx, flags_idx)
            matches Err(em) && e.model() == em,
{
    if !(path_idx < s.args.len() && flags_idx < s.args.len()) {
        return Err(malformed(s));
    }
    match (&s.args[path_idx], &s.args[flags_idx]) {
        (Expression::Buffer(be), Expression::Integer(ie)) => {
            if !matches!(be.type_, BufferType::Unknown) {
                return Err(malformed(s));
            }
            match resolve_path(&be.value, relfd_idx, s) {
                None => {
                    proof {
                        assert(models_of(Seq::<ProgramAction>::empty()) =~= Seq::<
                            ActionModel,
                        >::empty());
                    }
                    Ok(Vec::new())
                },
                Some(p) => {
                    let ghost pm = p@;
                    let mut v: Vec<ProgramAction> = Vec::new();
                    let creat = ie.value.is_flag_set("O_CREAT");
                    let wronly = ie.value.is_flag_set("O_WRONLY");
                    let write = wronly || ie.value.is_flag_set("O_RDWR")
                        || ie.value.is_flag_set("O_TRUNC");
                    if creat {
                        v.push(ProgramAction::Create(copy_bytes(&p)));
                    }
                    if write {
                        v.push(ProgramAction::Write(copy_bytes(&p)));
                    }
                    if !wronly {
                        v.push(ProgramAction::Read(p));
                    }
                    proof {
                        assert(models_of(v@) =~= open_flag_actions(ie.value, pm));
                    }
                    Ok(v)
                },
            }
        },
        _ => Err(malformed(s)),
    }
}

/// What a `stat`-by-descriptor handler produces.
pub open spec fn stat_fd_actions_spec(s: Syscall, fd_idx: usize) -> Result<
    Seq<ActionModel>,
    SummarizeErrorModel,
> {
    match arg_metadata(s, Some(fd_idx)) {
        None => Err(SummarizeErrorModel::MalformedSyscall(s.name@)),
        Some(m) => match spec_resolve_path(m, None, s) {
            None => Ok(Seq::empty()),
            Some(p) => Ok(seq![ActionModel::Read(p)]),
        },
    }
}

/// `fstat`/`getdents`: a read of the descriptor's path.
fn handle_stat_fd(s: &Syscall, fd_idx: usize) -> (r: Result<Vec<ProgramAction>, SummarizeError>)
    ensures
        r matches Ok(v) ==> stat_fd_actions_spec(*s, fd_idx) matches Ok(m) && models_of(v@)
            == m,
        r matches Err(e) ==> stat_fd_actions_spec(*s, fd_idx) matches Err(em) && e.model()
            == em,
{
    let meta: Option<&Vec<u8>> = if fd_idx < s.args.len() {
        s.args[fd_idx].metadata()
    } else {
        None
    };
    match meta {
        None => Err(malformed(s)),
        Some(m) => {
            match resolve_path(m, None, s) {
                None => {
                    proof {
                        assert(models_of(Seq::<ProgramAction>::empty()) =~= Seq::<
                            ActionModel,
                        >::empty());
                    }
                    Ok(Vec::new())
                },
                Some(p) => {
                    let ghost pm = p@;
                    let mut v: Vec<ProgramAction> = Vec::new();
                    v.push(ProgramAction::Read(p));
                    proof {
                        assert(models_of(v@) =~= seq![ActionModel::Read(pm)]);
                    }
                    Ok(v)
                },
            }
        },
    }
}

/// What a `stat`-by-path handler produces.
pub open spec fn stat_path_actions_spec(
    s: Syscall,
    relfd_idx: Option<usize>,
    path_idx: usize,
) -> Result<Seq<ActionModel>, SummarizeErrorModel> {
    if path_idx < s.args@.len() {
        match s.args@[path_idx as int] {
            Expression::Buffer(be) => if be.type_ is Unknown {
                match spec_resolve_path(be.value@, relfd_idx, s) {
                    None => Ok(Seq::empty()),
                    Some(p) => Ok(seq![ActionModel::Read(p)]),
                }
            } else {
                Err(SummarizeErrorModel::MalformedSyscall(s.name@))
            },
            _ => Err(SummarizeErrorModel::MalformedSyscall(s.name@)),
        }
    } else {
        Err(SummarizeErrorModel::MalformedSyscall(s.name@))
    }
}

/// `stat`/`lstat`/`newfstatat`: a read of the named path.
fn handle_stat_path(s: &Syscall, relfd_idx: Option<usize>, path_idx: usize) -> (r: Result<
    Vec<ProgramAction>,
    SummarizeError,
>)
    ensures
        r matches Ok(v) ==> stat_path_actions_spec(*s, relfd_idx, path_idx) matches Ok(m)
            && models_of(v@) == m,
        r matches Err(e) ==> stat_path_actions_spec(*s, relfd_idx, path_idx) matches Err(em)
            && e.model() == em,
{
    if !(path_idx < s.args.len()) {
        return Err(malformed(s));
    }
    match &s.args[path_idx] {
        Expression::Buffer(be) => {
            if !matches!(be.type_, BufferType::Unknown) {
                return Err(malformed(s));
            }
            match resolve_path(&be.value, relfd_idx, s) {
                None => {
                    proof {
                        assert(models_of(Seq::<ProgramAction>::empty()) =~= Seq::<
                            ActionModel,
                        >::empty());
                    }
                    Ok(Vec::new())
                },
                Some(p) => {
                    let ghost pm = p@;
                    let mut v: Vec<ProgramAction> = Vec::new();
                    v.push(ProgramAction::Read(p));
                    proof {
                        assert(models_of(v@) =~= seq![ActionModel::Read(pm)]);
                    }
                    Ok(v)
                },
            }
        },
        _ => Err(malformed(s)),
    }
}

/// What the `mknod` handler produces: a privileged special-file creation when
/// the mode makes a block or character device.
pub open spec fn mknod_actions_spec(s: Syscall, mode_idx: usize) -> Result<
    Seq<ActionModel>,
    SummarizeErrorModel,
> {
    if mode_idx < s.args@.len() {
        match s.args@[mode_idx as int] {
            Expression::Integer(ie) => if ie.value.spec_is_flag_set("S_IFBLK"@)
                || ie.value.spec_is_flag_set("S_IFCHR"@) {
                Ok(seq![ActionModel::MknodSpecial])
            } else {
                Ok(Seq::empty())
            },
            _ => Err(SummarizeErrorModel::MalformedSyscall(s.name@)),
        }
    } else {
        Err(SummarizeErrorModel::MalformedSyscall(s.name@))
    }
}

/// `mknod`/`mknodat`.
fn handle_mknod(s: &Syscall, mode_idx: usize) -> (r: Result<Vec<ProgramAction>, SummarizeError>)
    ensures
        r matches Ok(v) ==> mknod_actions_spec(*s, mode_idx) matches Ok(m) && models_of(v@)
            == m,
        r matches Err(e) ==> mknod_actions_spec(*s, mode_idx) matches Err(em) && e.model()
            == em,
{
    if !(mode_idx < s.args.len()) {
        return Err(malformed(s));
    }
    match &s.args[mode_idx] {
        Expression::Integer(ie) => {
            let mut v: Vec<ProgramAction> = Vec::new();
            if ie.value.is_flag_set("S_IFBLK") || ie.value.is_flag_set("S_IFCHR") {
                v.push(ProgramAction::MknodSpecial);
                proof {
                    assert(models_of(v@) =~= seq![ActionModel::MknodSpecial]);
                }
            } else {
                proof {
                    assert(models_of(v@) =~= Seq::<ActionModel>::empty());
                }
            }
            Ok(v)
        },
        _ => Err(malformed(s)),
    }
}

/// What the memory-mapping handler produces: a write-and-execute mapping when
/// the protection asks for both bits.
pub open spec fn mmap_actions_spec(s: Syscall, prot_idx: usize) -> Result<
    Seq<ActionModel>,
    SummarizeErrorModel,
> {
    if prot_idx < s.args@.len() {
        match s.args@[prot_idx as int] {
            Expression::Integer(ie) => if ie.value.spec_is_flag_set("PROT_WRITE"@)
                && ie.value.spec_is_flag_set("PROT_EXEC"@) {
                Ok(seq![ActionModel::WriteExecuteMemoryMapping])
            } else {
                Ok(Seq::empty())
            },
            _ => Err(SummarizeErrorModel::MalformedSyscall(s.name@)),
        }
    } else {
        Err(SummarizeErrorModel::MalformedSyscall(s.name@))
    }
}

/// `mmap`/`mprotect` family.
fn handle_mmap(s: &Syscall, prot_idx: usize) -> (r: Result<Vec<ProgramAction>, SummarizeError>)
    ensures
        r matches Ok(v) ==> mmap_actions_spec(*s, prot_idx) matches Ok(m) && models_of(v@)
            == m,
        r matches Err(e) ==> mmap_actions_spec(*s, prot_idx) matches Err(em) && e.model()
            == em,
{
    if !(prot_idx < s.args.len()) {
        return Err(malformed(s));
    }
    match &s.args[prot_idx] {
        Expression::Integer(ie) => {
            let mut v: Vec<ProgramAction> = Vec::new();
            if ie.value.is_flag_set("PROT_WRITE") && ie.value.is_flag_set("PROT_EXEC") {
                v.push(ProgramAction::WriteExecuteMemoryMapping);
                proof {
                    assert(models_of(v@) =~= seq![ActionModel::WriteExecuteMemoryMapping]);
                }
            } else {
                proof {
                    assert(models_of(v@) =~= Seq::<ActionModel>::empty());
                }
            }
            Ok(v)
        },
        _ => Err(malformed(s)),
    }
}

/// What the scheduler handler produces: a real-time scheduler action for the
/// FIFO and round-robin policies.
pub open spec fn sched_actions_spec(s: Syscall) -> Result<Seq<ActionModel>, SummarizeErrorModel> {
    if 1 < s.args@.len() {
        match s.args@[1] {
            Expression::Integer(ie) => if ie.value.spec_is_flag_set("SCHED_FIFO"@)
                || ie.value.spec_is_flag_set("SCHED_RR"@) {
                Ok(seq![ActionModel::SetRealtimeScheduler])
            } else {
                Ok(Seq::empty())
            },
            _ => Err(SummarizeErrorModel::MalformedSyscall(s.name@)),
        }
    } else {
        Err(SummarizeErrorModel::MalformedSyscall(s.name@))
    }
}

/// `sched_setscheduler`.
fn handle_sched(s: &Syscall) -> (r: Result<Vec<ProgramAction>, SummarizeError>)
    ensures
        r matches Ok(v) ==> sched_actions_spec(*s) matches Ok(m) && models_of(v@) == m,
        r matches Err(e) ==> sched_actions_spec(*s) matches Err(em) && e.model() == em,
{
    if !(1 < s.args.len()) {
        return Err(malformed(s));
    }
    match &s.args[1] {
        Expression::Integer(ie) => {
            let mut v: Vec<ProgramAction> = Vec::new();
            if ie.value.is_flag_set("SCHED_FIFO") || ie.value.is_flag_set("SCHED_RR") {
                v.push(ProgramAction::SetRealtimeScheduler);
                proof {
                    assert(models_of(v@) =~= seq![ActionModel::SetRealtimeScheduler]);
                }
            } else {
                proof {
                    assert(models_of(v@) =~= Seq::<ActionModel>::empty());
                }
            }
            Ok(v)
        },
        _ => Err(malformed(s)),
    }
}

/// What the `timer_create` handler produces: a privileged alarm for the
/// wake-from-suspend clocks.
pub open spec fn timer_actions_spec(s: Syscall) -> Result<Seq<ActionModel>, SummarizeErrorModel> {
    if 0 < s.args@.len() {
        match s.args@[0] {
            Expression::Integer(ie) => match ie.value {
                IntegerExpressionValue::NamedConst(clock) => if clock@ == "CLOCK_REALTIME_ALARM"@
                    || clock@ == "CLOCK_BOOTTIME_ALARM"@ {
                    Ok(seq![ActionModel::SetAlarm])
                } else {
                    Ok(Seq::empty())
                },
                _ => Err(SummarizeErrorModel::MalformedSyscall(s.name@)),
            },
            _ => Err(SummarizeErrorModel::MalformedSyscall(s.name@)),
        }
    } else {
        Err(SummarizeErrorModel::MalformedSyscall(s.name@))
    }
}

/// `timer_create`.
fn handle_timer(s: &Syscall) -> (r: Result<Vec<ProgramAction>, SummarizeError>)
    ensures
        r matches Ok(v) ==> timer_actions_spec(*s) matches Ok(m) && models_of(v@) == m,
        r matches Err(e) ==> timer_actions_spec(*s) matches Err(em) && e.model() == em,
{
    if !(0 < s.args.len()) {
        return Err(malformed(s));
    }
    match &s.args[0] {
        Expression::Integer(ie) => {
            match &ie.value {
                IntegerExpressionValue::NamedConst(clock) => {
                    let mut v: Vec<ProgramAction> = Vec::new();
                    if string_eq_str(clock, "CLOCK_REALTIME_ALARM") || string_eq_str(
                        clock,
                        "CLOCK_BOOTTIME_ALARM",
                    ) {
                        v.push(ProgramAction::SetAlarm);
                        proof {
                            assert(models_of(v@) =~= seq![ActionModel::SetAlarm]);
                        }
                    } else {
                        proof {
                            assert(models_of(v@) =~= Seq::<ActionModel>::empty());
                        }
                    }
                    Ok(v)
                },
                _ => Err(malformed(s)),
            }
        },
        _ => Err(malformed(s)),
    }
}

/// What the `epoll_ctl` handler produces: a wakeup inhibition when a wakeup
/// event source is added.
pub open spec fn epoll_actions_spec(s: Syscall) -> Result<Seq<ActionModel>, SummarizeErrorModel> {
    let is_add = 1 < s.args@.len() && (s.args@[1] matches Expression::Integer(ie)
        && ie.value matches IntegerExpressionValue::NamedConst(op) && op@ == "EPOLL_CTL_ADD"@);
    if !is_add {
        Ok(Seq::empty())
    } else if !(3 < s.args@.len()) {
        Err(SummarizeErrorModel::MalformedSyscall(s.name@))
    } else {
        match s.args@[3] {
            Expression::Struct(ms) => match member_lookup(ms@, "events"@) {
                Some(Expression::Integer(ie)) => if ie.value.spec_is_flag_set("EPOLLWAKEUP"@) {
                    Ok(seq![ActionModel::Wakeup])
                } else {
                    Ok(Seq::empty())
                },
                Some(_) => Err(SummarizeErrorModel::MalformedSyscall(s.name@)),
                None => Err(SummarizeErrorModel::MalformedSyscall(s.name@)),
            },
            _ => Err(SummarizeErrorModel::MalformedSyscall(s.name@)),
        }
    }
}

/// `epoll_ctl`.
fn handle_epoll(s: &Syscall) -> (r: Result<Vec<ProgramAction>, SummarizeError>)
    ensures
        r matches Ok(v) ==> epoll_actions_spec(*s) matches Ok(m) && models_of(v@) == m,
        r matches Err(e) ==> epoll_actions_spec(*s) matches Err(em) && e.model() == em,
{
    let is_add = if 1 < s.args.len() {
        match &s.args[1] {
            Expression::Integer(ie) => match &ie.value {
                IntegerExpressionValue::NamedConst(op) => string_eq_str(op, "EPOLL_CTL_ADD"),
                _ => false,
            },
            _ => false,
        }
    } else {
        false
    };
    if !is_add {
        proof {
            assert(models_of(Seq::<ProgramAction>::empty()) =~= Seq::<ActionModel>::empty());
        }
        return Ok(Vec::new());
    }
    if !(3 < s.args.len()) {
        return Err(malformed(s));
    }
    match &s.args[3] {
        Expression::Struct(ms) => {
            match struct_member(ms, "events") {
                Some(Expression::Integer(ie)) => {
                    let mut v: Vec<ProgramAction> = Vec::new();
                    if ie.value.is_flag_set("EPOLLWAKEUP") {
                        v.push(ProgramAction::Wakeup);
                        proof {
                            assert(models_of(v@) =~= seq![ActionModel::Wakeup]);
                        }
                    } else {
                        proof {
                            assert(models_of(v@) =~= Seq::<ActionModel>::empty());
                        }
                    }
                    Ok(v)
                },
                Some(_) => Err(malformed(s)),
                None => Err(malformed(s)),
            }
        },
        _ => Err(malformed(s)),
    }
}

/// What a `rename`-family handler produces.
pub open spec fn rename_actions_spec(
    s: Syscall,
    relfd_src_idx: Option<usize>,
    path_src_idx: usize,
    relfd_dst_idx: Option<usize>,
    path_dst_idx: usize,
    flags_idx: Option<usize>,
) -> Result<Seq<ActionModel>, SummarizeErrorModel> {
    if path_src_idx < s.args@.len() && path_dst_idx < s.args@.len() {
        match (s.args@[path_src_idx as int], s.args@[path_dst_idx as int]) {
            (Expression::Buffer(b1), Expression::Buffer(b2)) => if b1.type_ is Unknown
                && b2.type_ is Unknown {
                match (
                    spec_resolve_path(b1.value@, relfd_src_idx, s),
                    spec_resolve_path(b2.value@, relfd_dst_idx, s),
                ) {
                    (Some(src), Some(dst)) => match flags_idx {
                        Some(fi) => if fi < s.args@.len() {
                            match s.args@[fi as int] {
                                Expression::Integer(ie) => Ok(
                                    rename_flag_actions(
                                        src,
                                        dst,
                                        ie.value.spec_is_flag_set("RENAME_EXCHANGE"@),
                                    ),
                                ),
                                _ => Err(SummarizeErrorModel::MalformedSyscall(s.name@)),
                            }
                        } else {
                            Err(SummarizeErrorModel::MalformedSyscall(s.name@))
                        },
                        None => Ok(rename_flag_actions(src, dst, false)),
                    },
                    _ => Ok(Seq::empty()),
                }
            } else {
                Err(SummarizeErrorModel::MalformedSyscall(s.name@))
            },
            _ => Err(SummarizeErrorModel::MalformedSyscall(s.name@)),
        }
    } else {
        Err(SummarizeErrorModel::MalformedSyscall(s.name@))
    }
}

/// The actions of a rename: the source is read and written, the destination
/// is written, and either read (an exchange) or created.
pub open spec fn rename_flag_actions(src: Seq<u8>, dst: Seq<u8>, exchange: bool) -> Seq<
    ActionModel,
> {
    seq![ActionModel::Read(src), ActionModel::Write(src)] + (if exchange {
        seq![ActionModel::Read(dst)]
    } else {
        seq![ActionModel::Create(dst)]
    }) + seq![ActionModel::Write(dst)]
}

/// `rename`/`renameat`/`renameat2`.
fn handle_rename(
    s: &Syscall,
    relfd_src_idx: Option<usize>,
    path_src_idx: usize,
    relfd_dst_idx: Option<usize>,
    path_dst_idx: usize,
    flags_idx: Option<usize>,
) -> (r: Result<Vec<ProgramAction>, SummarizeError>)
    ensures
        r matches Ok(v) ==> rename_actions_spec(
            *s,
            relfd_src_idx,
            path_src_idx,
            relfd_dst_idx,
            path_dst_idx,
            flags_idx,
        ) matches Ok(m) && models_of(v@) == m,
        r matches Err(e) ==> rename_actions_spec(
            *s,
            relfd_src_idx,
            path_src_idx,
            relfd_dst_idx,
            path_dst_idx,
            flags_idx,
        ) matches Err(em) && e.model() == em,
{
    if !(path_src_idx < s.args.len() && path_dst_idx < s.args.len()) {
        return Err(malformed(s));
    }
    match (&s.args[path_src_idx], &s.args[path_dst_idx]) {
        (Expression::Buffer(b1), Expression::Buffer(b2)) => {
            if !(matches!(b1.type_, BufferType::Unknown) && matches!(
                b2.type_,
                BufferType::Unknown,
            )) {
                return Err(malformed(s));
            }
            let src = resolve_path(&b1.value, relfd_src_idx, s);
            let dst = resolve_path(&b2.value, relfd_dst_idx, s);
            match (src, dst) {
                (Some(src), Some(dst)) => {
                    let exchange: bool = match flags_idx {
                        Some(fi) => {
                            if fi < s.args.len() {
                                match &s.args[fi] {
                                    Expression::Integer(ie) => ie.value.is_flag_set(
                                        "RENAME_EXCHANGE",
                                    ),
                                    _ => {
                                        return Err(malformed(s));
                                    },
                                }
                            } else {
                                return Err(malformed(s));
                            }
                        },
                        None => false,
                    };
                    let ghost srcm = src@;
                    let ghost dstm = dst@;
                    let mut v: Vec<ProgramAction> = Vec::new();
                    v.push(ProgramAction::Read(copy_bytes(&src)));
                    v.push(ProgramAction::Write(src));
                    if exchange {
                        v.push(ProgramAction::Read(copy_bytes(&dst)));
                    } else {
                        v.push(ProgramAction::Create(copy_bytes(&dst)));
                    }
                    v.push(ProgramAction::Write(dst));
                    proof {
                        assert(models_of(v@) =~= rename_flag_actions(srcm, dstm, exchange));
                    }
                    Ok(v)
                },
                _ => {
                    proof {
                        assert(models_of(Seq::<ProgramAction>::empty()) =~= Seq::<
                            ActionModel,
                        >::empty());
                    }
                    Ok(Vec::new())
                },
            }
        },
        _ => Err(malformed(s)),
    }
}

/// First member whose name ends in `_port`, scanning from the front.
pub open spec fn first_port_member(ms: Seq<(String, Expression)>) -> Option<Expression>
    decreases ms.len(),
{
    if ms.len() == 0 {
        None
    } else if spec_has_suffix(ms[0].0@, "_port"@) {
        Some(ms[0].1)
    } else {
        first_port_member(ms.drop_first())
    }
}

/// An unmatched prefix does not change which port member is found.
proof fn lemma_first_port_member_skip(ms: Seq<(String, Expression)>, i: int)
    requires
        0 <= i <= ms.len(),
        forall|j: int| 0 <= j < i ==> !spec_has_suffix((#[trigger] ms[j]).0@, "_port"@),
    ensures
        first_port_member(ms) == first_port_member(ms.skip(i)),
    decreases i,
{
    if i > 0 {
        assert(!spec_has_suffix(ms[0].0@, "_port"@));
        lemma_first_port_member_skip(ms.drop_first(), i - 1);
        assert(ms.drop_first().skip(i - 1) =~= ms.skip(i));
    } else {
        assert(ms.skip(0) =~= ms);
    }
}

/// The local port a socket address names: the first `..._port` member, when
/// it is an `htons` macro call on a nonzero literal. A missing member, a
/// non-literal argument or a zero port all mean the port is unknown.
pub open spec fn port_from_members(ms: Seq<(String, Expression)>) -> CountableSetModel {
    match first_port_member(ms) {
        None => CountableSetModel::NoneOf,
        Some(e) => match e {
            Expression::Macro { name, args } => if name@ == "htons"@ && args@.len() > 0 {
                match args@[0] {
                    Expression::Integer(ie) => match ie.value {
                        IntegerExpressionValue::Literal(pv) => {
                            if 1 <= pv <= 65535 {
                                CountableSetModel::One(NetworkPort(pv as u16))
                            } else {
                                CountableSetModel::NoneOf
                            }
                        },
                        _ => CountableSetModel::NoneOf,
                    },
                    _ => CountableSetModel::NoneOf,
                }
            } else {
                CountableSetModel::NoneOf
            },
            _ => CountableSetModel::NoneOf,
        },
    }
}

/// First member of the struct whose name ends in `_port`.
fn find_port_member<'a>(ms: &'a Vec<(String, Expression)>) -> (r: Option<&'a Expression>)
    ensures
        r is Some == first_port_member(ms@) is Some,
        r matches Some(e) ==> *e == first_port_member(ms@).unwrap(),
{
    let mut i: usize = 0;
    while i < ms.len()
        invariant
            0 <= i <= ms@.len(),
            forall|j: int| 0 <= j < i ==> !spec_has_suffix((#[trigger] ms@[j]).0@, "_port"@),
        decreases ms@.len() - i,
    {
        if string_has_suffix(&ms[i].0, "_port") {
            proof {
                lemma_first_port_member_skip(ms@, i as int);
                assert(ms@.skip(i as int)[0] == ms@[i as int]);
            }
            return Some(&ms[i].1);
        }
        i += 1;
    }
    proof {
        lemma_first_port_member_skip(ms@, ms@.len() as int);
        assert(ms@.skip(ms@.len() as int) =~= Seq::<(String, Expression)>::empty());
    }
    None
}

/// Extracts the local port from a socket address struct.
fn local_port_of(ms: &Vec<(String, Expression)>) -> (r: CountableSetSpecifier)
    ensures
        r.model() == port_from_members(ms@),
        r.wf(),
{
    let found = find_port_member(ms);
    match found {
        None => CountableSetSpecifier::NoneOf,
        Some(e) => match e {
            Expression::Macro { name, args } => {
                if string_eq_str(name, "htons") && args.len() > 0 {
                    match &args[0] {
                        Expression::Integer(ie) => match &ie.value {
                            IntegerExpressionValue::Literal(pv) => {
                                if 1 <= *pv && *pv <= 65535 {
                                    CountableSetSpecifier::One(NetworkPort(*pv as u16))
                                } else {
                                    CountableSetSpecifier::NoneOf
                                }
                            },
                            _ => CountableSetSpecifier::NoneOf,
                        },
                        _ => CountableSetSpecifier::NoneOf,
                    }
                } else {
                    CountableSetSpecifier::NoneOf
                }
            },
            _ => CountableSetSpecifier::NoneOf,
        },
    }
}

/// What a `connect`/`bind`/`recvfrom`/`sendto` handler produces: a read of a
/// Unix-domain socket path, and, for `bind` on a socket this process created,
/// the bind activity itself.
pub open spec fn network_actions_spec(
    s: Syscall,
    sockaddr_idx: usize,
    socks: Map<(u32, int), SocketProtocol>,
) -> Result<Seq<ActionModel>, SummarizeErrorModel> {
    if !(sockaddr_idx < s.args@.len() && s.args@[sockaddr_idx as int] is Struct) {
        Ok(Seq::empty())
    } else {
        let ms = s.args@[sockaddr_idx as int]->Struct_0;
        match member_lookup(ms@, "sa_family"@) {
            Some(Expression::Integer(ie)) => match ie.value {
                IntegerExpressionValue::NamedConst(af) => {
                    let acts1 = if af@ == "AF_UNIX"@ {
                        match spec_socket_address_uds_path(ms@, s) {
                            Some(p) => seq![ActionModel::Read(p)],
                            None => Seq::<ActionModel>::empty(),
                        }
                    } else {
                        Seq::<ActionModel>::empty()
                    };
                    if s.name@ == "bind"@ {
                        if s.args@.len() == 0 {
                            Err(SummarizeErrorModel::MalformedSyscall(s.name@))
                        } else {
                            match s.args@[0] {
                                Expression::Integer(fd_ie) => match fd_ie.value {
                                    IntegerExpressionValue::Literal(fd) => {
                                        match spec_parse_socket_family(af@) {
                                            None => Err(
                                                SummarizeErrorModel::UnknownSocketFamily(af@),
                                            ),
                                            Some(family) => {
                                                if socks.contains_key((s.pid, fd as int)) {
                                                    Ok(
                                                        acts1 + seq![
                                                            ActionModel::NetworkActivity(
                                                                NetworkActivityModel {
                                                                    af: SetSpecModel::One(family),
                                                                    proto: SetSpecModel::One(
                                                                        socks[(s.pid, fd as int)],
                                                                    ),
                                                                    kind: SetSpecModel::One(
                                                                        NetworkActivityKind::Bind,
                                                                    ),
                                                                    local_port: port_from_members(
                                                                        ms@,
                                                                    ),
                                                                },
                                                            )
                                                        ],
                                                    )
                                                } else {
                                                    Ok(acts1)
                                                }
                                            },
                                        }
                                    },
                                    _ => Err(SummarizeErrorModel::MalformedSyscall(s.name@)),
                                },
                                _ => Err(SummarizeErrorModel::MalformedSyscall(s.name@)),
                            }
                        }
                    } else {
                        Ok(acts1)
                    }
                },
                _ => Err(SummarizeErrorModel::MalformedSyscall(s.name@)),
            },
            _ => Err(SummarizeErrorModel::MalformedSyscall(s.name@)),
        }
    }
}

/// `connect`/`bind`/`recvfrom`/`sendto`.
fn handle_network(s: &Syscall, sockaddr_idx: usize, entries: &Vec<SockEntry>) -> (r: Result<
    Vec<ProgramAction>,
    SummarizeError,
>)
    ensures
        r matches Ok(v) ==> network_actions_spec(*s, sockaddr_idx, socks_model(entries@))
            matches Ok(m) && models_of(v@) == m,
        r matches Err(e) ==> network_actions_spec(*s, sockaddr_idx, socks_model(entries@))
            matches Err(em) && e.model() == em,
{
    if !(sockaddr_idx < s.args.len()) {
        proof {
            assert(models_of(Seq::<ProgramAction>::empty()) =~= Seq::<ActionModel>::empty());
        }
        return Ok(Vec::new());
    }
    let ms: &Vec<(String, Expression)> = match &s.args[sockaddr_idx] {
        Expression::Struct(ms) => ms,
        _ => {
            proof {
                assert(models_of(Seq::<ProgramAction>::empty()) =~= Seq::<
                    ActionModel,
                >::empty());
            }
            return Ok(Vec::new());
        },
    };
    let af: &String = match struct_member(ms, "sa_family") {
        Some(Expression::Integer(ie)) => match &ie.value {
            IntegerExpressionValue::NamedConst(af) => af,
            _ => {
                return Err(malformed(s));
            },
        },
        _ => {
            return Err(malformed(s));
        },
    };
    let mut v: Vec<ProgramAction> = Vec::new();
    if string_eq_str(af, "AF_UNIX") {
        match socket_address_uds_path(ms, s) {
            Some(p) => {
                v.push(ProgramAction::Read(p));
            },
            None => {},
        }
    }
    let ghost acts1 = models_of(v@);
    if string_eq_str(&s.name, "bind") {
        if s.args.len() == 0 {
            return Err(malformed(s));
        }
        let fd: i128 = match &s.args[0] {
            Expression::Integer(fd_ie) => match &fd_ie.value {
                IntegerExpressionValue::Literal(fd) => *fd,
                _ => {
                    return Err(malformed(s));
                },
            },
            _ => {
                return Err(malformed(s));
            },
        };
        let family = match parse_socket_family(af) {
            Some(family) => family,
            None => {
                return Err(SummarizeError::UnknownSocketFamily { family: af.clone() });
            },
        };
        match socks_lookup(entries, s.pid, fd) {
            Some(proto) => {
                let local_port = local_port_of(ms);
                v.push(
                    ProgramAction::NetworkActivity(
                        NetworkActivity {
                            af: SetSpecifier::One(family),
                            proto: SetSpecifier::One(proto),
                            kind: SetSpecifier::One(NetworkActivityKind::Bind),
                            local_port,
                        },
                    ),
                );
                proof {
                    let m = network_actions_spec(*s, sockaddr_idx, socks_model(entries@));
                    assert(models_of(v@) =~= m->Ok_0);
                }
                Ok(v)
            },
            None => {
                proof {
                    let m = network_actions_spec(*s, sockaddr_idx, socks_model(entries@));
                    assert(models_of(v@) =~= m->Ok_0);
                }
                Ok(v)
            },
        }
    } else {
        proof {
            let m = network_actions_spec(*s, sockaddr_idx, socks_model(entries@));
            assert(models_of(v@) =~= m->Ok_0);
        }
        Ok(v)
    }
}

/// First flag starting with `SOCK_`, scanning from the front.
pub open spec fn first_sock_flag(flags: Seq<Seq<char>>) -> Option<Seq<char>>
    decreases flags.len(),
{
    if flags.len() == 0 {
        None
    } else if spec_has_prefix(flags[0], "SOCK_"@) {
        Some(flags[0])
    } else {
        first_sock_flag(flags.drop_first())
    }
}

/// An unmatched prefix does not change which flag is found.
proof fn lemma_first_sock_flag_skip(flags: Seq<Seq<char>>, i: int)
    requires
        0 <= i <= flags.len(),
        forall|j: int| 0 <= j < i ==> !spec_has_prefix(#[trigger] flags[j], "SOCK_"@),
    ensures
        first_sock_flag(flags) == first_sock_flag(flags.skip(i)),
    decreases i,
{
    if i > 0 {
        assert(!spec_has_prefix(flags[0], "SOCK_"@));
        lemma_first_sock_flag_skip(flags.drop_first(), i - 1);
        assert(flags.drop_first().skip(i - 1) =~= flags.skip(i));
    } else {
        assert(flags.skip(0) =~= flags);
    }
}

/// First flag in the list starting with `SOCK_`.
fn find_sock_flag<'a>(flags: &'a Vec<String>) -> (r: Option<&'a String>)
    ensures
        r is Some == first_sock_flag(flags.deep_view()) is Some,
        r matches Some(f) ==> f@ == first_sock_flag(flags.deep_view()).unwrap(),
{
    let mut i: usize = 0;
    while i < flags.len()
        invariant
            0 <= i <= flags@.len(),
            forall|j: int|
                0 <= j < i ==> !spec_has_prefix(#[trigger] flags.deep_view()[j], "SOCK_"@),
        decreases flags@.len() - i,
    {
        proof {
            assert(flags.deep_view()[i as int] == flags@[i as int]@);
        }
        if string_has_prefix(&flags[i], "SOCK_") {
            proof {
                lemma_first_sock_flag_skip(flags.deep_view(), i as int);
                assert(flags.deep_view().skip(i as int)[0] == flags.deep_view()[i as int]);
            }
            return Some(&flags[i]);
        }
        i += 1;
    }
    proof {
        lemma_first_sock_flag_skip(flags.deep_view(), flags@.len() as int);
        assert(flags.deep_view().len() == flags@.len());
        assert(flags.deep_view().skip(flags@.len() as int) =~= Seq::<Seq<char>>::empty());
    }
    None
}

/// What the `socket` handler produces, and the socket it remembers: the
/// protocol is read off the first `SOCK_...` type flag, and the returned
/// descriptor is remembered for a later `bind`.
pub open spec fn socket_step_spec(s: Syscall, socks: Map<(u32, int), SocketProtocol>) -> Result<
    (Seq<ActionModel>, Map<(u32, int), SocketProtocol>),
    SummarizeErrorModel,
> {
    if s.args@.len() < 2 {
        Err(SummarizeErrorModel::MalformedSyscall(s.name@))
    } else {
        match s.args@[0] {
            Expression::Integer(ie) => match ie.value {
                IntegerExpressionValue::NamedConst(af) => match spec_parse_socket_family(af@) {
                    None => Err(SummarizeErrorModel::UnknownSocketFamily(af@)),
                    Some(family) => match s.args@[1] {
                        Expression::Integer(ie2) => match first_sock_flag(
                            ie2.value.spec_flags(),
                        ) {
                            None => Err(
                                SummarizeErrorModel::UnknownSocketProtocol(Seq::empty()),
                            ),
                            Some(flag) => match spec_parse_socket_protocol(flag) {
                                None => Err(SummarizeErrorModel::UnknownSocketProtocol(flag)),
                                Some(proto) => Ok(
                                    (
                                        seq![
                                            ActionModel::NetworkActivity(
                                                NetworkActivityModel {
                                                    af: SetSpecModel::One(family),
                                                    proto: SetSpecModel::One(proto),
                                                    kind: SetSpecModel::One(
                                                        NetworkActivityKind::SocketCreation,
                                                    ),
                                                    local_port: CountableSetModel::All,
                                                },
                                            )
                                        ],
                                        socks.insert((s.pid, s.ret_val as int), proto),
                                    ),
                                ),
                            },
                        },
                        _ => Err(SummarizeErrorModel::MalformedSyscall(s.name@)),
                    },
                },
                _ => Err(SummarizeErrorModel::MalformedSyscall(s.name@)),
            },
            _ => Err(SummarizeErrorModel::MalformedSyscall(s.name@)),
        }
    }
}

/// `socket`: emits the creation activity and remembers the protocol under
/// the returned descriptor.
fn handle_socket(s: &Syscall, entries: &mut Vec<SockEntry>) -> (r: Result<
    Vec<ProgramAction>,
    SummarizeError,
>)
    ensures
        r matches Ok(v) ==> socket_step_spec(*s, socks_model(old(entries)@)) matches Ok(m)
            && models_of(v@) == m.0 && socks_model(final(entries)@) == m.1,
        r matches Err(e) ==> socket_step_spec(*s, socks_model(old(entries)@)) matches Err(em)
            && e.model() == em && final(entries)@ == old(entries)@,
{
    if s.args.len() < 2 {
        return Err(malformed(s));
    }
    let af: &String = match &s.args[0] {
        Expression::Integer(ie) => match &ie.value {
            IntegerExpressionValue::NamedConst(af) => af,
            _ => {
                return Err(malformed(s));
            },
        },
        _ => {
            return Err(malformed(s));
        },
    };
    let family = match parse_socket_family(af) {
        Some(family) => family,
        None => {
            return Err(SummarizeError::UnknownSocketFamily { family: af.clone() });
        },
    };
    let flags: Vec<String> = match &s.args[1] {
        Expression::Integer(ie2) => ie2.value.flags(),
        _ => {
            return Err(malformed(s));
        },
    };
    let sock_flag = find_sock_flag(&flags);
    match sock_flag {
        None => Err(SummarizeError::UnknownSocketProtocol { flag: String::new() }),
        Some(flag) => {
            match parse_socket_protocol(flag) {
                None => Err(SummarizeError::UnknownSocketProtocol { flag: flag.clone() }),
                Some(proto) => {
                    socks_insert(entries, s.pid, s.ret_val, proto);
                    let mut v: Vec<ProgramAction> = Vec::new();
                    v.push(
                        ProgramAction::NetworkActivity(
                            NetworkActivity {
                                af: SetSpecifier::One(family),
                                proto: SetSpecifier::One(proto),
                                kind: SetSpecifier::One(NetworkActivityKind::SocketCreation),
                                local_port: CountableSetSpecifier::All,
                            },
                        ),
                    );
                    proof {
                        let m = socket_step_spec(*s, socks_model(old(entries)@));
                        assert(models_of(v@) =~= m->Ok_0.0);
                    }
                    Ok(v)
                },
            }
        },
    }
}

/// Pairs a handler result with an unchanged socket table.
pub open spec fn with_socks(
    r: Result<Seq<ActionModel>, SummarizeErrorModel>,
    socks: Map<(u32, int), SocketProtocol>,
) -> Result<(Seq<ActionModel>, Map<(u32, int), SocketProtocol>), SummarizeErrorModel> {
    match r {
        Ok(a) => Ok((a, socks)),
        Err(e) => Err(e),
    }
}

/// What one syscall contributes: its actions, and the socket table afterward.
pub open spec fn step_spec(s: Syscall, socks: Map<(u32, int), SocketProtocol>) -> Result<
    (Seq<ActionModel>, Map<(u32, int), SocketProtocol>),
    SummarizeErrorModel,
> {
    match spec_syscall_info(s.name@) {
        Some(info) => match info {
            SyscallInfo::Mknod { mode_idx } => with_socks(mknod_actions_spec(s, mode_idx), socks),
            SyscallInfo::Mmap { prot_idx } => with_socks(mmap_actions_spec(s, prot_idx), socks),
            SyscallInfo::Network { sockaddr_idx } => with_socks(
                network_actions_spec(s, sockaddr_idx, socks),
                socks,
            ),
            SyscallInfo::Open { relfd_idx, path_idx, flags_idx } => with_socks(
                open_actions_spec(s, relfd_idx, path_idx, flags_idx),
                socks,
            ),
            SyscallInfo::Rename {
                relfd_src_idx,
                path_src_idx,
                relfd_dst_idx,
                path_dst_idx,
                flags_idx,
            } => with_socks(
                rename_actions_spec(
                    s,
                    relfd_src_idx,
                    path_src_idx,
                    relfd_dst_idx,
                    path_dst_idx,
                    flags_idx,
                ),
                socks,
            ),
            SyscallInfo::SetScheduler => with_socks(sched_actions_spec(s), socks),
            SyscallInfo::Socket => socket_step_spec(s, socks),
            SyscallInfo::StatFd { fd_idx } => with_socks(stat_fd_actions_spec(s, fd_idx), socks),
            SyscallInfo::StatPath { relfd_idx, path_idx } => with_socks(
                stat_path_actions_spec(s, relfd_idx, path_idx),
                socks,
            ),
        },
        None => if s.name@ == "epoll_ctl"@ {
            with_socks(epoll_actions_spec(s), socks)
        } else if s.name@ == "timer_create"@ {
            with_socks(timer_actions_spec(s), socks)
        } else {
            Ok((Seq::empty(), socks))
        },
    }
}

/// Processes one syscall record, updating the socket table.
fn step(s: &Syscall, entries: &mut Vec<SockEntry>) -> (r: Result<
    Vec<ProgramAction>,
    SummarizeError,
>)
    ensures
        r matches Ok(v) ==> step_spec(*s, socks_model(old(entries)@)) matches Ok(m)
            && models_of(v@) == m.0 && socks_model(final(entries)@) == m.1,
        r matches Err(e) ==> step_spec(*s, socks_model(old(entries)@)) matches Err(em)
            && e.model() == em,
{
    match syscall_info(&s.name) {
        Some(info) => match info {
            SyscallInfo::Mknod { mode_idx } => handle_mknod(s, mode_idx),
            SyscallInfo::Mmap { prot_idx } => handle_mmap(s, prot_idx),
            SyscallInfo::Network { sockaddr_idx } => handle_network(s, sockaddr_idx, entries),
            SyscallInfo::Open { relfd_idx, path_idx, flags_idx } => handle_open(
                s,
                relfd_idx,
                path_idx,
                flags_idx,
            ),
            SyscallInfo::Rename {
                relfd_src_idx,
                path_src_idx,
                relfd_dst_idx,
                path_dst_idx,
                flags_idx,
            } => handle_rename(
                s,
                relfd_src_idx,
                path_src_idx,
                relfd_dst_idx,
                path_dst_idx,
                flags_idx,
            ),
            SyscallInfo::SetScheduler => handle_sched(s),
            SyscallInfo::Socket => handle_socket(s, entries),
            SyscallInfo::StatFd { fd_idx } => handle_stat_fd(s, fd_idx),
            SyscallInfo::StatPath { relfd_idx, path_idx } => handle_stat_path(
                s,
                relfd_idx,
                path_idx,
            ),
        },
        None => {
            if string_eq_str(&s.name, "epoll_ctl") {
                handle_epoll(s)
            } else if string_eq_str(&s.name, "timer_create") {
                handle_timer(s)
            } else {
                proof {
                    assert(models_of(Seq::<ProgramAction>::empty()) =~= Seq::<
                        ActionModel,
                    >::empty());
                }
                Ok(Vec::new())
            }
        },
    }
}

/// The actions of the records from position `i` on, threading the socket
/// table through; the first failure aborts the whole pass.
pub open spec fn run_spec(
    inputs: Seq<Result<Syscall, ParseError>>,
    i: int,
    socks: Map<(u32, int), SocketProtocol>,
) -> Result<Seq<ActionModel>, SummarizeErrorModel>
    decreases inputs.len() - i,
{
    if i < 0 || i >= inputs.len() {
        Ok(Seq::empty())
    } else {
        match inputs[i] {
            Err(pe) => Err(SummarizeErrorModel::Parse(pe.line@, pe.offset as int)),
            Ok(s) => match step_spec(s, socks) {
                Err(e) => Err(e),
                Ok(m) => match run_spec(inputs, i + 1, m.1) {
                    Err(e) => Err(e),
                    Ok(rest) => Ok(m.0 + rest),
                },
            },
        }
    }
}

/// `run_spec` with the actions already produced put in front.
pub open spec fn run_with_prefix(
    inputs: Seq<Result<Syscall, ParseError>>,
    i: int,
    socks: Map<(u32, int), SocketProtocol>,
    raw: Seq<ActionModel>,
) -> Result<Seq<ActionModel>, SummarizeErrorModel> {
    match run_spec(inputs, i, socks) {
        Ok(rest) => Ok(raw + rest),
        Err(e) => Err(e),
    }
}

/// The distinct names of the first `i` records, in first-occurrence order.
pub open spec fn names_upto(inputs: Seq<Result<Syscall, ParseError>>, i: int) -> Seq<Seq<char>>
    decreases i,
{
    if i <= 0 {
        Seq::empty()
    } else {
        let prev = names_upto(inputs, i - 1);
        match inputs[i - 1] {
            Ok(s) => if prev.contains(s.name@) {
                prev
            } else {
                prev.push(s.name@)
            },
            Err(_) => prev,
        }
    }
}

/// What `summarize` returns: every record's actions in order, adjacent
/// duplicates collapsed, and one aggregate `Syscalls` action appended.
pub open spec fn summarize_spec(inputs: Seq<Result<Syscall, ParseError>>) -> Result<
    Seq<ActionModel>,
    SummarizeErrorModel,
> {
    match run_spec(inputs, 0, Map::empty()) {
        Err(e) => Err(e),
        Ok(acts) => Ok(
            dedup_adjacent(acts).push(
                ActionModel::Syscalls(names_upto(inputs, inputs.len() as int)),
            ),
        ),
    }
}

/// Whether a name is already among those collected.
fn contains_name(names: &Vec<String>, name: &String) -> (r: bool)
    ensures
        r == names.deep_view().contains(name@),
{
    let mut i: usize = 0;
    while i < names.len()
        invariant
            0 <= i <= names@.len(),
            forall|j: int| 0 <= j < i ==> #[trigger] names.deep_view()[j] != name@,
        decreases names@.len() - i,
    {
        proof {
            assert(names.deep_view()[i as int] == names@[i as int]@);
        }
        if names[i] == *name {
            proof {
                assert(names.deep_view()[i as int] == name@);
            }
            return true;
        }
        i += 1;
    }
    proof {
        if names.deep_view().contains(name@) {
            let j = choose|j: int|
                0 <= j < names.deep_view().len() && names.deep_view()[j] == name@;
        }
    }
    false
}

/// Relies on `std::path::Path::canonicalize`: on success the result is the
/// canonical, absolute form of the path, with symlinks and dot segments
/// resolved against the live filesystem. The result depends on disk state at
/// call time, so nothing more is assumed of it. Paths that cannot be resolved,
/// and paths or results that are not valid UTF-8, yield `None`.
#[verifier::external_body]
fn canonicalize_bytes(p: &Vec<u8>) -> (r: Option<Vec<u8>>)
    ensures
        r matches Some(c) ==> is_abs_path(c@),
{
    match core::str::from_utf8(p.as_slice()) {
        Ok(s) => match std::path::Path::new(s).canonicalize() {
            Ok(c) => match c.to_str() {
                Some(cs) => Some(cs.as_bytes().to_vec()),
                None => None,
            },
            Err(_) => None,
        },
        Err(_) => None,
    }
}

/// How a canonicalized action relates to the action it came from: the same
/// action, except that a path action's path may have been rewritten to some
/// other absolute path by the filesystem lookup.
pub open spec fn canon_like(a: ActionModel, b: ActionModel) -> bool {
    match a {
        ActionModel::Read(p) => b matches ActionModel::Read(q) && (q == p || is_abs_path(q)),
        ActionModel::Write(p) => b matches ActionModel::Write(q) && (q == p || is_abs_path(
            q,
        )),
        ActionModel::Create(p) => b matches ActionModel::Create(q) && (q == p || is_abs_path(
            q,
        )),
        _ => b == a,
    }
}

/// Pointwise canonicalization of a whole action sequence.
pub open spec fn canon_seq_like(s: Seq<ActionModel>, t: Seq<ActionModel>) -> bool {
    t.len() == s.len() && forall|k: int| 0 <= k < s.len() ==> canon_like(s[k], #[trigger] t[k])
}

/// Rewrites a path action's path to its canonical filesystem form where the
/// live filesystem resolves it, and keeps it unchanged otherwise. A
/// documented approximation: the filesystem state at profiling time may
/// differ from the state the emitted options are used under.
fn canonicalize_action(a: ProgramAction) -> (r: ProgramAction)
    ensures
        canon_like(a.model(), r.model()),
{
    match a {
        ProgramAction::Read(p) => match canonicalize_bytes(&p) {
            Some(c) => ProgramAction::Read(c),
            None => ProgramAction::Read(p),
        },
        ProgramAction::Write(p) => match canonicalize_bytes(&p) {
            Some(c) => ProgramAction::Write(c),
            None => ProgramAction::Write(p),
        },
        ProgramAction::Create(p) => match canonicalize_bytes(&p) {
            Some(c) => ProgramAction::Create(c),
            None => ProgramAction::Create(p),
        },
        other => other,
    }
}

/// Canonicalization keeps every guarantee the handlers give: the variant, the
/// well-formedness, and the absoluteness and non-pseudo-ness of paths.
proof fn lemma_canon_keeps_ok(s: Seq<ActionModel>, t: Seq<ActionModel>)
    requires
        canon_seq_like(s, t),
        forall|k: int| 0 <= k < s.len() ==> handler_action_ok(#[trigger] s[k]),
    ensures
        forall|k: int| 0 <= k < t.len() ==> handler_action_ok(#[trigger] t[k]),
{
    assert forall|k: int| 0 <= k < t.len() implies handler_action_ok(#[trigger] t[k]) by {
        assert(canon_like(s[k], t[k]));
        assert(handler_action_ok(s[k]));
        match s[k] {
            ActionModel::Read(p) => {
                let q = t[k]->Read_0;
                if pseudo_path_model(q) {
                    lemma_pseudo_path_starts_lower(q);
                }
            },
            ActionModel::Write(p) => {
                let q = t[k]->Write_0;
                if pseudo_path_model(q) {
                    lemma_pseudo_path_starts_lower(q);
                }
            },
            ActionModel::Create(p) => {
                let q = t[k]->Create_0;
                if pseudo_path_model(q) {
                    lemma_pseudo_path_starts_lower(q);
                }
            },
            _ => {},
        }
    }
}

/// Folds a stream of parsed syscall records into program actions: each
/// record's actions in arrival order, adjacent duplicates collapsed, and one
/// aggregate `Syscalls` action carrying every observed syscall name appended
/// last. Each emitted path is first rewritten to its canonical filesystem
/// form where the live filesystem resolves it (the call-time approximation
/// `canonicalize_bytes` documents), so a successful result is the canonical
/// image of the handler-table stream `summarize_spec` describes. The first
/// malformed record or unexpected argument shape fails the whole pass, with
/// exactly the error the spec names.
pub fn summarize(syscalls: Vec<Result<Syscall, ParseError>>) -> (r: Result<
    Vec<ProgramAction>,
    SummarizeError,
>)
    ensures
        r is Ok == summarize_spec(syscalls@) is Ok,
        r matches Err(e) ==> e.model() == summarize_spec(syscalls@)->Err_0,
        r matches Ok(v) ==> exists|cs: Seq<ActionModel>|
            {
                &&& #[trigger] canon_seq_like(run_spec(syscalls@, 0, Map::empty())->Ok_0, cs)
                &&& models_of(v@) == dedup_adjacent(cs).push(
                    ActionModel::Syscalls(names_upto(syscalls@, syscalls@.len() as int)),
                )
            },
        r matches Ok(v) ==> models_of(v@).len() >= 1 && models_of(v@).last() is Syscalls,
        r matches Ok(v) ==> forall|k: int|
            0 <= k < models_of(v@).len() - 1 ==> #[trigger] models_of(v@)[k] != models_of(
                v@,
            )[k + 1],
        r matches Ok(v) ==> forall|k: int|
            0 <= k < models_of(v@).len() - 1 ==> !((#[trigger] models_of(v@)[k]) is Syscalls),
        r matches Ok(v) ==> forall|k: int|
            0 <= k < models_of(v@).len() ==> path_action_ok(#[trigger] models_of(v@)[k])
                && models_of(v@)[k].wf(),
{
    let mut out: Vec<ProgramAction> = Vec::new();
    let mut names: Vec<String> = Vec::new();
    let mut entries: Vec<SockEntry> = Vec::new();
    let ghost mut raw: Seq<ActionModel> = Seq::empty();
    let ghost mut spec_raw: Seq<ActionModel> = Seq::empty();
    let mut i: usize = 0;
    proof {
        assert(names.deep_view() =~= names_upto(syscalls@, 0));
        assert(models_of(out@) =~= dedup_adjacent(raw));
        match run_spec(syscalls@, 0, Map::empty()) {
            Ok(rest) => {
                assert(spec_raw + rest =~= rest);
            },
            Err(_) => {},
        }
    }
    while i < syscalls.len()
        invariant
            0 <= i <= syscalls@.len(),
            models_of(out@) == dedup_adjacent(raw),
            canon_seq_like(spec_raw, raw),
            names.deep_view() == names_upto(syscalls@, i as int),
            run_spec(syscalls@, 0, Map::empty()) == run_with_prefix(
                syscalls@,
                i as int,
                socks_model(entries@),
                spec_raw,
            ),
        decreases syscalls@.len() - i,
    {
        let ghost socks0 = socks_model(entries@);
        match &syscalls[i] {
            Err(pe) => {
                let e = SummarizeError::Parse(
                    ParseError { line: pe.line.clone(), offset: pe.offset },
                );
                proof {
                    assert(run_spec(syscalls@, i as int, socks0)
                        == Err::<Seq<ActionModel>, _>(
                        SummarizeErrorModel::Parse(pe.line@, pe.offset as int),
                    ));
                }
                return Err(e);
            },
            Ok(s) => {
                // record the name
                let known = contains_name(&names, &s.name);
                let ghost names0 = names.deep_view();
                if !known {
                    names.push(s.name.clone());
                    proof {
                        assert(names.deep_view() =~= names0.push(s.name@));
                    }
                }
                proof {
                    assert(names.deep_view() == names_upto(syscalls@, i as int + 1));
                }
                // produce this record's actions
                let step_r = step(s, &mut entries);
                match step_r {
                    Err(e) => {
                        proof {
                            assert(run_spec(syscalls@, i as int, socks0) == Err::<
                                Seq<ActionModel>,
                                _,
                            >(e.model()));
                        }
                        return Err(e);
                    },
                    Ok(mut v) => {
                        let ghost m = step_spec(*s, socks0)->Ok_0;
                        let ghost spec_goal = spec_raw + m.0;
                        proof {
                            // the whole run splits at this record
                            match run_spec(syscalls@, i as int + 1, m.1) {
                                Ok(rest) => {
                                    assert((spec_raw + m.0) + rest =~= spec_raw + (m.0
                                        + rest));
                                },
                                Err(_) => {},
                            }
                        }
                        while v.len() > 0
                            invariant
                                models_of(out@) == dedup_adjacent(raw),
                                canon_seq_like(spec_raw, raw),
                                spec_raw + models_of(v@) == spec_goal,
                            decreases v@.len(),
                        {
                            let ghost v0 = v@;
                            let a = v.remove(0);
                            let ghost am = a.model();
                            proof {
                                assert(models_of(v@) =~= models_of(v0).drop_first());
                                assert(spec_raw.push(am) + models_of(v@) =~= spec_raw
                                    + models_of(v0));
                            }
                            let a2 = canonicalize_action(a);
                            let ghost am2 = a2.model();
                            push_dedup(&mut out, a2, Ghost(raw));
                            proof {
                                spec_raw = spec_raw.push(am);
                                raw = raw.push(am2);
                                assert forall|k: int|
                                    0 <= k < spec_raw.len() implies canon_like(
                                    spec_raw[k],
                                    #[trigger] raw[k],
                                ) by {}
                            }
                        }
                        proof {
                            assert(spec_raw + models_of(v@) =~= spec_raw);
                            assert(spec_raw == spec_goal);
                        }
                    },
                }
            },
        }
        i += 1;
    }
    let ghost final_names = names.deep_view();
    let ghost out0_models = models_of(out@);
    proof {
        match run_spec(syscalls@, i as int, socks_model(entries@)) {
            Ok(rest) => {
                assert(rest =~= Seq::<ActionModel>::empty());
                assert(spec_raw + rest =~= spec_raw);
            },
            Err(_) => {},
        }
        assert(run_spec(syscalls@, 0, Map::empty()) == Ok::<_, SummarizeErrorModel>(
            spec_raw,
        ));
    }
    out.push(ProgramAction::Syscalls(names));
    proof {
        assert(models_of(out@) =~= out0_models.push(ActionModel::Syscalls(final_names)));
        let vm = models_of(out@);
        let d = dedup_adjacent(raw);
        // the canonicalized stream keeps every per-action guarantee
        lemma_run_actions_ok(syscalls@, 0, Map::empty());
        lemma_canon_keeps_ok(spec_raw, raw);
        lemma_dedup_membership(raw);
        lemma_dedup_no_adjacent(raw);
        assert forall|k: int|
            0 <= k < d.len() implies handler_action_ok(#[trigger] d[k]) by {
            assert(raw.contains(d[k]));
            let j = choose|j: int| 0 <= j < raw.len() && raw[j] == d[k];
        }
        assert forall|k: int|
            0 <= k < vm.len() - 1 implies #[trigger] vm[k] != vm[k + 1] by {
            assert(vm[k] == d[k]);
            if k + 1 < d.len() {
                assert(vm[k + 1] == d[k + 1]);
            } else {
                assert(!(d[k] is Syscalls));
            }
        }
        assert forall|k: int|
            0 <= k < vm.len() implies path_action_ok(#[trigger] vm[k]) && vm[k].wf() by {
            if k < d.len() {
                assert(vm[k] == d[k]);
            }
        }
        assert(canon_seq_like(run_spec(syscalls@, 0, Map::empty())->Ok_0, raw));
    }
    Ok(out)
}

/// A path action carries an absolute path that is no pseudo-fd path.
pub open spec fn path_action_ok(a: ActionModel) -> bool {
    match a {
        ActionModel::Read(p) => is_abs_path(p) && !pseudo_path_model(p),
        ActionModel::Write(p) => is_abs_path(p) && !pseudo_path_model(p),
        ActionModel::Create(p) => is_abs_path(p) && !pseudo_path_model(p),
        _ => true,
    }
}

/// What holds of every action a handler emits: it is well-formed, its path
/// (if any) is absolute and no pseudo-fd path, and it is never the aggregate
/// `Syscalls` action.
pub open spec fn handler_action_ok(a: ActionModel) -> bool {
    &&& a.wf()
    &&& path_action_ok(a)
    &&& !(a is Syscalls)
}

/// Every action a single record contributes is sound in the sense of
/// `handler_action_ok`.
proof fn lemma_step_actions_ok(s: Syscall, socks: Map<(u32, int), SocketProtocol>)
    ensures
        step_spec(s, socks) matches Ok(m) ==> forall|k: int|
            0 <= k < m.0.len() ==> handler_action_ok(#[trigger] m.0[k]),
{
    if step_spec(s, socks) is Ok {
        let m = step_spec(s, socks)->Ok_0;
        match spec_syscall_info(s.name@) {
            Some(info) => match info {
                SyscallInfo::Open { relfd_idx, path_idx, flags_idx } => {
                    match s.args@[path_idx as int] {
                        Expression::Buffer(be) => {
                            lemma_resolved_path_absolute(be.value@, relfd_idx, s);
                        },
                        _ => {},
                    }
                },
                SyscallInfo::Rename {
                    relfd_src_idx,
                    path_src_idx,
                    relfd_dst_idx,
                    path_dst_idx,
                    flags_idx,
                } => {
                    match (s.args@[path_src_idx as int], s.args@[path_dst_idx as int]) {
                        (Expression::Buffer(b1), Expression::Buffer(b2)) => {
                            lemma_resolved_path_absolute(b1.value@, relfd_src_idx, s);
                            lemma_resolved_path_absolute(b2.value@, relfd_dst_idx, s);
                        },
                        _ => {},
                    }
                },
                SyscallInfo::Network { sockaddr_idx } => {
                    if sockaddr_idx < s.args@.len() && s.args@[sockaddr_idx as int] is Struct {
                        let ms = s.args@[sockaddr_idx as int]->Struct_0;
                        match member_lookup(ms@, "sun_path"@) {
                            Some(Expression::Buffer(be)) => {
                                lemma_resolved_path_absolute(be.value@, None, s);
                            },
                            _ => {},
                        }
                    }
                },
                SyscallInfo::StatFd { fd_idx } => {
                    match arg_metadata(s, Some(fd_idx)) {
                        Some(meta) => {
                            lemma_resolved_path_absolute(meta, None, s);
                        },
                        None => {},
                    }
                },
                SyscallInfo::StatPath { relfd_idx, path_idx } => {
                    match s.args@[path_idx as int] {
                        Expression::Buffer(be) => {
                            lemma_resolved_path_absolute(be.value@, relfd_idx, s);
                        },
                        _ => {},
                    }
                },
                _ => {},
            },
            None => {},
        }
    }
}

/// Every action a run contributes is sound.
proof fn lemma_run_actions_ok(
    inputs: Seq<Result<Syscall, ParseError>>,
    i: int,
    socks: Map<(u32, int), SocketProtocol>,
)
    ensures
        run_spec(inputs, i, socks) matches Ok(acts) ==> forall|k: int|
            0 <= k < acts.len() ==> handler_action_ok(#[trigger] acts[k]),
    decreases inputs.len() - i,
{
    if 0 <= i < inputs.len() {
        match inputs[i] {
            Ok(s) => {
                lemma_step_actions_ok(s, socks);
                match step_spec(s, socks) {
                    Ok(m) => {
                        lemma_run_actions_ok(inputs, i + 1, m.1);
                    },
                    Err(_) => {},
                }
            },
            Err(_) => {},
        }
    }
}

/// Dedup stability: a successful summary is the raw action sequence with
/// adjacent duplicates collapsed and a single aggregate `Syscalls` action
/// appended; removing that final action leaves a sequence in which no two
/// adjacent actions are equal.
pub proof fn lemma_summarize_shape(inputs: Seq<Result<Syscall, ParseError>>)
    ensures
        summarize_spec(inputs) is Ok ==> summarize_spec(inputs)->Ok_0.len() >= 1,
        summarize_spec(inputs) is Ok ==> summarize_spec(inputs)->Ok_0.last() is Syscalls,
        summarize_spec(inputs) is Ok ==> summarize_spec(inputs)->Ok_0.drop_last()
            == dedup_adjacent(run_spec(inputs, 0, Map::empty())->Ok_0),
        summarize_spec(inputs) is Ok ==> forall|k: int|
            0 <= k < summarize_spec(inputs)->Ok_0.drop_last().len() - 1 ==> #[trigger] summarize_spec(
                inputs,
            )->Ok_0.drop_last()[k] != summarize_spec(inputs)->Ok_0.drop_last()[k + 1],
        summarize_spec(inputs) is Ok ==> forall|k: int|
            0 <= k < summarize_spec(inputs)->Ok_0.len() - 1 ==> !((#[trigger] summarize_spec(
                inputs,
            )->Ok_0[k]) is Syscalls),
{
    if summarize_spec(inputs) is Ok {
        let acts = run_spec(inputs, 0, Map::empty())->Ok_0;
        lemma_dedup_no_adjacent(acts);
        lemma_dedup_membership(acts);
        lemma_run_actions_ok(inputs, 0, Map::empty());
        let v = summarize_spec(inputs)->Ok_0;
        assert(v == dedup_adjacent(acts).push(
            ActionModel::Syscalls(names_upto(inputs, inputs.len() as int)),
        ));
        assert(v.drop_last() =~= dedup_adjacent(acts));
        assert(v.last() is Syscalls);
        assert forall|k: int|
            0 <= k < v.len() - 1 implies !((#[trigger] v[k]) is Syscalls) by {
            let d = dedup_adjacent(acts);
            assert(v[k] == d[k]);
            assert(acts.contains(d[k]));
            let j = choose|j: int| 0 <= j < acts.len() && acts[j] == d[k];
            assert(handler_action_ok(acts[j]));
        }
    }
}

/// Path normalization and pseudo-fd exclusion: in a successful summary, every
/// path-carrying action holds an absolute path, never a pseudo-fd path (a
/// filesystem action on an unresolvable or synthetic path is elided instead);
/// and every action is well-formed.
pub proof fn lemma_summarize_paths(inputs: Seq<Result<Syscall, ParseError>>)
    ensures
        summarize_spec(inputs) is Ok ==> forall|k: int|
            0 <= k < summarize_spec(inputs)->Ok_0.len() ==> path_action_ok(
                #[trigger] summarize_spec(inputs)->Ok_0[k],
            ) && summarize_spec(inputs)->Ok_0[k].wf(),
{
    if summarize_spec(inputs) is Ok {
        let acts = run_spec(inputs, 0, Map::empty())->Ok_0;
        lemma_run_actions_ok(inputs, 0, Map::empty());
        lemma_dedup_membership(acts);
        let v = summarize_spec(inputs)->Ok_0;
        let d = dedup_adjacent(acts);
        assert forall|k: int|
            0 <= k < v.len() implies path_action_ok(#[trigger] v[k]) && v[k].wf() by {
            if k < d.len() {
                assert(v[k] == d[k]);
                assert(acts.contains(d[k]));
                let j = choose|j: int| 0 <= j < acts.len() && acts[j] == d[k];
                assert(handler_action_ok(acts[j]));
            } else {
                assert(v[k] == ActionModel::Syscalls(names_upto(inputs, inputs.len() as int)));
            }
        }
    }
}

} // verus!
