//! Set specifiers: the small algebra used to quantify what a program action
//! touches (socket families, protocols, activity kinds, local ports) and what
//! a sandboxing option denies.

use vstd::prelude::*;

verus! {

/// Element of a `SetSpecifier`: a small copyable value whose executable
/// equality test agrees with spec-level equality.
pub trait SetElement: Sized + Copy {
    fn same(&self, other: &Self) -> (r: bool)
        ensures
            r == (*self == *other),
    ;
}

/// Quantifies something that is done or denied, over a universe that may be
/// unbounded or non-enumerable.
#[derive(Debug, PartialEq, Eq)]
pub enum SetSpecifier<T> {
    NoneOf,
    One(T),
    SomeOf(Vec<T>),
    All,
}

/// Mathematical image of a `SetSpecifier`, with the element list as a `Seq`.
#[verifier::ext_equal]
pub enum SetSpecModel<T> {
    NoneOf,
    One(T),
    SomeOf(Seq<T>),
    All,
}

impl<T> SetSpecModel<T> {
    /// Membership at the model level.
    pub open spec fn spec_contains(self, e: T) -> bool {
        match self {
            SetSpecModel::NoneOf => false,
            SetSpecModel::One(x) => x == e,
            SetSpecModel::SomeOf(es) => es.contains(e),
            SetSpecModel::All => true,
        }
    }
}

impl<T> SetSpecifier<T> {
    pub open spec fn model(self) -> SetSpecModel<T> {
        match self {
            SetSpecifier::NoneOf => SetSpecModel::NoneOf,
            SetSpecifier::One(e) => SetSpecModel::One(e),
            SetSpecifier::SomeOf(es) => SetSpecModel::SomeOf(es@),
            SetSpecifier::All => SetSpecModel::All,
        }
    }

    /// Membership: the set of values this specifier stands for.
    pub open spec fn spec_contains(self, e: T) -> bool {
        self.model().spec_contains(e)
    }

    /// The elements of a non-`All` specifier, as a sequence.
    pub open spec fn spec_elements(self) -> Seq<T> {
        match self {
            SetSpecifier::NoneOf => Seq::empty(),
            SetSpecifier::One(e) => seq![e],
            SetSpecifier::SomeOf(es) => es@,
            SetSpecifier::All => Seq::empty(),
        }
    }
}

impl<T: SetElement> SetSpecifier<T> {
    /// Whether `needle` is in the set.
    pub fn contains_one(&self, needle: &T) -> (r: bool)
        ensures
            r == self.spec_contains(*needle),
    {
        match self {
            SetSpecifier::NoneOf => false,
            SetSpecifier::One(e) => e.same(needle),
            SetSpecifier::SomeOf(es) => {
                let mut i: usize = 0;
                let mut found = false;
                while i < es.len()
                    invariant
                        0 <= i <= es@.len(),
                        found == exists|j: int| 0 <= j < i && es@[j] == *needle,
                    decreases es@.len() - i,
                {
                    if es[i].same(needle) {
                        found = true;
                    }
                    i += 1;
                }
                found
            },
            SetSpecifier::All => true,
        }
    }

    /// Whether the two sets share at least one element.
    pub fn intersects(&self, other: &Self) -> (r: bool)
        ensures
            r == exists|e: T| self.spec_contains(e) && other.spec_contains(e),
    {
        match self {
            SetSpecifier::NoneOf => false,
            SetSpecifier::One(e) => {
                let r = other.contains_one(e);
                proof {
                    if r {
                        assert(self.spec_contains(*e) && other.spec_contains(*e));
                    }
                }
                r
            },
            SetSpecifier::SomeOf(es) => {
                let mut i: usize = 0;
                let mut found = false;
                while i < es.len()
                    invariant
                        0 <= i <= es@.len(),
                        self == SetSpecifier::SomeOf::<T>(*es),
                        found ==> exists|e: T|
                            self.spec_contains(e) && other.spec_contains(e),
                        !found ==> forall|j: int|
                            0 <= j < i ==> !other.spec_contains(es@[j]),
                    decreases es@.len() - i,
                {
                    if other.contains_one(&es[i]) {
                        proof {
                            assert(es@.contains(es@[i as int]));
                        }
                        found = true;
                    }
                    i += 1;
                }
                proof {
                    if !found {
                        assert forall|e: T|
                            !(self.spec_contains(e) && other.spec_contains(e)) by {
                            if self.spec_contains(e) {
                                let j = choose|j: int| 0 <= j < es@.len() && es@[j] == e;
                                assert(!other.spec_contains(es@[j]));
                            }
                        }
                    }
                }
                found
            },
            SetSpecifier::All => {
                match other {
                    SetSpecifier::NoneOf => false,
                    SetSpecifier::One(e) => {
                        proof {
                            assert(self.spec_contains(*e) && other.spec_contains(*e));
                        }
                        true
                    },
                    SetSpecifier::SomeOf(es) => {
                        let r = es.len() > 0;
                        proof {
                            if r {
                                assert(es@.contains(es@[0]));
                                assert(self.spec_contains(es@[0])
                                    && other.spec_contains(es@[0]));
                            } else {
                                assert forall|e: T|
                                    !(self.spec_contains(e)
                                        && other.spec_contains(e)) by {
                                    if other.spec_contains(e) {
                                        let j = choose|j: int|
                                            0 <= j < es@.len() && es@[j] == e;
                                    }
                                }
                            }
                        }
                        r
                    },
                    SetSpecifier::All => {
                        proof {
                            let e = vstd::pervasive::arbitrary::<T>();
                            assert(self.spec_contains(e) && other.spec_contains(e));
                        }
                        true
                    },
                }
            },
        }
    }

    /// The elements of the set; undefined for `All`, which callers must rule
    /// out by checking the variant first.
    pub fn elements(&self) -> (r: Vec<T>)
        requires
            !(self is All),
        ensures
            r@ == self.spec_elements(),
    {
        match self {
            SetSpecifier::NoneOf => Vec::new(),
            SetSpecifier::One(e) => {
                let mut v = Vec::new();
                v.push(*e);
                proof {
                    assert(v@ =~= seq![*e]);
                }
                v
            },
            SetSpecifier::SomeOf(es) => {
                let mut v: Vec<T> = Vec::new();
                let mut i: usize = 0;
                while i < es.len()
                    invariant
                        0 <= i <= es@.len(),
                        v@ == es@.take(i as int),
                    decreases es@.len() - i,
                {
                    v.push(es[i]);
                    proof {
                        assert(v@ =~= es@.take(i as int + 1));
                    }
                    i += 1;
                }
                proof {
                    assert(v@ =~= es@);
                }
                v
            },
            SetSpecifier::All => vstd::pervasive::unreached(),
        }
    }
}

/// The elements of a non-`All` specifier are exactly its members.
pub proof fn lemma_elements_are_members<T>(s: SetSpecifier<T>)
    requires
        !(s is All),
    ensures
        forall|e: T| s.spec_elements().contains(e) == s.spec_contains(e),
{
    assert forall|e: T| s.spec_elements().contains(e) == s.spec_contains(e) by {
        match s {
            SetSpecifier::One(x) => {
                if x == e {
                    assert(seq![x][0] == e);
                    assert(seq![x].contains(e));
                } else {
                    assert(forall|i: int| 0 <= i < 1 ==> seq![x][i] != e);
                }
            },
            _ => {},
        }
    }
}

/// Intersection is symmetric: the sets share an element in one order exactly
/// when they share one in the other.
pub proof fn lemma_intersects_symmetric<T>(a: SetSpecifier<T>, b: SetSpecifier<T>)
    ensures
        (exists|e: T| a.spec_contains(e) && b.spec_contains(e)) == (exists|e: T|
            b.spec_contains(e) && a.spec_contains(e)),
{
    if exists|e: T| a.spec_contains(e) && b.spec_contains(e) {
        let e = choose|e: T| a.spec_contains(e) && b.spec_contains(e);
        assert(b.spec_contains(e) && a.spec_contains(e));
    }
    if exists|e: T| b.spec_contains(e) && a.spec_contains(e) {
        let e = choose|e: T| b.spec_contains(e) && a.spec_contains(e);
        assert(a.spec_contains(e) && b.spec_contains(e));
    }
}

/// A TCP/UDP port: a 16-bit value, zero excluded.
#[derive(Clone, Copy, PartialEq, Eq, Structural, Debug)]
pub struct NetworkPort(pub u16);

impl NetworkPort {
    /// Zero is not a port.
    pub open spec fn wf(self) -> bool {
        self.0 >= 1
    }

    /// The port with the given nonzero number.
    pub fn new(v: u16) -> (r: Option<NetworkPort>)
        ensures
            v >= 1 ==> r == Some(NetworkPort(v)),
            v == 0 ==> r is None,
    {
        if v >= 1 {
            Some(NetworkPort(v))
        } else {
            None
        }
    }

    /// How many distinct ports there are.
    pub fn value_count() -> (r: usize)
        ensures
            r == 65535,
    {
        65535
    }

    pub fn min_value() -> (r: NetworkPort)
        ensures
            r.0 == 1,
    {
        NetworkPort(1)
    }

    pub fn max_value() -> (r: NetworkPort)
        ensures
            r.0 == 65535,
    {
        NetworkPort(65535)
    }

    pub fn one() -> (r: NetworkPort)
        ensures
            r.0 == 1,
    {
        NetworkPort(1)
    }
}

impl SetElement for NetworkPort {
    fn same(&self, other: &Self) -> (r: bool)
        ensures
            r == (*self == *other),
    {
        self.0 == other.0
    }
}

/// A non-empty inclusive interval of ports.
#[derive(Clone, Copy, PartialEq, Eq, Structural, Debug)]
pub struct PortRange {
    pub first: NetworkPort,
    pub last: NetworkPort,
}

/// Whether port number `v` occurs in the list.
pub open spec fn in_port_list(s: Seq<NetworkPort>, v: int) -> bool {
    exists|i: int| 0 <= i < s.len() && s[i].0 == v
}

/// All entries are nonzero.
pub open spec fn ports_wf(s: Seq<NetworkPort>) -> bool {
    forall|i: int| 0 <= i < s.len() ==> (#[trigger] s[i]).0 >= 1
}

/// The list is strictly ascending (sorted, no duplicates).
pub open spec fn strictly_ascending(s: Seq<NetworkPort>) -> bool {
    forall|i: int, j: int| 0 <= i < j < s.len() ==> s[i].0 < s[j].0
}

/// Whether port number `v` lies in one of the ranges.
pub open spec fn ranges_cover(rs: Seq<PortRange>, v: int) -> bool {
    exists|k: int| 0 <= k < rs.len() && (#[trigger] rs[k]).first.0 <= v <= rs[k].last.0
}

/// Quantifies a set of ports, over the finite ordered universe 1..=65535.
#[derive(Debug, PartialEq, Eq)]
pub enum CountableSetSpecifier {
    NoneOf,
    One(NetworkPort),
    SomeOf(Vec<NetworkPort>),
    AllExcept(Vec<NetworkPort>),
    All,
}

/// Mathematical image of a `CountableSetSpecifier`.
#[verifier::ext_equal]
pub enum CountableSetModel {
    NoneOf,
    One(NetworkPort),
    SomeOf(Seq<NetworkPort>),
    AllExcept(Seq<NetworkPort>),
    All,
}

impl CountableSetModel {
    /// Element lists are strictly ascending with nonzero entries; an empty
    /// exclusion list is written `All`, never `AllExcept`.
    pub open spec fn wf(self) -> bool {
        match self {
            CountableSetModel::NoneOf => true,
            CountableSetModel::One(e) => e.wf(),
            CountableSetModel::SomeOf(es) => ports_wf(es) && strictly_ascending(es),
            CountableSetModel::AllExcept(es) => es.len() >= 1 && ports_wf(es)
                && strictly_ascending(es),
            CountableSetModel::All => true,
        }
    }

    /// Membership of port number `v`.
    pub open spec fn spec_contains(self, v: int) -> bool {
        match self {
            CountableSetModel::NoneOf => false,
            CountableSetModel::One(e) => e.0 == v,
            CountableSetModel::SomeOf(es) => in_port_list(es, v),
            CountableSetModel::AllExcept(es) => 1 <= v <= 65535 && !in_port_list(es, v),
            CountableSetModel::All => 1 <= v <= 65535,
        }
    }
}

impl CountableSetSpecifier {
    pub open spec fn model(self) -> CountableSetModel {
        match self {
            CountableSetSpecifier::NoneOf => CountableSetModel::NoneOf,
            CountableSetSpecifier::One(e) => CountableSetModel::One(e),
            CountableSetSpecifier::SomeOf(es) => CountableSetModel::SomeOf(es@),
            CountableSetSpecifier::AllExcept(es) => CountableSetModel::AllExcept(es@),
            CountableSetSpecifier::All => CountableSetModel::All,
        }
    }

    pub open spec fn wf(self) -> bool {
        self.model().wf()
    }

    pub open spec fn spec_contains(self, v: int) -> bool {
        self.model().spec_contains(v)
    }

    /// Whether `needle` is in the set.
    pub fn contains_one(&self, needle: &NetworkPort) -> (r: bool)
        requires
            needle.wf(),
        ensures
            r == self.spec_contains(needle.0 as int),
    {
        match self {
            CountableSetSpecifier::NoneOf => false,
            CountableSetSpecifier::One(e) => e.0 == needle.0,
            CountableSetSpecifier::SomeOf(es) => port_in_list(es, needle),
            CountableSetSpecifier::AllExcept(es) => !port_in_list(es, needle),
            CountableSetSpecifier::All => true,
        }
    }

    /// Whether the two port sets share at least one port.
    pub fn intersects(&self, other: &Self) -> (r: bool)
        requires
            self.wf(),
            other.wf(),
        ensures
            r == exists|v: int| self.spec_contains(v) && other.spec_contains(v),
    {
        match self {
            CountableSetSpecifier::NoneOf => false,
            CountableSetSpecifier::One(e) => {
                let r = other.contains_one(e);
                proof {
                    if r {
                        assert(self.spec_contains(e.0 as int)
                            && other.spec_contains(e.0 as int));
                    }
                }
                r
            },
            CountableSetSpecifier::SomeOf(es) => {
                let r = any_port_shared(es, other);
                proof {
                    lemma_shared_exists_flip(es@, *self, *other, r);
                }
                r
            },
            CountableSetSpecifier::AllExcept(excs) => {
                match other {
                    CountableSetSpecifier::NoneOf => false,
                    CountableSetSpecifier::One(e) => {
                        let r = self.contains_one(e);
                        proof {
                            if r {
                                assert(self.spec_contains(e.0 as int)
                                    && other.spec_contains(e.0 as int));
                            }
                        }
                        r
                    },
                    CountableSetSpecifier::SomeOf(es) => {
                        let r = any_port_shared(es, self);
                        proof {
                            lemma_shared_exists_flip(es@, *other, *self, r);
                            lemma_countable_intersects_symmetric(*other, *self);
                        }
                        r
                    },
                    CountableSetSpecifier::AllExcept(other_excs) => {
                        let r = port_gap_exists(excs, other_excs);
                        proof {
                            lemma_gap_exists_flip(excs@, other_excs@, *self, *other, r);
                        }
                        r
                    },
                    CountableSetSpecifier::All => {
                        let r = port_gap_exists(excs, excs);
                        proof {
                            if r {
                                let v = choose|v: int|
                                    1 <= v <= 65535 && !in_port_list(excs@, v)
                                        && !in_port_list(excs@, v);
                                assert(self.spec_contains(v) && other.spec_contains(v));
                            } else {
                                assert forall|v: int|
                                    !(self.spec_contains(v)
                                        && other.spec_contains(v)) by {
                                    if self.spec_contains(v) {
                                        assert(!(1 <= v <= 65535
                                            && !in_port_list(excs@, v)
                                            && !in_port_list(excs@, v)));
                                    }
                                }
                            }
                        }
                        r
                    },
                }
            },
            CountableSetSpecifier::All => {
                match other {
                    CountableSetSpecifier::NoneOf => false,
                    CountableSetSpecifier::One(e) => {
                        proof {
                            assert(self.spec_contains(e.0 as int)
                                && other.spec_contains(e.0 as int));
                        }
                        true
                    },
                    CountableSetSpecifier::SomeOf(es) => {
                        let r = es.len() > 0;
                        proof {
                            if r {
                                let v = es@[0].0 as int;
                                assert(in_port_list(es@, v));
                                assert(self.spec_contains(v) && other.spec_contains(v));
                            } else {
                                assert forall|v: int|
                                    !(self.spec_contains(v)
                                        && other.spec_contains(v)) by {
                                    if other.spec_contains(v) {
                                        let i = choose|i: int|
                                            0 <= i < es@.len() && es@[i].0 == v;
                                    }
                                }
                            }
                        }
                        r
                    },
                    CountableSetSpecifier::AllExcept(other_excs) => {
                        let r = port_gap_exists(other_excs, other_excs);
                        proof {
                            if r {
                                let v = choose|v: int|
                                    1 <= v <= 65535 && !in_port_list(other_excs@, v)
                                        && !in_port_list(other_excs@, v);
                                assert(self.spec_contains(v) && other.spec_contains(v));
                            } else {
                                assert forall|v: int|
                                    !(self.spec_contains(v)
                                        && other.spec_contains(v)) by {
                                    if other.spec_contains(v) {
                                        assert(!(1 <= v <= 65535
                                            && !in_port_list(other_excs@, v)
                                            && !in_port_list(other_excs@, v)));
                                    }
                                }
                            }
                        }
                        r
                    },
                    CountableSetSpecifier::All => {
                        proof {
                            assert(self.spec_contains(1) && other.spec_contains(1));
                        }
                        true
                    },
                }
            },
        }
    }
}

/// The list with its (unique) entry for `p`'s number deleted.
pub open spec fn remove_port(es: Seq<NetworkPort>, p: NetworkPort) -> Seq<NetworkPort>
    decreases es.len(),
{
    if es.len() == 0 {
        es
    } else if es[0].0 == p.0 {
        es.drop_first()
    } else {
        seq![es[0]] + remove_port(es.drop_first(), p)
    }
}

/// The list with `p` inserted at its sorted position.
pub open spec fn insert_port(es: Seq<NetworkPort>, p: NetworkPort) -> Seq<NetworkPort>
    decreases es.len(),
{
    if es.len() == 0 {
        seq![p]
    } else if es[0].0 < p.0 {
        seq![es[0]] + insert_port(es.drop_first(), p)
    } else {
        seq![p] + es
    }
}

/// What removing a port leaves, variant by variant: the whole universe
/// becomes a one-entry exclusion list, a singleton becomes the empty set, and
/// the element lists get the single sorted edit.
pub open spec fn spec_remove(m: CountableSetModel, p: NetworkPort) -> CountableSetModel {
    match m {
        CountableSetModel::NoneOf => CountableSetModel::NoneOf,
        CountableSetModel::One(_) => CountableSetModel::NoneOf,
        CountableSetModel::SomeOf(es) => CountableSetModel::SomeOf(remove_port(es, p)),
        CountableSetModel::AllExcept(es) => CountableSetModel::AllExcept(insert_port(es, p)),
        CountableSetModel::All => CountableSetModel::AllExcept(seq![p]),
    }
}

/// Deleting at the index of the first match is `remove_port`.
proof fn lemma_remove_at_first(es: Seq<NetworkPort>, idx: int, p: NetworkPort)
    requires
        0 <= idx < es.len(),
        es[idx].0 == p.0,
        forall|j: int| 0 <= j < idx ==> (#[trigger] es[j]).0 != p.0,
    ensures
        es.remove(idx) == remove_port(es, p),
    decreases idx,
{
    if idx == 0 {
        assert(es.remove(0) =~= es.drop_first());
    } else {
        assert(es[0].0 != p.0);
        lemma_remove_at_first(es.drop_first(), idx - 1, p);
        assert(es.remove(idx) =~= seq![es[0]] + es.drop_first().remove(idx - 1));
    }
}

/// Inserting at the first index whose entry is larger is `insert_port`.
proof fn lemma_insert_at_position(es: Seq<NetworkPort>, idx: int, p: NetworkPort)
    requires
        0 <= idx <= es.len(),
        forall|j: int| 0 <= j < idx ==> (#[trigger] es[j]).0 < p.0,
        forall|j: int| idx <= j < es.len() ==> (#[trigger] es[j]).0 > p.0,
    ensures
        es.insert(idx, p) == insert_port(es, p),
    decreases idx,
{
    if idx == 0 {
        if es.len() == 0 {
            assert(es.insert(0, p) =~= seq![p]);
        } else {
            assert(es[0].0 > p.0);
            assert(es.insert(0, p) =~= seq![p] + es);
        }
    } else {
        assert(es[0].0 < p.0);
        lemma_insert_at_position(es.drop_first(), idx - 1, p);
        assert(es.insert(idx, p) =~= seq![es[0]] + es.drop_first().insert(idx - 1, p));
    }
}

impl CountableSetSpecifier {
    /// Remove one element from the set. The element must currently be in the
    /// set; membership of every other port is unchanged, and the result is
    /// exactly the canonical representation `spec_remove` writes out.
    pub fn remove(&mut self, to_rm: &NetworkPort)
        requires
            old(self).wf(),
            to_rm.wf(),
            old(self).spec_contains(to_rm.0 as int),
        ensures
            final(self).wf(),
            !final(self).spec_contains(to_rm.0 as int),
            forall|v: int|
                v != to_rm.0 as int ==> final(self).spec_contains(v) == old(
                    self,
                ).spec_contains(v),
            final(self).model() == spec_remove(old(self).model(), *to_rm),
    {
        let mut taken = CountableSetSpecifier::NoneOf;
        core::mem::swap(self, &mut taken);
        match taken {
            CountableSetSpecifier::NoneOf => {
                proof {
                    assert(false);
                }
            },
            CountableSetSpecifier::One(_) => {
                *self = CountableSetSpecifier::NoneOf;
            },
            CountableSetSpecifier::SomeOf(mut es) => {
                let ghost old_es = es@;
                let idx = find_port_index(&es, to_rm);
                es.remove(idx);
                proof {
                    old_es.remove_ensures(idx as int);
                    lemma_port_list_remove(old_es, es@, idx as int, *to_rm);
                    lemma_remove_at_first(old_es, idx as int, *to_rm);
                }
                *self = CountableSetSpecifier::SomeOf(es);
            },
            CountableSetSpecifier::AllExcept(mut es) => {
                let ghost old_es = es@;
                let idx = find_insert_index(&es, to_rm);
                es.insert(idx, *to_rm);
                proof {
                    old_es.insert_ensures(idx as int, *to_rm);
                    lemma_port_list_insert(old_es, es@, idx as int, *to_rm);
                    lemma_insert_at_position(old_es, idx as int, *to_rm);
                }
                *self = CountableSetSpecifier::AllExcept(es);
            },
            CountableSetSpecifier::All => {
                let mut es: Vec<NetworkPort> = Vec::new();
                es.push(*to_rm);
                proof {
                    assert(es@ =~= seq![*to_rm]);
                    assert forall|v: int| in_port_list(es@, v) == (v == to_rm.0 as int) by {
                        if in_port_list(es@, v) {
                            let i = choose|i: int| 0 <= i < es@.len() && es@[i].0 == v;
                        }
                        if v == to_rm.0 as int {
                            assert(es@[0].0 == v);
                        }
                    }
                }
                *self = CountableSetSpecifier::AllExcept(es);
            },
        }
    }
}

/// The upper edge of the region already decided by the `ranges` loop: every
/// port below it is settled, every exclusion at or above it is still pending.
pub open spec fn ranges_bound(start: Option<NetworkPort>, i: int) -> int {
    if i == 0 {
        1
    } else {
        match start {
            Some(s) => s.0 as int,
            None => 65536,
        }
    }
}

/// Extending a range list by one range extends its cover pointwise.
proof fn lemma_ranges_cover_push(rs: Seq<PortRange>, new_rs: Seq<PortRange>, pr: PortRange)
    requires
        new_rs == rs.push(pr),
    ensures
        forall|v: int|
            ranges_cover(new_rs, v) == (ranges_cover(rs, v) || (pr.first.0 <= v
                <= pr.last.0)),
{
    assert forall|v: int|
        ranges_cover(new_rs, v) == (ranges_cover(rs, v) || (pr.first.0 <= v
            <= pr.last.0)) by {
        if ranges_cover(new_rs, v) {
            let k = choose|k: int|
                0 <= k < new_rs.len() && (#[trigger] new_rs[k]).first.0 <= v
                    <= new_rs[k].last.0;
            if k < rs.len() {
                assert(rs[k] == new_rs[k]);
                assert(ranges_cover(rs, v));
            } else {
                assert(new_rs[k] == pr);
            }
        }
        if ranges_cover(rs, v) {
            let k = choose|k: int|
                0 <= k < rs.len() && (#[trigger] rs[k]).first.0 <= v <= rs[k].last.0;
            assert(new_rs[k] == rs[k]);
            assert(ranges_cover(new_rs, v));
        }
        if pr.first.0 <= v <= pr.last.0 {
            assert(new_rs[rs.len() as int] == pr);
            assert(ranges_cover(new_rs, v));
        }
    }
}

/// One singleton range per listed port, in list order.
pub open spec fn singleton_ranges(es: Seq<NetworkPort>) -> Seq<PortRange> {
    es.map_values(|e: NetworkPort| PortRange { first: e, last: e })
}

/// The decomposition of an exclusion set, with the exclusions from position
/// `i` on still to be processed and `start` the lowest port not yet covered
/// (65536 when none is left): one range below each exclusion, and one final
/// range up to the top of the universe.
pub open spec fn all_except_ranges(es: Seq<NetworkPort>, i: int, start: int) -> Seq<PortRange>
    decreases es.len() - i,
{
    if i < 0 || i >= es.len() {
        if start <= 65535 {
            seq![PortRange { first: NetworkPort(start as u16), last: NetworkPort(65535u16) }]
        } else {
            Seq::empty()
        }
    } else {
        let e = es[i].0 as int;
        (if start <= e - 1 {
            seq![
                PortRange {
                    first: NetworkPort(start as u16),
                    last: NetworkPort((e - 1) as u16),
                }
            ]
        } else {
            Seq::empty()
        }) + all_except_ranges(es, i + 1, e + 1)
    }
}

/// The canonical interval decomposition, variant by variant: nothing for the
/// empty set, a singleton range per listed port (adjacent ports are not
/// merged), the gaps between the exclusions, or the whole universe.
pub open spec fn spec_ranges(m: CountableSetModel) -> Seq<PortRange> {
    match m {
        CountableSetModel::NoneOf => Seq::empty(),
        CountableSetModel::One(e) => seq![PortRange { first: e, last: e }],
        CountableSetModel::SomeOf(es) => singleton_ranges(es),
        CountableSetModel::AllExcept(es) => all_except_ranges(es, 0, 1),
        CountableSetModel::All => seq![
            PortRange { first: NetworkPort(1u16), last: NetworkPort(65535u16) }
        ],
    }
}

impl CountableSetSpecifier {
    /// The canonical interval decomposition of the set, exactly as
    /// `spec_ranges` writes it out: non-empty, disjoint, sorted inclusive
    /// ranges whose union is exactly the set.
    pub fn ranges(&self) -> (r: Vec<PortRange>)
        requires
            self.wf(),
        ensures
            r@ == spec_ranges(self.model()),
            forall|k: int|
                0 <= k < r@.len() ==> (#[trigger] r@[k]).first.0 >= 1 && r@[k].first.0
                    <= r@[k].last.0,
            forall|k: int| 0 <= k < r@.len() - 1 ==> (#[trigger] r@[k]).last.0 < r@[k
                + 1].first.0,
            forall|v: int| self.spec_contains(v) == ranges_cover(r@, v),
    {
        match self {
            CountableSetSpecifier::NoneOf => {
                let r: Vec<PortRange> = Vec::new();
                proof {
                    assert forall|v: int| !ranges_cover(r@, v) by {}
                    assert(r@ =~= spec_ranges(self.model()));
                }
                r
            },
            CountableSetSpecifier::One(e) => {
                let mut r: Vec<PortRange> = Vec::new();
                r.push(PortRange { first: *e, last: *e });
                proof {
                    assert(r@ =~= spec_ranges(self.model()));
                    assert forall|v: int| self.spec_contains(v) == ranges_cover(r@, v) by {
                        if self.spec_contains(v) {
                            assert(r@[0].first.0 <= v <= r@[0].last.0);
                        }
                        if ranges_cover(r@, v) {
                            let k = choose|k: int|
                                0 <= k < r@.len() && (#[trigger] r@[k]).first.0 <= v
                                    <= r@[k].last.0;
                        }
                    }
                }
                r
            },
            CountableSetSpecifier::SomeOf(es) => {
                let mut r: Vec<PortRange> = Vec::new();
                let mut i: usize = 0;
                while i < es.len()
                    invariant
                        0 <= i <= es@.len(),
                        ports_wf(es@),
                        strictly_ascending(es@),
                        r@.len() == i,
                        forall|k: int|
                            0 <= k < i ==> #[trigger] r@[k] == (PortRange {
                                first: es@[k],
                                last: es@[k],
                            }),
                    decreases es@.len() - i,
                {
                    r.push(PortRange { first: es[i], last: es[i] });
                    i += 1;
                }
                proof {
                    assert(r@ =~= singleton_ranges(es@));
                    assert forall|v: int| self.spec_contains(v) == ranges_cover(r@, v) by {
                        if self.spec_contains(v) {
                            let j = choose|j: int| 0 <= j < es@.len() && es@[j].0 == v;
                            assert(r@[j].first.0 <= v <= r@[j].last.0);
                        }
                        if ranges_cover(r@, v) {
                            let k = choose|k: int|
                                0 <= k < r@.len() && (#[trigger] r@[k]).first.0 <= v
                                    <= r@[k].last.0;
                            assert(es@[k].0 == v);
                            assert(in_port_list(es@, v));
                        }
                    }
                }
                r
            },
            CountableSetSpecifier::AllExcept(excs) => {
                let mut r: Vec<PortRange> = Vec::new();
                let mut start: Option<NetworkPort> = None;
                let mut i: usize = 0;
                proof {
                    assert(r@ + all_except_ranges(excs@, 0, 1) =~= all_except_ranges(
                        excs@,
                        0,
                        1,
                    ));
                }
                while i < excs.len()
                    invariant
                        0 <= i <= excs@.len(),
                        excs@.len() >= 1,
                        ports_wf(excs@),
                        strictly_ascending(excs@),
                        1 <= ranges_bound(start, i as int) <= 65536,
                        i == 0 ==> start is None,
                        start is Some ==> i >= 1,
                        forall|v: int|
                            1 <= v < ranges_bound(start, i as int) ==> (ranges_cover(r@, v)
                                == !in_port_list(excs@, v)),
                        forall|v: int|
                            ranges_cover(r@, v) ==> 1 <= v < ranges_bound(start, i as int),
                        forall|k: int|
                            0 <= k < r@.len() ==> (#[trigger] r@[k]).first.0 >= 1
                                && r@[k].first.0 <= r@[k].last.0,
                        forall|k: int|
                            0 <= k < r@.len() - 1 ==> (#[trigger] r@[k]).last.0 < r@[k
                                + 1].first.0,
                        forall|j: int|
                            0 <= j < i ==> (#[trigger] excs@[j]).0 < ranges_bound(
                                start,
                                i as int,
                            ),
                        forall|j: int|
                            i <= j < excs@.len() ==> (#[trigger] excs@[j]).0 >= ranges_bound(
                                start,
                                i as int,
                            ),
                        all_except_ranges(excs@, 0, 1) == r@ + all_except_ranges(
                            excs@,
                            i as int,
                            ranges_bound(start, i as int),
                        ),
                    decreases excs@.len() - i,
                {
                    let ghost bound = ranges_bound(start, i as int);
                    let ghost old_r = r@;
                    let exc = excs[i];
                    proof {
                        assert(bound <= exc.0 as int);
                        assert(in_port_list(excs@, exc.0 as int)) by {
                            assert(excs@[i as int].0 == exc.0);
                        }
                        // ports strictly below the current exclusion and at or
                        // above the bound are not excluded at all
                        assert forall|v: int|
                            bound <= v < exc.0 as int implies !in_port_list(excs@, v) by {
                            if in_port_list(excs@, v) {
                                let j = choose|j: int|
                                    0 <= j < excs@.len() && excs@[j].0 == v;
                                if j < i {
                                    assert(excs@[j].0 < bound);
                                } else if j > i {
                                    assert(excs@[i as int].0 < excs@[j].0);
                                }
                            }
                        }
                    }
                    if exc.0 != 1 {
                        let cur_start: NetworkPort = match &start {
                            Some(s) => *s,
                            None => NetworkPort(1),
                        };
                        proof {
                            assert(cur_start.0 as int == bound);
                        }
                        let cur_end = NetworkPort(exc.0 - 1);
                        if cur_start.0 <= cur_end.0 {
                            let pr = PortRange { first: cur_start, last: cur_end };
                            proof {
                                // the new range sits above everything covered so far
                                assert forall|k: int|
                                    0 <= k < r@.len() implies (#[trigger] r@[k]).last.0
                                        < pr.first.0 by {
                                    assert(ranges_cover(r@, r@[k].last.0 as int));
                                }
                            }
                            r.push(pr);
                            proof {
                                lemma_ranges_cover_push(old_r, r@, pr);
                                assert forall|v: int|
                                    1 <= v < exc.0 as int + 1 implies (ranges_cover(r@, v)
                                        == !in_port_list(excs@, v)) by {
                                    if v < bound {
                                        assert(ranges_cover(old_r, v) == !in_port_list(
                                            excs@,
                                            v,
                                        ));
                                        assert(!(pr.first.0 <= v <= pr.last.0));
                                    } else if v < exc.0 as int {
                                        assert(pr.first.0 <= v <= pr.last.0);
                                        assert(ranges_cover(r@, v));
                                    } else {
                                        assert(in_port_list(excs@, v));
                                        assert(!(pr.first.0 <= v <= pr.last.0));
                                        assert(!ranges_cover(old_r, v));
                                    }
                                }
                                assert forall|v: int|
                                    ranges_cover(r@, v) implies 1 <= v < exc.0 as int
                                        + 1 by {
                                    if !(pr.first.0 <= v <= pr.last.0) {
                                        assert(ranges_cover(old_r, v));
                                    }
                                }
                            }
                        } else {
                            proof {
                                // empty region: the bound already sits at the exclusion
                                assert(bound == exc.0 as int);
                                assert forall|v: int|
                                    1 <= v < exc.0 as int + 1 implies (ranges_cover(r@, v)
                                        == !in_port_list(excs@, v)) by {}
                            }
                        }
                    } else {
                        proof {
                            assert(bound == 1 && exc.0 == 1);
                            assert forall|v: int|
                                1 <= v < exc.0 as int + 1 implies (ranges_cover(r@, v)
                                    == !in_port_list(excs@, v)) by {}
                        }
                    }
                    if exc.0 == 65535 {
                        start = None;
                    } else {
                        start = Some(NetworkPort(exc.0 + 1));
                    }
                    i += 1;
                    proof {
                        assert(ranges_bound(start, i as int) == exc.0 as int + 1);
                        let head: Seq<PortRange> = if bound <= exc.0 - 1 {
                            seq![
                                PortRange {
                                    first: NetworkPort(bound as u16),
                                    last: NetworkPort((exc.0 - 1) as u16),
                                }
                            ]
                        } else {
                            Seq::empty()
                        };
                        assert(all_except_ranges(excs@, i as int - 1, bound) == head
                            + all_except_ranges(excs@, i as int, exc.0 as int + 1));
                        assert(r@ =~= old_r + head);
                        assert(all_except_ranges(excs@, 0, 1) =~= r@ + all_except_ranges(
                            excs@,
                            i as int,
                            ranges_bound(start, i as int),
                        ));
                    }
                }
                if let Some(s) = start {
                    let ghost pre_r = r@;
                    let ghost bound = ranges_bound(start, i as int);
                    let pr = PortRange { first: s, last: NetworkPort(65535) };
                    proof {
                        assert(pr.first.0 as int == bound);
                        assert forall|k: int|
                            0 <= k < r@.len() implies (#[trigger] r@[k]).last.0
                                < pr.first.0 by {
                            assert(ranges_cover(r@, r@[k].last.0 as int));
                        }
                    }
                    r.push(pr);
                    proof {
                        lemma_ranges_cover_push(pre_r, r@, pr);
                        assert forall|v: int|
                            1 <= v < 65536 implies (ranges_cover(r@, v) == !in_port_list(
                                excs@,
                                v,
                            )) by {
                            if v < bound {
                                assert(ranges_cover(pre_r, v) == !in_port_list(excs@, v));
                                assert(!(pr.first.0 <= v <= pr.last.0));
                            } else {
                                assert(pr.first.0 <= v <= pr.last.0);
                                assert(ranges_cover(r@, v));
                                if in_port_list(excs@, v) {
                                    let j = choose|j: int|
                                        0 <= j < excs@.len() && excs@[j].0 == v;
                                    assert(excs@[j].0 < bound);
                                }
                            }
                        }
                        assert forall|v: int| ranges_cover(r@, v) implies 1 <= v < 65536 by {
                            if !(pr.first.0 <= v <= pr.last.0) {
                                assert(ranges_cover(pre_r, v));
                            }
                        }
                        assert(all_except_ranges(excs@, i as int, bound) == seq![pr]);
                        assert(r@ =~= pre_r + seq![pr]);
                        assert(r@ =~= all_except_ranges(excs@, 0, 1));
                    }
                }
                proof {
                    if start is None {
                        assert(ranges_bound(start, i as int) == 65536);
                        assert(all_except_ranges(excs@, i as int, 65536) =~= Seq::<
                            PortRange,
                        >::empty());
                        assert(r@ =~= all_except_ranges(excs@, 0, 1));
                    }
                    assert(r@ == spec_ranges(self.model()));
                    assert forall|v: int| self.spec_contains(v) == ranges_cover(r@, v) by {
                        if !(1 <= v <= 65535) {
                            assert(!self.spec_contains(v));
                            if ranges_cover(r@, v) {
                                assert(1 <= v < 65536);
                            }
                        }
                    }
                }
                r
            },
            CountableSetSpecifier::All => {
                let mut r: Vec<PortRange> = Vec::new();
                r.push(PortRange { first: NetworkPort(1), last: NetworkPort(65535) });
                proof {
                    assert(r@ =~= spec_ranges(self.model()));
                    assert forall|v: int| self.spec_contains(v) == ranges_cover(r@, v) by {
                        if self.spec_contains(v) {
                            assert(r@[0].first.0 <= v <= r@[0].last.0);
                        }
                        if ranges_cover(r@, v) {
                            let k = choose|k: int|
                                0 <= k < r@.len() && (#[trigger] r@[k]).first.0 <= v
                                    <= r@[k].last.0;
                        }
                    }
                }
                r
            },
        }
    }
}

/// Index of the (unique) occurrence of `p` in `es`.
fn find_port_index(es: &Vec<NetworkPort>, p: &NetworkPort) -> (idx: usize)
    requires
        in_port_list(es@, p.0 as int),
    ensures
        0 <= idx < es@.len(),
        es@[idx as int].0 == p.0,
        forall|j: int| 0 <= j < idx ==> (#[trigger] es@[j]).0 != p.0,
{
    let mut i: usize = 0;
    while i < es.len()
        invariant
            0 <= i <= es@.len(),
            in_port_list(es@, p.0 as int),
            forall|j: int| 0 <= j < i ==> (#[trigger] es@[j]).0 != p.0,
        decreases es@.len() - i,
    {
        if es[i].0 == p.0 {
            return i;
        }
        i += 1;
    }
    proof {
        let j = choose|j: int| 0 <= j < es@.len() && es@[j].0 == p.0 as int;
        assert(false);
    }
    vstd::pervasive::unreached()
}

/// Position at which `p` belongs in the strictly ascending list `es`.
fn find_insert_index(es: &Vec<NetworkPort>, p: &NetworkPort) -> (idx: usize)
    requires
        strictly_ascending(es@),
        !in_port_list(es@, p.0 as int),
    ensures
        0 <= idx <= es@.len(),
        forall|j: int| 0 <= j < idx ==> (#[trigger] es@[j]).0 < p.0,
        forall|j: int| idx <= j < es@.len() ==> (#[trigger] es@[j]).0 > p.0,
{
    let mut i: usize = 0;
    while i < es.len()
        invariant
            0 <= i <= es@.len(),
            strictly_ascending(es@),
            !in_port_list(es@, p.0 as int),
            forall|j: int| 0 <= j < i ==> (#[trigger] es@[j]).0 < p.0,
        decreases es@.len() - i,
    {
        if es[i].0 > p.0 {
            proof {
                assert forall|j: int|
                    i <= j < es@.len() implies (#[trigger] es@[j]).0 > p.0 by {
                    if j > i {
                        assert(es@[i as int].0 < es@[j].0);
                    }
                }
            }
            return i;
        }
        proof {
            assert(es@[i as int].0 != p.0) by {
                if es@[i as int].0 == p.0 {
                    assert(in_port_list(es@, p.0 as int));
                }
            }
        }
        i += 1;
    }
    i
}

/// What removing the unique occurrence of `p` does to membership and order.
proof fn lemma_port_list_remove(
    old_es: Seq<NetworkPort>,
    new_es: Seq<NetworkPort>,
    idx: int,
    p: NetworkPort,
)
    requires
        0 <= idx < old_es.len(),
        old_es[idx].0 == p.0,
        ports_wf(old_es),
        strictly_ascending(old_es),
        new_es == old_es.remove(idx),
    ensures
        ports_wf(new_es),
        strictly_ascending(new_es),
        !in_port_list(new_es, p.0 as int),
        forall|v: int| v != p.0 as int ==> in_port_list(new_es, v) == in_port_list(old_es, v),
{
    old_es.remove_ensures(idx);
    assert forall|i: int| 0 <= i < new_es.len() implies (#[trigger] new_es[i]).0 >= 1 by {
        if i < idx {
            assert(new_es[i] == old_es[i]);
        } else {
            assert(new_es[i] == old_es[i + 1]);
        }
    }
    assert forall|i: int, j: int|
        0 <= i < j < new_es.len() implies new_es[i].0 < new_es[j].0 by {
        let i0 = if i < idx { i } else { i + 1 };
        let j0 = if j < idx { j } else { j + 1 };
        assert(new_es[i] == old_es[i0]);
        assert(new_es[j] == old_es[j0]);
        assert(old_es[i0].0 < old_es[j0].0);
    }
    assert(!in_port_list(new_es, p.0 as int)) by {
        if in_port_list(new_es, p.0 as int) {
            let i = choose|i: int| 0 <= i < new_es.len() && new_es[i].0 == p.0;
            let i0 = if i < idx { i } else { i + 1 };
            assert(new_es[i] == old_es[i0]);
            // two distinct indices of a strictly ascending list share a value
            assert(i0 != idx);
            if i0 < idx {
                assert(old_es[i0].0 < old_es[idx].0);
            } else {
                assert(old_es[idx].0 < old_es[i0].0);
            }
        }
    }
    assert forall|v: int|
        v != p.0 as int implies in_port_list(new_es, v) == in_port_list(old_es, v) by {
        if in_port_list(new_es, v) {
            let i = choose|i: int| 0 <= i < new_es.len() && new_es[i].0 == v;
            let i0 = if i < idx { i } else { i + 1 };
            assert(new_es[i] == old_es[i0]);
            assert(in_port_list(old_es, v));
        }
        if in_port_list(old_es, v) {
            let i = choose|i: int| 0 <= i < old_es.len() && old_es[i].0 == v;
            assert(i != idx);
            if i < idx {
                assert(new_es[i] == old_es[i]);
            } else {
                assert(new_es[i - 1] == old_es[i]);
            }
            assert(in_port_list(new_es, v));
        }
    }
}

/// What inserting `p` at its sorted position does to membership and order.
proof fn lemma_port_list_insert(
    old_es: Seq<NetworkPort>,
    new_es: Seq<NetworkPort>,
    idx: int,
    p: NetworkPort,
)
    requires
        0 <= idx <= old_es.len(),
        p.0 >= 1,
        forall|j: int| 0 <= j < idx ==> (#[trigger] old_es[j]).0 < p.0,
        forall|j: int| idx <= j < old_es.len() ==> (#[trigger] old_es[j]).0 > p.0,
        ports_wf(old_es),
        strictly_ascending(old_es),
        new_es == old_es.insert(idx, p),
    ensures
        ports_wf(new_es),
        strictly_ascending(new_es),
        in_port_list(new_es, p.0 as int),
        forall|v: int| v != p.0 as int ==> in_port_list(new_es, v) == in_port_list(old_es, v),
{
    old_es.insert_ensures(idx, p);
    assert forall|i: int| 0 <= i < new_es.len() implies (#[trigger] new_es[i]).0 >= 1 by {
        if i < idx {
            assert(new_es[i] == old_es[i]);
        } else if i == idx {
            assert(new_es[i] == p);
        } else {
            assert(new_es[i] == old_es[i - 1]);
        }
    }
    assert forall|i: int, j: int|
        0 <= i < j < new_es.len() implies new_es[i].0 < new_es[j].0 by {
        if i < idx {
            assert(new_es[i] == old_es[i]);
        } else if i == idx {
            assert(new_es[i] == p);
        } else {
            assert(new_es[i] == old_es[i - 1]);
        }
        if j < idx {
            assert(new_es[j] == old_es[j]);
        } else if j == idx {
            assert(new_es[j] == p);
        } else {
            assert(new_es[j] == old_es[j - 1]);
        }
    }
    assert(new_es[idx].0 == p.0);
    assert(in_port_list(new_es, p.0 as int));
    assert forall|v: int|
        v != p.0 as int implies in_port_list(new_es, v) == in_port_list(old_es, v) by {
        if in_port_list(new_es, v) {
            let i = choose|i: int| 0 <= i < new_es.len() && new_es[i].0 == v;
            if i < idx {
                assert(new_es[i] == old_es[i]);
                assert(in_port_list(old_es, v));
            } else if i == idx {
                assert(false);
            } else {
                assert(new_es[i] == old_es[i - 1]);
                assert(in_port_list(old_es, v));
            }
        }
        if in_port_list(old_es, v) {
            let i = choose|i: int| 0 <= i < old_es.len() && old_es[i].0 == v;
            if i < idx {
                assert(new_es[i] == old_es[i]);
            } else {
                assert(new_es[i + 1] == old_es[i]);
            }
            assert(in_port_list(new_es, v));
        }
    }
}

/// Linear membership scan.
fn port_in_list(es: &Vec<NetworkPort>, needle: &NetworkPort) -> (r: bool)
    ensures
        r == in_port_list(es@, needle.0 as int),
{
    let mut i: usize = 0;
    let mut found = false;
    while i < es.len()
        invariant
            0 <= i <= es@.len(),
            found == exists|j: int| 0 <= j < i && es@[j].0 == needle.0,
        decreases es@.len() - i,
    {
        if es[i].0 == needle.0 {
            found = true;
        }
        i += 1;
    }
    found
}

/// Whether some member of `es` is in `other`.
fn any_port_shared(es: &Vec<NetworkPort>, other: &CountableSetSpecifier) -> (r: bool)
    requires
        ports_wf(es@),
        other.wf(),
    ensures
        r == exists|v: int| in_port_list(es@, v) && other.spec_contains(v),
{
    let mut i: usize = 0;
    let mut found = false;
    while i < es.len()
        invariant
            0 <= i <= es@.len(),
            ports_wf(es@),
            other.wf(),
            found ==> exists|v: int| in_port_list(es@, v) && other.spec_contains(v),
            !found ==> forall|j: int|
                0 <= j < i ==> !other.spec_contains(es@[j].0 as int),
        decreases es@.len() - i,
    {
        if other.contains_one(&es[i]) {
            proof {
                let v = es@[i as int].0 as int;
                assert(in_port_list(es@, v));
            }
            found = true;
        }
        i += 1;
    }
    proof {
        if !found {
            assert forall|v: int| !(in_port_list(es@, v) && other.spec_contains(v)) by {
                if in_port_list(es@, v) {
                    let j = choose|j: int| 0 <= j < es@.len() && es@[j].0 == v;
                    assert(!other.spec_contains(es@[j].0 as int));
                }
            }
        }
    }
    found
}

/// Whether some port of the universe is outside both (strictly ascending)
/// exclusion lists: a merge walk looking for the first gap.
fn port_gap_exists(a: &Vec<NetworkPort>, b: &Vec<NetworkPort>) -> (r: bool)
    requires
        ports_wf(a@),
        strictly_ascending(a@),
        ports_wf(b@),
        strictly_ascending(b@),
    ensures
        r == exists|v: int| 1 <= v <= 65535 && !in_port_list(a@, v) && !in_port_list(b@, v),
{
    let mut ia: usize = 0;
    let mut ib: usize = 0;
    let mut next: u32 = 1;
    while ia < a.len() || ib < b.len()
        invariant
            0 <= ia <= a@.len(),
            0 <= ib <= b@.len(),
            1 <= next <= 65536,
            ports_wf(a@),
            strictly_ascending(a@),
            ports_wf(b@),
            strictly_ascending(b@),
            forall|v: int| 1 <= v < next ==> in_port_list(a@, v) || in_port_list(b@, v),
            forall|i: int| 0 <= i < ia ==> (#[trigger] a@[i]).0 < next,
            forall|i: int| ia <= i < a@.len() ==> (#[trigger] a@[i]).0 >= next,
            forall|i: int| 0 <= i < ib ==> (#[trigger] b@[i]).0 < next,
            forall|i: int| ib <= i < b@.len() ==> (#[trigger] b@[i]).0 >= next,
        decreases a@.len() - ia + b@.len() - ib,
    {
        let u: u16 = if ia < a.len() && ib < b.len() {
            if a[ia].0 <= b[ib].0 {
                a[ia].0
            } else {
                b[ib].0
            }
        } else if ia < a.len() {
            a[ia].0
        } else {
            b[ib].0
        };
        if (u as u32) > next {
            proof {
                let w = next as int;
                assert(!in_port_list(a@, w)) by {
                    if in_port_list(a@, w) {
                        let i = choose|i: int| 0 <= i < a@.len() && a@[i].0 == w;
                        if i >= ia {
                            // unprocessed entries are at least the minimum head u > next
                            assert(a@[ia as int].0 >= u);
                        }
                    }
                }
                assert(!in_port_list(b@, w)) by {
                    if in_port_list(b@, w) {
                        let i = choose|i: int| 0 <= i < b@.len() && b@[i].0 == w;
                        if i >= ib {
                            assert(b@[ib as int].0 >= u);
                        }
                    }
                }
                assert(1 <= w <= 65535 && !in_port_list(a@, w) && !in_port_list(b@, w));
            }
            return true;
        }
        proof {
            // the minimum head equals next: heads are >= next and u <= next
            if ia < a@.len() && a@[ia as int].0 == u {
                assert(in_port_list(a@, u as int));
            } else {
                assert(ib < b@.len() && b@[ib as int].0 == u);
                assert(in_port_list(b@, u as int));
            }
        }
        if ia < a.len() && a[ia].0 == u {
            ia += 1;
        }
        if ib < b.len() && b[ib].0 == u {
            ib += 1;
        }
        next = (u as u32) + 1;
    }
    if next <= 65535 {
        proof {
            let w = next as int;
            assert(!in_port_list(a@, w)) by {
                if in_port_list(a@, w) {
                    let i = choose|i: int| 0 <= i < a@.len() && a@[i].0 == w;
                }
            }
            assert(!in_port_list(b@, w)) by {
                if in_port_list(b@, w) {
                    let i = choose|i: int| 0 <= i < b@.len() && b@[i].0 == w;
                }
            }
            assert(1 <= w <= 65535 && !in_port_list(a@, w) && !in_port_list(b@, w));
        }
        true
    } else {
        proof {
            assert forall|v: int|
                !(1 <= v <= 65535 && !in_port_list(a@, v) && !in_port_list(b@, v)) by {}
        }
        false
    }
}

/// Bridges the membership form used by `any_port_shared` to the intersection
/// form of `intersects`, for a `SomeOf` specifier.
proof fn lemma_shared_exists_flip(
    es: Seq<NetworkPort>,
    a: CountableSetSpecifier,
    b: CountableSetSpecifier,
    r: bool,
)
    requires
        a.model() == CountableSetModel::SomeOf(es),
        r == exists|v: int| in_port_list(es, v) && b.spec_contains(v),
    ensures
        r == exists|v: int| a.spec_contains(v) && b.spec_contains(v),
{
    if r {
        let v = choose|v: int| in_port_list(es, v) && b.spec_contains(v);
        assert(a.spec_contains(v) && b.spec_contains(v));
    } else {
        if exists|v: int| a.spec_contains(v) && b.spec_contains(v) {
            let v = choose|v: int| a.spec_contains(v) && b.spec_contains(v);
            assert(in_port_list(es, v) && b.spec_contains(v));
        }
    }
}

/// Bridges the gap form used by `port_gap_exists` to the intersection form of
/// `intersects`, for two `AllExcept` specifiers.
proof fn lemma_gap_exists_flip(
    a_excs: Seq<NetworkPort>,
    b_excs: Seq<NetworkPort>,
    a: CountableSetSpecifier,
    b: CountableSetSpecifier,
    r: bool,
)
    requires
        a.model() == CountableSetModel::AllExcept(a_excs),
        b.model() == CountableSetModel::AllExcept(b_excs),
        r == exists|v: int|
            1 <= v <= 65535 && !in_port_list(a_excs, v) && !in_port_list(b_excs, v),
    ensures
        r == exists|v: int| a.spec_contains(v) && b.spec_contains(v),
{
    if r {
        let v = choose|v: int|
            1 <= v <= 65535 && !in_port_list(a_excs, v) && !in_port_list(b_excs, v);
        assert(a.spec_contains(v) && b.spec_contains(v));
    } else {
        if exists|v: int| a.spec_contains(v) && b.spec_contains(v) {
            let v = choose|v: int| a.spec_contains(v) && b.spec_contains(v);
            assert(1 <= v <= 65535 && !in_port_list(a_excs, v) && !in_port_list(b_excs, v));
        }
    }
}

/// Intersection of port sets is symmetric.
pub proof fn lemma_countable_intersects_symmetric(
    a: CountableSetSpecifier,
    b: CountableSetSpecifier,
)
    ensures
        (exists|v: int| a.spec_contains(v) && b.spec_contains(v)) == (exists|v: int|
            b.spec_contains(v) && a.spec_contains(v)),
{
    if exists|v: int| a.spec_contains(v) && b.spec_contains(v) {
        let v = choose|v: int| a.spec_contains(v) && b.spec_contains(v);
        assert(b.spec_contains(v) && a.spec_contains(v));
    }
    if exists|v: int| b.spec_contains(v) && a.spec_contains(v) {
        let v = choose|v: int| b.spec_contains(v) && a.spec_contains(v);
        assert(a.spec_contains(v) && b.spec_contains(v));
    }
}

} // verus!
