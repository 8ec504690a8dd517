//! Typed records reconstructed from tracer output: one `Syscall` per line,
//! with structured argument expressions.

use vstd::prelude::*;

verus! {

/// Compares a `String` against a string slice by contents.
pub fn string_eq_str(s: &String, lit: &str) -> (r: bool)
    ensures
        r == (s@ == lit@),
{
    *s == lit.to_owned()
}

/// Whether `p` is a prefix of `s`.
pub open spec fn spec_has_prefix(s: Seq<char>, p: Seq<char>) -> bool {
    p.len() <= s.len() && s.subrange(0, p.len() as int) == p
}

/// Whether `p` is a suffix of `s`.
pub open spec fn spec_has_suffix(s: Seq<char>, p: Seq<char>) -> bool {
    p.len() <= s.len() && s.subrange(s.len() - p.len(), s.len() as int) == p
}

/// Whether the string starts with the given prefix.
pub fn string_has_prefix(s: &String, prefix: &str) -> (r: bool)
    ensures
        r == spec_has_prefix(s@, prefix@),
{
    let st: &str = s.as_str();
    let n = prefix.unicode_len();
    let sn = st.unicode_len();
    if sn < n {
        return false;
    }
    let mut i: usize = 0;
    while i < n
        invariant
            0 <= i <= n,
            n == prefix@.len(),
            sn == s@.len(),
            st@ == s@,
            n <= sn,
            forall|j: int| 0 <= j < i ==> s@[j] == prefix@[j],
        decreases n - i,
    {
        if st.get_char(i) != prefix.get_char(i) {
            proof {
                assert(s@.subrange(0, n as int)[i as int] != prefix@[i as int]);
            }
            return false;
        }
        i += 1;
    }
    proof {
        assert(s@.subrange(0, n as int) =~= prefix@);
    }
    true
}

/// Whether the string ends with the given suffix.
pub fn string_has_suffix(s: &String, suffix: &str) -> (r: bool)
    ensures
        r == spec_has_suffix(s@, suffix@),
{
    let st: &str = s.as_str();
    let n = suffix.unicode_len();
    let sn = st.unicode_len();
    if sn < n {
        return false;
    }
    let base = sn - n;
    let mut i: usize = 0;
    while i < n
        invariant
            0 <= i <= n,
            n == suffix@.len(),
            sn == s@.len(),
            st@ == s@,
            base == sn - n,
            forall|j: int| 0 <= j < i ==> s@[base + j] == suffix@[j],
        decreases n - i,
    {
        if st.get_char(base + i) != suffix.get_char(i) {
            proof {
                assert(s@.subrange(base as int, sn as int)[i as int] != suffix@[i as int]);
            }
            return false;
        }
        i += 1;
    }
    proof {
        assert(s@.subrange(base as int, sn as int) =~= suffix@);
    }
    true
}

/// The value of an integer argument: a literal, a named constant, or a small
/// arithmetic combination of them as the tracer prints it.
#[derive(Debug, PartialEq, Eq)]
pub enum IntegerExpressionValue {
    Literal(i128),
    NamedConst(String),
    BinaryOr(Vec<IntegerExpressionValue>),
    LeftBitShift { value: Box<IntegerExpressionValue>, bits: Box<IntegerExpressionValue> },
    Multiplication(Vec<IntegerExpressionValue>),
}

/// An integer argument, with the optional byte-string metadata the tracer
/// attaches (the current path of a file descriptor).
#[derive(Debug, PartialEq, Eq)]
pub struct IntegerExpression {
    pub value: IntegerExpressionValue,
    pub metadata: Option<Vec<u8>>,
}

/// What a quoted buffer stands for.
#[derive(Debug, Clone, Copy, PartialEq, Eq, Structural)]
pub enum BufferType {
    /// Opaque bytes, e.g. a path.
    Unknown,
    /// A Unix-domain abstract socket address.
    AbstractPath,
}

/// A quoted byte buffer argument.
#[derive(Debug, PartialEq, Eq)]
pub struct BufferExpression {
    pub value: Vec<u8>,
    pub type_: BufferType,
}

/// A syscall argument expression.
#[derive(Debug, PartialEq, Eq)]
pub enum Expression {
    Integer(IntegerExpression),
    Buffer(BufferExpression),
    /// Struct members as name-expression pairs; insertion order carries no
    /// meaning except for duplicate-suffix lookups.
    Struct(Vec<(String, Expression)>),
    Array(Vec<Expression>),
    Macro { name: String, args: Vec<Expression> },
}

/// A malformed tracer line, kept verbatim with the position that failed.
#[derive(Debug, PartialEq, Eq)]
pub struct ParseError {
    pub line: String,
    pub offset: usize,
}

/// One reconstructed syscall record.
#[derive(Debug, PartialEq, Eq)]
pub struct Syscall {
    pub pid: u32,
    /// Relative timestamp, in microseconds.
    pub rel_ts_us: u64,
    pub name: String,
    pub args: Vec<Expression>,
    pub ret_val: i128,
}

impl IntegerExpressionValue {
    /// Whether the named flag occurs in this value: either the value is that
    /// named constant, or the value is a bitwise-or listing it.
    pub open spec fn spec_is_flag_set(self, flag: Seq<char>) -> bool {
        match self {
            IntegerExpressionValue::NamedConst(n) => n@ == flag,
            IntegerExpressionValue::BinaryOr(parts) => exists|i: int|
                0 <= i < parts@.len() && ((#[trigger] parts@[i]) matches
                    IntegerExpressionValue::NamedConst(n) && n@ == flag),
            _ => false,
        }
    }

    pub fn is_flag_set(&self, flag: &str) -> (r: bool)
        ensures
            r == self.spec_is_flag_set(flag@),
    {
        match self {
            IntegerExpressionValue::NamedConst(n) => string_eq_str(n, flag),
            IntegerExpressionValue::BinaryOr(parts) => {
                let mut i: usize = 0;
                let mut found = false;
                while i < parts.len()
                    invariant
                        0 <= i <= parts@.len(),
                        found == exists|j: int|
                            0 <= j < i && ((#[trigger] parts@[j]) matches
                                IntegerExpressionValue::NamedConst(n) && n@ == flag@),
                    decreases parts@.len() - i,
                {
                    if let IntegerExpressionValue::NamedConst(n) = &parts[i] {
                        if string_eq_str(n, flag) {
                            found = true;
                        }
                    }
                    i += 1;
                }
                found
            },
            _ => false,
        }
    }

    /// The named constants this value lists: the constant itself, or the
    /// named members of a bitwise-or, in order.
    pub open spec fn spec_flags(self) -> Seq<Seq<char>> {
        match self {
            IntegerExpressionValue::NamedConst(n) => seq![n@],
            IntegerExpressionValue::BinaryOr(parts) => named_flags_of(parts@),
            _ => Seq::empty(),
        }
    }

    pub fn flags(&self) -> (r: Vec<String>)
        ensures
            r.deep_view() == self.spec_flags(),
    {
        match self {
            IntegerExpressionValue::NamedConst(n) => {
                let mut v: Vec<String> = Vec::new();
                v.push(n.clone());
                proof {
                    assert(v.deep_view() =~= seq![n@]);
                }
                v
            },
            IntegerExpressionValue::BinaryOr(parts) => {
                let mut v: Vec<String> = Vec::new();
                let mut i: usize = 0;
                while i < parts.len()
                    invariant
                        0 <= i <= parts@.len(),
                        v.deep_view() == named_flags_of(parts@.take(i as int)),
                    decreases parts@.len() - i,
                {
                    let ghost pre = v.deep_view();
                    if let IntegerExpressionValue::NamedConst(n) = &parts[i] {
                        v.push(n.clone());
                        proof {
                            assert(v.deep_view() =~= pre.push(n@));
                        }
                    }
                    proof {
                        assert(parts@.take(i as int + 1).drop_last() =~= parts@.take(
                            i as int,
                        ));
                        assert(parts@.take(i as int + 1).last() == parts@[i as int]);
                        assert(v.deep_view() =~= named_flags_of(parts@.take(i as int + 1)));
                    }
                    i += 1;
                }
                proof {
                    assert(parts@.take(parts@.len() as int) =~= parts@);
                }
                v
            },
            _ => Vec::new(),
        }
    }

    /// The literal value, if this is a plain literal.
    pub open spec fn spec_literal(self) -> Option<i128> {
        match self {
            IntegerExpressionValue::Literal(v) => Some(v),
            _ => None,
        }
    }
}

/// The named constants among a bitwise-or's members, in order.
pub open spec fn named_flags_of(parts: Seq<IntegerExpressionValue>) -> Seq<Seq<char>>
    decreases parts.len(),
{
    if parts.len() == 0 {
        Seq::empty()
    } else {
        named_flags_of(parts.drop_last()) + (match parts.last() {
            IntegerExpressionValue::NamedConst(n) => seq![n@],
            _ => Seq::empty(),
        })
    }
}

impl Expression {
    /// The metadata bytes, when this is an integer argument carrying some.
    pub open spec fn spec_metadata(self) -> Option<Seq<u8>> {
        match self {
            Expression::Integer(ie) => match ie.metadata {
                Some(m) => Some(m@),
                None => None,
            },
            _ => None,
        }
    }

    pub fn metadata(&self) -> (r: Option<&Vec<u8>>)
        ensures
            r is Some == self.spec_metadata() is Some,
            r is Some ==> r.unwrap()@ == self.spec_metadata().unwrap(),
    {
        match self {
            Expression::Integer(ie) => match &ie.metadata {
                Some(m) => Some(m),
                None => None,
            },
            _ => None,
        }
    }
}

/// First member with the given name, scanning from the front.
pub open spec fn member_lookup(
    ms: Seq<(String, Expression)>,
    key: Seq<char>,
) -> Option<Expression>
    decreases ms.len(),
{
    if ms.len() == 0 {
        None
    } else if ms[0].0@ == key {
        Some(ms[0].1)
    } else {
        member_lookup(ms.drop_first(), key)
    }
}

/// An unmatched prefix does not change the lookup result.
proof fn lemma_member_lookup_skip(ms: Seq<(String, Expression)>, key: Seq<char>, i: int)
    requires
        0 <= i <= ms.len(),
        forall|j: int| 0 <= j < i ==> (#[trigger] ms[j]).0@ != key,
    ensures
        member_lookup(ms, key) == member_lookup(ms.skip(i), key),
    decreases i,
{
    if i > 0 {
        assert(ms[0].0@ != key);
        lemma_member_lookup_skip(ms.drop_first(), key, i - 1);
        assert(ms.drop_first().skip(i - 1) =~= ms.skip(i));
    } else {
        assert(ms.skip(0) =~= ms);
    }
}

/// First member of the struct with the given name.
pub fn struct_member<'a>(ms: &'a Vec<(String, Expression)>, key: &str) -> (r: Option<
    &'a Expression,
>)
    ensures
        r is Some == member_lookup(ms@, key@) is Some,
        r is Some ==> *r.unwrap() == member_lookup(ms@, key@).unwrap(),
{
    let mut i: usize = 0;
    while i < ms.len()
        invariant
            0 <= i <= ms@.len(),
            forall|j: int| 0 <= j < i ==> (#[trigger] ms@[j]).0@ != key@,
        decreases ms@.len() - i,
    {
        if string_eq_str(&ms[i].0, key) {
            proof {
                lemma_member_lookup_skip(ms@, key@, i as int);
                assert(ms@.skip(i as int)[0] == ms@[i as int]);
            }
            return Some(&ms[i].1);
        }
        i += 1;
    }
    proof {
        lemma_member_lookup_skip(ms@, key@, ms@.len() as int);
        assert(ms@.skip(ms@.len() as int) =~= Seq::<(String, Expression)>::empty());
    }
    None
}

} // verus!
