//! The persisted profile: a versioned, length-delimited binary container for
//! program action sequences, with a proved round trip.

use vstd::prelude::*;
use vstd::string::{StrSliceExecFns, StringSliceAdditionalSpecFns};
use vstd::utf8::{decode_utf8, encode_utf8, valid_utf8};

use crate::sets::{ports_wf, strictly_ascending, CountableSetModel, CountableSetSpecifier,
    NetworkPort, SetSpecModel, SetSpecifier};
use crate::summarize::{models_of, ActionModel, NetworkActivity, NetworkActivityModel,
    ProgramAction};
use crate::systemd::{SocketFamily, SocketProtocol};

verus! {

/// The 8-byte little-endian rendering of a number.
pub open spec fn enc_u64(x: int) -> Seq<u8> {
    seq![
        (x % 256) as u8,
        ((x / 256) % 256) as u8,
        ((x / 65536) % 256) as u8,
        ((x / 16777216) % 256) as u8,
        ((x / 4294967296) % 256) as u8,
        ((x / 1099511627776) % 256) as u8,
        ((x / 281474976710656) % 256) as u8,
        ((x / 72057594037927936) % 256) as u8,
    ]
}

/// The number eight little-endian bytes hold.
pub open spec fn le_val(s: Seq<u8>, pos: int) -> int {
    s[pos] + 256 * (s[pos + 1] + 256 * (s[pos + 2] + 256 * (s[pos + 3] + 256 * (s[pos + 4]
        + 256 * (s[pos + 5] + 256 * (s[pos + 6] + 256 * s[pos + 7]))))))
}

/// Reading a number at `pos`: eight bytes must be there.
pub open spec fn dec_u64(s: Seq<u8>, pos: int) -> Option<(int, int)> {
    if 0 <= pos && pos + 8 <= s.len() {
        Some((le_val(s, pos), pos + 8))
    } else {
        None
    }
}

/// Eight little-endian bytes give back the number they were made from.
proof fn lemma_le_round(x: int, s: Seq<u8>, pos: int)
    requires
        0 <= x < 0x10000000000000000,
        0 <= pos,
        pos + 8 <= s.len(),
        forall|k: int| 0 <= k < 8 ==> s[pos + k] == enc_u64(x)[k],
    ensures
        le_val(s, pos) == x,
{
    assert(s[pos + 0] == enc_u64(x)[0]);
    assert(s[pos + 1] == enc_u64(x)[1]);
    assert(s[pos + 2] == enc_u64(x)[2]);
    assert(s[pos + 3] == enc_u64(x)[3]);
    assert(s[pos + 4] == enc_u64(x)[4]);
    assert(s[pos + 5] == enc_u64(x)[5]);
    assert(s[pos + 6] == enc_u64(x)[6]);
    assert(s[pos + 7] == enc_u64(x)[7]);
    let x1 = x / 256;
    let x2 = x / 65536;
    let x3 = x / 16777216;
    let x4 = x / 4294967296;
    let x5 = x / 1099511627776;
    let x6 = x / 281474976710656;
    let x7 = x / 72057594037927936;
    vstd::arithmetic::div_mod::lemma_div_denominator(x, 256, 256);
    vstd::arithmetic::div_mod::lemma_div_denominator(x, 65536, 256);
    vstd::arithmetic::div_mod::lemma_div_denominator(x, 16777216, 256);
    vstd::arithmetic::div_mod::lemma_div_denominator(x, 4294967296, 256);
    vstd::arithmetic::div_mod::lemma_div_denominator(x, 1099511627776, 256);
    vstd::arithmetic::div_mod::lemma_div_denominator(x, 281474976710656, 256);
    vstd::arithmetic::div_mod::lemma_fundamental_div_mod(x, 256);
    vstd::arithmetic::div_mod::lemma_fundamental_div_mod(x1, 256);
    vstd::arithmetic::div_mod::lemma_fundamental_div_mod(x2, 256);
    vstd::arithmetic::div_mod::lemma_fundamental_div_mod(x3, 256);
    vstd::arithmetic::div_mod::lemma_fundamental_div_mod(x4, 256);
    vstd::arithmetic::div_mod::lemma_fundamental_div_mod(x5, 256);
    vstd::arithmetic::div_mod::lemma_fundamental_div_mod(x6, 256);
    assert(x7 < 256) by (nonlinear_arith)
        requires
            0 <= x < 0x10000000000000000,
            x7 == x / 72057594037927936,
    ;
    assert(x7 >= 0) by {
        vstd::arithmetic::div_mod::lemma_div_pos_is_pos(x, 72057594037927936);
    }
    let b0 = s[pos + 0] as int;
    let b1 = s[pos + 1] as int;
    let b2 = s[pos + 2] as int;
    let b3 = s[pos + 3] as int;
    let b4 = s[pos + 4] as int;
    let b5 = s[pos + 5] as int;
    let b6 = s[pos + 6] as int;
    let b7 = s[pos + 7] as int;
    assert(b7 == x7);
    assert(b6 + 256 * b7 == x6);
    assert(b5 + 256 * (b6 + 256 * b7) == x5);
    assert(b4 + 256 * (b5 + 256 * (b6 + 256 * b7)) == x4);
    assert(b3 + 256 * (b4 + 256 * (b5 + 256 * (b6 + 256 * b7))) == x3);
    assert(b2 + 256 * (b3 + 256 * (b4 + 256 * (b5 + 256 * (b6 + 256 * b7)))) == x2);
    assert(b1 + 256 * (b2 + 256 * (b3 + 256 * (b4 + 256 * (b5 + 256 * (b6 + 256 * b7)))))
        == x1);
    assert(b0 + 256 * (b1 + 256 * (b2 + 256 * (b3 + 256 * (b4 + 256 * (b5 + 256 * (b6 + 256
        * b7)))))) == x);
}

/// Appends the eight little-endian bytes of `x`.
fn push_u64(out: &mut Vec<u8>, x: u64)
    ensures
        final(out)@ == old(out)@ + enc_u64(x as int),
{
    let ghost pre = out@;
    out.push((x % 256) as u8);
    out.push(((x / 256) % 256) as u8);
    out.push(((x / 65536) % 256) as u8);
    out.push(((x / 16777216) % 256) as u8);
    out.push(((x / 4294967296) % 256) as u8);
    out.push(((x / 1099511627776) % 256) as u8);
    out.push(((x / 281474976710656) % 256) as u8);
    out.push(((x / 72057594037927936) % 256) as u8);
    proof {
        assert(out@ =~= pre + enc_u64(x as int));
    }
}

/// Reads the number at `pos`, when eight bytes are there.
fn read_u64(bytes: &Vec<u8>, pos: usize) -> (r: Option<(u64, usize)>)
    ensures
        r is Some == dec_u64(bytes@, pos as int) is Some,
        r matches Some(p) ==> dec_u64(bytes@, pos as int) matches Some(sp) && p.0 as int
            == sp.0 && p.1 as int == sp.1,
{
    if pos < bytes.len() && bytes.len() - pos >= 8 {
        let b0 = bytes[pos] as u64;
        let b1 = bytes[pos + 1] as u64;
        let b2 = bytes[pos + 2] as u64;
        let b3 = bytes[pos + 3] as u64;
        let b4 = bytes[pos + 4] as u64;
        let b5 = bytes[pos + 5] as u64;
        let b6 = bytes[pos + 6] as u64;
        let b7 = bytes[pos + 7] as u64;
        let v = b0 + 256 * (b1 + 256 * (b2 + 256 * (b3 + 256 * (b4 + 256 * (b5 + 256 * (b6
            + 256 * b7))))));
        Some((v, pos + 8))
    } else {
        None
    }
}

/// A length-prefixed byte string.
pub open spec fn enc_bytes(b: Seq<u8>) -> Seq<u8> {
    enc_u64(b.len() as int) + b
}

/// Reading a length-prefixed byte string at `pos`.
pub open spec fn dec_bytes(s: Seq<u8>, pos: int) -> Option<(Seq<u8>, int)> {
    match dec_u64(s, pos) {
        None => None,
        Some((n, p)) => if p + n <= s.len() {
            Some((s.subrange(p, p + n), p + n))
        } else {
            None
        },
    }
}

/// A byte string decodes back from its encoding, wherever it sits.
proof fn lemma_bytes_round(s: Seq<u8>, pos: int, b: Seq<u8>)
    requires
        0 <= pos,
        b.len() < 0x10000000000000000,
        pos + enc_bytes(b).len() <= s.len(),
        forall|k: int| 0 <= k < enc_bytes(b).len() ==> s[pos + k] == enc_bytes(b)[k],
    ensures
        dec_bytes(s, pos) == Some((b, pos + enc_bytes(b).len())),
{
    assert forall|k: int| 0 <= k < 8 implies s[pos + k] == enc_u64(b.len() as int)[k] by {
        assert(s[pos + k] == enc_bytes(b)[k]);
    }
    lemma_le_round(b.len() as int, s, pos);
    assert(s.subrange(pos + 8, pos + 8 + b.len()) =~= b) by {
        assert forall|k: int| 0 <= k < b.len() implies s.subrange(
            pos + 8,
            pos + 8 + b.len(),
        )[k] == b[k] by {
            assert(s[pos + (8 + k)] == enc_bytes(b)[8 + k]);
        }
    }
}

/// Appends a length-prefixed byte string.
fn push_bytes(out: &mut Vec<u8>, b: &Vec<u8>)
    ensures
        final(out)@ == old(out)@ + enc_bytes(b@),
{
    push_u64(out, b.len() as u64);
    let ghost mid = out@;
    let mut i: usize = 0;
    while i < b.len()
        invariant
            0 <= i <= b@.len(),
            out@ == mid + b@.take(i as int),
        decreases b@.len() - i,
    {
        out.push(b[i]);
        proof {
            assert(out@ =~= mid + b@.take(i as int + 1));
        }
        i += 1;
    }
    proof {
        assert(out@ =~= old(out)@ + enc_bytes(b@));
    }
}

/// Reads a length-prefixed byte string at `pos`.
fn read_bytes(bytes: &Vec<u8>, pos: usize) -> (r: Option<(Vec<u8>, usize)>)
    ensures
        r is Some == dec_bytes(bytes@, pos as int) is Some,
        r matches Some(p) ==> dec_bytes(bytes@, pos as int) matches Some(sp) && p.0@ == sp.0
            && p.1 as int == sp.1,
{
    match read_u64(bytes, pos) {
        None => None,
        Some((n, p)) => {
            if n <= (bytes.len() - p) as u64 {
                let n = n as usize;
                let mut b: Vec<u8> = Vec::new();
                proof {
                    assert(bytes@.len() == bytes.len());
                }
                let mut i: usize = 0;
                while i < n
                    invariant
                        0 <= i <= n,
                        p + n <= bytes@.len(),
                        bytes@.len() <= usize::MAX,
                        b@ == bytes@.subrange(p as int, p as int + i as int),
                    decreases n - i,
                {
                    b.push(bytes[p + i]);
                    proof {
                        assert(b@ =~= bytes@.subrange(p as int, p as int + i as int + 1));
                    }
                    i += 1;
                }
                Some((b, p + n))
            } else {
                None
            }
        },
    }
}

/// A length-prefixed string, as its UTF-8 bytes.
pub open spec fn enc_string(s: Seq<char>) -> Seq<u8> {
    enc_bytes(encode_utf8(s))
}

/// Reading a string at `pos`: its bytes must be valid UTF-8.
pub open spec fn dec_string(s: Seq<u8>, pos: int) -> Option<(Seq<char>, int)> {
    match dec_bytes(s, pos) {
        None => None,
        Some((b, p)) => if valid_utf8(b) {
            Some((decode_utf8(b), p))
        } else {
            None
        },
    }
}

/// A string decodes back from its encoding.
proof fn lemma_string_round(s: Seq<u8>, pos: int, cs: Seq<char>)
    requires
        0 <= pos,
        encode_utf8(cs).len() < 0x10000000000000000,
        pos + enc_string(cs).len() <= s.len(),
        forall|k: int| 0 <= k < enc_string(cs).len() ==> s[pos + k] == enc_string(cs)[k],
    ensures
        dec_string(s, pos) == Some((cs, pos + enc_string(cs).len())),
{
    lemma_bytes_round(s, pos, encode_utf8(cs));
    vstd::utf8::encode_utf8_valid_utf8(cs);
    vstd::utf8::encode_utf8_decode_utf8(cs);
}

/// Relies on `String::from_utf8`: bytes that are valid UTF-8 become the
/// string they encode, any other bytes are refused. The vstd `utf8`
/// specifications say what valid UTF-8 and its decoding are.
#[verifier::external_body]
fn string_from_utf8(bytes: Vec<u8>) -> (r: Option<String>)
    ensures
        r is Some == valid_utf8(bytes@),
        r matches Some(s) ==> s@ == decode_utf8(bytes@),
{
    match String::from_utf8(bytes) {
        Ok(s) => Some(s),
        Err(_) => None,
    }
}

/// Appends a length-prefixed string.
fn push_string(out: &mut Vec<u8>, s: &String)
    ensures
        final(out)@ == old(out)@ + enc_string(s@),
{
    let b = s.as_str().as_bytes_vec();
    push_bytes(out, &b);
}

/// Reads a length-prefixed string at `pos`.
fn read_string(bytes: &Vec<u8>, pos: usize) -> (r: Option<(String, usize)>)
    ensures
        r is Some == dec_string(bytes@, pos as int) is Some,
        r matches Some(p) ==> dec_string(bytes@, pos as int) matches Some(sp) && p.0@ == sp.0
            && p.1 as int == sp.1,
{
    match read_bytes(bytes, pos) {
        None => None,
        Some((b, p)) => {
            match string_from_utf8(b) {
                None => None,
                Some(s) => Some((s, p)),
            }
        },
    }
}

/// Reading one byte at `pos`.
pub open spec fn dec_u8(s: Seq<u8>, pos: int) -> Option<(u8, int)> {
    if 0 <= pos && pos + 1 <= s.len() {
        Some((s[pos], pos + 1))
    } else {
        None
    }
}

/// Reads one byte at `pos`.
fn read_u8(bytes: &Vec<u8>, pos: usize) -> (r: Option<(u8, usize)>)
    ensures
        r is Some == dec_u8(bytes@, pos as int) is Some,
        r matches Some(p) ==> dec_u8(bytes@, pos as int) matches Some(sp) && p.0 == sp.0
            && p.1 as int == sp.1,
{
    if pos < bytes.len() {
        Some((bytes[pos], pos + 1))
    } else {
        None
    }
}

/// The tag byte of each address family.
pub open spec fn family_code(f: SocketFamily) -> u8 {
    match f {
        SocketFamily::Unix => 0,
        SocketFamily::Inet => 1,
        SocketFamily::Inet6 => 2,
        SocketFamily::Netlink => 3,
        SocketFamily::Packet => 4,
    }
}

/// The family a tag byte stands for.
pub open spec fn family_of_code(b: u8) -> Option<SocketFamily> {
    if b == 0 {
        Some(SocketFamily::Unix)
    } else if b == 1 {
        Some(SocketFamily::Inet)
    } else if b == 2 {
        Some(SocketFamily::Inet6)
    } else if b == 3 {
        Some(SocketFamily::Netlink)
    } else if b == 4 {
        Some(SocketFamily::Packet)
    } else {
        None
    }
}

/// The tag byte of each protocol.
pub open spec fn proto_code(p: SocketProtocol) -> u8 {
    match p {
        SocketProtocol::Tcp => 0,
        SocketProtocol::Udp => 1,
    }
}

/// The protocol a tag byte stands for.
pub open spec fn proto_of_code(b: u8) -> Option<SocketProtocol> {
    if b == 0 {
        Some(SocketProtocol::Tcp)
    } else if b == 1 {
        Some(SocketProtocol::Udp)
    } else {
        None
    }
}

/// The tag byte of each activity kind.
pub open spec fn kind_code(k: crate::summarize::NetworkActivityKind) -> u8 {
    match k {
        crate::summarize::NetworkActivityKind::SocketCreation => 0,
        crate::summarize::NetworkActivityKind::Bind => 1,
    }
}

/// The activity kind a tag byte stands for.
pub open spec fn kind_of_code(b: u8) -> Option<crate::summarize::NetworkActivityKind> {
    if b == 0 {
        Some(crate::summarize::NetworkActivityKind::SocketCreation)
    } else if b == 1 {
        Some(crate::summarize::NetworkActivityKind::Bind)
    } else {
        None
    }
}

/// A set specifier over one-byte elements: a variant tag, then for `SomeOf` a
/// count and the element bytes.
pub open spec fn enc_u8_set(m: SetSpecModel<u8>) -> Seq<u8> {
    match m {
        SetSpecModel::NoneOf => seq![0u8],
        SetSpecModel::One(b) => seq![1u8, b],
        SetSpecModel::SomeOf(es) => seq![2u8] + enc_u64(es.len() as int) + es,
        SetSpecModel::All => seq![3u8],
    }
}

/// Reading a one-byte-element set specifier at `pos`.
pub open spec fn dec_u8_set(s: Seq<u8>, pos: int) -> Option<(SetSpecModel<u8>, int)> {
    match dec_u8(s, pos) {
        None => None,
        Some((tag, p)) => if tag == 0 {
            Some((SetSpecModel::NoneOf, p))
        } else if tag == 1 {
            match dec_u8(s, p) {
                None => None,
                Some((b, p2)) => Some((SetSpecModel::One(b), p2)),
            }
        } else if tag == 2 {
            match dec_u64(s, p) {
                None => None,
                Some((n, p2)) => if p2 + n <= s.len() {
                    Some((SetSpecModel::SomeOf(s.subrange(p2, p2 + n)), p2 + n))
                } else {
                    None
                },
            }
        } else if tag == 3 {
            Some((SetSpecModel::All, p))
        } else {
            None
        },
    }
}

/// A one-byte-element set decodes back from its encoding.
proof fn lemma_u8_set_round(s: Seq<u8>, pos: int, m: SetSpecModel<u8>)
    requires
        0 <= pos,
        m matches SetSpecModel::SomeOf(es) ==> es.len() < 0x10000000000000000,
        pos + enc_u8_set(m).len() <= s.len(),
        forall|k: int| 0 <= k < enc_u8_set(m).len() ==> s[pos + k] == enc_u8_set(m)[k],
    ensures
        dec_u8_set(s, pos) == Some((m, pos + enc_u8_set(m).len())),
{
    assert(s[pos + 0] == enc_u8_set(m)[0]);
    match m {
        SetSpecModel::NoneOf => {},
        SetSpecModel::One(b) => {
            assert(s[pos + 1] == enc_u8_set(m)[1]);
        },
        SetSpecModel::SomeOf(es) => {
            assert forall|k: int| 0 <= k < 8 implies s[pos + 1 + k] == enc_u64(
                es.len() as int,
            )[k] by {
                assert(s[pos + (1 + k)] == enc_u8_set(m)[1 + k]);
            }
            lemma_le_round(es.len() as int, s, pos + 1);
            assert(s.subrange(pos + 9, pos + 9 + es.len()) =~= es) by {
                assert forall|k: int| 0 <= k < es.len() implies s.subrange(
                    pos + 9,
                    pos + 9 + es.len(),
                )[k] == es[k] by {
                    assert(s[pos + (9 + k)] == enc_u8_set(m)[9 + k]);
                    assert(enc_u8_set(m)[9 + k] == es[k]);
                }
            }
        },
        SetSpecModel::All => {},
    }
}

/// The codes of a family set.
pub open spec fn family_set_codes(m: SetSpecModel<SocketFamily>) -> SetSpecModel<u8> {
    match m {
        SetSpecModel::NoneOf => SetSpecModel::NoneOf,
        SetSpecModel::One(f) => SetSpecModel::One(family_code(f)),
        SetSpecModel::SomeOf(es) => SetSpecModel::SomeOf(
            es.map_values(|f: SocketFamily| family_code(f)),
        ),
        SetSpecModel::All => SetSpecModel::All,
    }
}

/// The family set a code set stands for: every code must name a family.
pub open spec fn family_set_of_codes(m: SetSpecModel<u8>) -> Option<
    SetSpecModel<SocketFamily>,
> {
    match m {
        SetSpecModel::NoneOf => Some(SetSpecModel::NoneOf),
        SetSpecModel::One(b) => match family_of_code(b) {
            Some(f) => Some(SetSpecModel::One(f)),
            None => None,
        },
        SetSpecModel::SomeOf(es) => if forall|i: int|
            0 <= i < es.len() ==> family_of_code(#[trigger] es[i]) is Some {
            Some(
                SetSpecModel::SomeOf(
                    es.map_values(|b: u8| family_of_code(b).unwrap()),
                ),
            )
        } else {
            None
        },
        SetSpecModel::All => Some(SetSpecModel::All),
    }
}

/// Family sets survive the trip through their codes.
proof fn lemma_family_codes_round(m: SetSpecModel<SocketFamily>)
    ensures
        family_set_of_codes(family_set_codes(m)) == Some(m),
{
    match m {
        SetSpecModel::SomeOf(es) => {
            let codes = es.map_values(|f: SocketFamily| family_code(f));
            assert(forall|i: int|
                0 <= i < codes.len() ==> family_of_code(#[trigger] codes[i]) is Some);
            assert(codes.map_values(|b: u8| family_of_code(b).unwrap()) =~= es);
        },
        _ => {},
    }
}

/// The codes of a protocol set.
pub open spec fn proto_set_codes(m: SetSpecModel<SocketProtocol>) -> SetSpecModel<u8> {
    match m {
        SetSpecModel::NoneOf => SetSpecModel::NoneOf,
        SetSpecModel::One(p) => SetSpecModel::One(proto_code(p)),
        SetSpecModel::SomeOf(es) => SetSpecModel::SomeOf(
            es.map_values(|p: SocketProtocol| proto_code(p)),
        ),
        SetSpecModel::All => SetSpecModel::All,
    }
}

/// The protocol set a code set stands for.
pub open spec fn proto_set_of_codes(m: SetSpecModel<u8>) -> Option<
    SetSpecModel<SocketProtocol>,
> {
    match m {
        SetSpecModel::NoneOf => Some(SetSpecModel::NoneOf),
        SetSpecModel::One(b) => match proto_of_code(b) {
            Some(p) => Some(SetSpecModel::One(p)),
            None => None,
        },
        SetSpecModel::SomeOf(es) => if forall|i: int|
            0 <= i < es.len() ==> proto_of_code(#[trigger] es[i]) is Some {
            Some(SetSpecModel::SomeOf(es.map_values(|b: u8| proto_of_code(b).unwrap())))
        } else {
            None
        },
        SetSpecModel::All => Some(SetSpecModel::All),
    }
}

/// Protocol sets survive the trip through their codes.
proof fn lemma_proto_codes_round(m: SetSpecModel<SocketProtocol>)
    ensures
        proto_set_of_codes(proto_set_codes(m)) == Some(m),
{
    match m {
        SetSpecModel::SomeOf(es) => {
            let codes = es.map_values(|p: SocketProtocol| proto_code(p));
            assert(forall|i: int|
                0 <= i < codes.len() ==> proto_of_code(#[trigger] codes[i]) is Some);
            assert(codes.map_values(|b: u8| proto_of_code(b).unwrap()) =~= es);
        },
        _ => {},
    }
}

/// The codes of an activity kind set.
pub open spec fn kind_set_codes(
    m: SetSpecModel<crate::summarize::NetworkActivityKind>,
) -> SetSpecModel<u8> {
    match m {
        SetSpecModel::NoneOf => SetSpecModel::NoneOf,
        SetSpecModel::One(k) => SetSpecModel::One(kind_code(k)),
        SetSpecModel::SomeOf(es) => SetSpecModel::SomeOf(
            es.map_values(|k: crate::summarize::NetworkActivityKind| kind_code(k)),
        ),
        SetSpecModel::All => SetSpecModel::All,
    }
}

/// The activity kind set a code set stands for.
pub open spec fn kind_set_of_codes(m: SetSpecModel<u8>) -> Option<
    SetSpecModel<crate::summarize::NetworkActivityKind>,
> {
    match m {
        SetSpecModel::NoneOf => Some(SetSpecModel::NoneOf),
        SetSpecModel::One(b) => match kind_of_code(b) {
            Some(k) => Some(SetSpecModel::One(k)),
            None => None,
        },
        SetSpecModel::SomeOf(es) => if forall|i: int|
            0 <= i < es.len() ==> kind_of_code(#[trigger] es[i]) is Some {
            Some(SetSpecModel::SomeOf(es.map_values(|b: u8| kind_of_code(b).unwrap())))
        } else {
            None
        },
        SetSpecModel::All => Some(SetSpecModel::All),
    }
}

/// Activity kind sets survive the trip through their codes.
proof fn lemma_kind_codes_round(m: SetSpecModel<crate::summarize::NetworkActivityKind>)
    ensures
        kind_set_of_codes(kind_set_codes(m)) == Some(m),
{
    match m {
        SetSpecModel::SomeOf(es) => {
            let codes = es.map_values(
                |k: crate::summarize::NetworkActivityKind| kind_code(k),
            );
            assert(forall|i: int|
                0 <= i < codes.len() ==> kind_of_code(#[trigger] codes[i]) is Some);
            assert(codes.map_values(|b: u8| kind_of_code(b).unwrap()) =~= es);
        },
        _ => {},
    }
}

/// Two little-endian bytes per port.
pub open spec fn port_bytes(es: Seq<NetworkPort>) -> Seq<u8>
    decreases es.len(),
{
    if es.len() == 0 {
        Seq::empty()
    } else {
        seq![(es[0].0 % 256) as u8, (es[0].0 / 256) as u8] + port_bytes(es.drop_first())
    }
}

/// The ports a byte string of pairs holds.
pub open spec fn ports_of_bytes(b: Seq<u8>) -> Seq<NetworkPort>
    decreases b.len(),
{
    if b.len() < 2 {
        Seq::empty()
    } else {
        seq![NetworkPort((b[0] + 256 * (b[1] as u16)) as u16)] + ports_of_bytes(b.skip(2))
    }
}

/// Port lists have two bytes per port.
proof fn lemma_port_bytes_len(es: Seq<NetworkPort>)
    ensures
        port_bytes(es).len() == 2 * es.len(),
    decreases es.len(),
{
    if es.len() > 0 {
        lemma_port_bytes_len(es.drop_first());
    }
}

/// Appending one port appends its two bytes.
proof fn lemma_port_bytes_push(es: Seq<NetworkPort>, p: NetworkPort)
    ensures
        port_bytes(es.push(p)) == port_bytes(es) + seq![(p.0 % 256) as u8, (p.0 / 256) as u8],
    decreases es.len(),
{
    if es.len() == 0 {
        assert(es.push(p).drop_first() =~= Seq::<NetworkPort>::empty());
        assert(es.push(p)[0] == p);
        assert(port_bytes(Seq::<NetworkPort>::empty()) =~= Seq::<u8>::empty());
        assert(port_bytes(es.push(p)) =~= port_bytes(es) + seq![
            (p.0 % 256) as u8,
            (p.0 / 256) as u8,
        ]);
    } else {
        assert(es.push(p).drop_first() =~= es.drop_first().push(p));
        lemma_port_bytes_push(es.drop_first(), p);
        assert(es.push(p)[0] == es[0]);
        assert(port_bytes(es.push(p)) == seq![(es[0].0 % 256) as u8, (es[0].0 / 256) as u8]
            + (port_bytes(es.drop_first()) + seq![(p.0 % 256) as u8, (p.0 / 256) as u8]));
        assert(port_bytes(es.push(p)) =~= port_bytes(es) + seq![
            (p.0 % 256) as u8,
            (p.0 / 256) as u8,
        ]);
    }
}

/// A port list decodes back from its bytes.
proof fn lemma_ports_round(es: Seq<NetworkPort>)
    ensures
        ports_of_bytes(port_bytes(es)) == es,
    decreases es.len(),
{
    if es.len() > 0 {
        lemma_ports_round(es.drop_first());
        lemma_port_bytes_len(es.drop_first());
        let b = port_bytes(es);
        assert(b.skip(2) =~= port_bytes(es.drop_first()));
        assert(b[0] == (es[0].0 % 256) as u8);
        assert(b[1] == (es[0].0 / 256) as u8);
        assert((b[0] + 256 * (b[1] as u16)) as u16 == es[0].0) by {
            vstd::arithmetic::div_mod::lemma_fundamental_div_mod(es[0].0 as int, 256);
        }
        assert(ports_of_bytes(port_bytes(es)) =~= es);
    } else {
        assert(ports_of_bytes(port_bytes(es)) =~= es);
    }
}

/// A port set specifier: a variant tag, then for the list-carrying variants a
/// count and the port bytes.
pub open spec fn enc_css(m: CountableSetModel) -> Seq<u8> {
    match m {
        CountableSetModel::NoneOf => seq![0u8],
        CountableSetModel::One(p) => seq![1u8, (p.0 % 256) as u8, (p.0 / 256) as u8],
        CountableSetModel::SomeOf(es) => seq![2u8] + enc_u64(es.len() as int) + port_bytes(es),
        CountableSetModel::AllExcept(es) => seq![3u8] + enc_u64(es.len() as int) + port_bytes(
            es,
        ),
        CountableSetModel::All => seq![4u8],
    }
}

/// Reading a port set specifier at `pos`.
pub open spec fn dec_css(s: Seq<u8>, pos: int) -> Option<(CountableSetModel, int)> {
    match dec_u8(s, pos) {
        None => None,
        Some((tag, p)) => if tag == 0 {
            Some((CountableSetModel::NoneOf, p))
        } else if tag == 1 {
            if p + 2 <= s.len() && (s[p] + 256 * (s[p + 1] as u16)) as u16 >= 1 {
                Some(
                    (
                        CountableSetModel::One(
                            NetworkPort((s[p] + 256 * (s[p + 1] as u16)) as u16),
                        ),
                        p + 2,
                    ),
                )
            } else {
                None
            }
        } else if tag == 2 || tag == 3 {
            match dec_u64(s, p) {
                None => None,
                Some((n, p2)) => if p2 + 2 * n <= s.len() {
                    let es = ports_of_bytes(s.subrange(p2, p2 + 2 * n));
                    if ports_wf(es) && strictly_ascending(es) && (tag == 2 || es.len()
                        >= 1) {
                        if tag == 2 {
                            Some((CountableSetModel::SomeOf(es), p2 + 2 * n))
                        } else {
                            Some((CountableSetModel::AllExcept(es), p2 + 2 * n))
                        }
                    } else {
                        None
                    }
                } else {
                    None
                },
            }
        } else if tag == 4 {
            Some((CountableSetModel::All, p))
        } else {
            None
        },
    }
}

/// A decoded port set is well-formed: the reader refuses zero ports,
/// unsorted or duplicated lists, and empty exclusion lists.
proof fn lemma_dec_css_wf(s: Seq<u8>, pos: int)
    ensures
        dec_css(s, pos) matches Some(p) ==> p.0.wf(),
{
}

/// Whether a port set's list fits its length field.
pub open spec fn css_encodable(m: CountableSetModel) -> bool {
    match m {
        CountableSetModel::SomeOf(es) => es.len() < 0x10000000000000000,
        CountableSetModel::AllExcept(es) => es.len() < 0x10000000000000000,
        _ => true,
    }
}

/// A port set decodes back from its encoding.
#[verifier::rlimit(50)]
proof fn lemma_css_round(s: Seq<u8>, pos: int, m: CountableSetModel)
    requires
        0 <= pos,
        m.wf(),
        css_encodable(m),
        pos + enc_css(m).len() <= s.len(),
        forall|k: int| 0 <= k < enc_css(m).len() ==> s[pos + k] == enc_css(m)[k],
    ensures
        dec_css(s, pos) == Some((m, pos + enc_css(m).len())),
{
    assert(s[pos + 0] == enc_css(m)[0]);
    match m {
        CountableSetModel::NoneOf => {},
        CountableSetModel::One(p) => {
            assert(s[pos + 1] == enc_css(m)[1]);
            assert(s[pos + 2] == enc_css(m)[2]);
            assert((s[pos + 1] + 256 * (s[pos + 2] as u16)) as u16 == p.0) by {
                vstd::arithmetic::div_mod::lemma_fundamental_div_mod(p.0 as int, 256);
            }
        },
        CountableSetModel::SomeOf(es) => {
            assert(enc_css(m)[0] == 2u8);
            proof_css_list_bridge(s, pos, es, enc_css(m));
            lemma_css_list_round(s, pos, es);
            assert(enc_css(m).len() == 9 + 2 * es.len());
        },
        CountableSetModel::AllExcept(es) => {
            assert(enc_css(m)[0] == 3u8);
            proof_css_list_bridge(s, pos, es, enc_css(m));
            lemma_css_list_round(s, pos, es);
            assert(enc_css(m).len() == 9 + 2 * es.len());
        },
        CountableSetModel::All => {},
    }
}

/// Bridges the whole-encoding byte facts to the tag-stripped list facts.
proof fn proof_css_list_bridge(s: Seq<u8>, pos: int, es: Seq<NetworkPort>, enc: Seq<u8>)
    requires
        enc == seq![enc[0]] + enc_u64(es.len() as int) + port_bytes(es),
        pos + enc.len() <= s.len(),
        forall|k: int| 0 <= k < enc.len() ==> s[pos + k] == enc[k],
    ensures
        forall|k: int| 0 <= k < 8 ==> s[pos + 1 + k] == enc_u64(es.len() as int)[k],
        forall|k: int|
            0 <= k < port_bytes(es).len() ==> s[pos + 9 + k] == port_bytes(es)[k],
{
    assert forall|k: int| 0 <= k < 8 implies s[pos + 1 + k] == enc_u64(es.len() as int)[k] by {
        assert(s[pos + (1 + k)] == enc[1 + k]);
    }
    assert forall|k: int|
        0 <= k < port_bytes(es).len() implies s[pos + 9 + k] == port_bytes(es)[k] by {
        assert(s[pos + (9 + k)] == enc[9 + k]);
    }
}

/// The list part shared by `SomeOf` and `AllExcept`.
proof fn lemma_css_list_round(s: Seq<u8>, pos: int, es: Seq<NetworkPort>)
    requires
        0 <= pos,
        es.len() < 0x10000000000000000,
        pos + 9 + port_bytes(es).len() <= s.len(),
        forall|k: int|
            0 <= k < 8 ==> s[pos + 1 + k] == enc_u64(es.len() as int)[k],
        forall|k: int|
            0 <= k < port_bytes(es).len() ==> s[pos + 9 + k] == port_bytes(es)[k],
    ensures
        dec_u64(s, pos + 1) == Some((es.len() as int, pos + 9)),
        port_bytes(es).len() == 2 * es.len(),
        s.subrange(pos + 9, pos + 9 + 2 * es.len()) == port_bytes(es),
        ports_of_bytes(s.subrange(pos + 9, pos + 9 + 2 * es.len())) == es,
{
    lemma_le_round(es.len() as int, s, pos + 1);
    lemma_port_bytes_len(es);
    assert(s.subrange(pos + 9, pos + 9 + 2 * es.len()) =~= port_bytes(es));
    lemma_ports_round(es);
}

/// Splits byte facts about a concatenation into facts about its two halves.
proof fn lemma_region(s: Seq<u8>, pos: int, a: Seq<u8>, b: Seq<u8>)
    requires
        forall|k: int| 0 <= k < (a + b).len() ==> s[pos + k] == (a + b)[k],
    ensures
        forall|k: int| 0 <= k < a.len() ==> s[pos + k] == a[k],
        forall|k: int| 0 <= k < b.len() ==> s[pos + a.len() + k] == b[k],
{
    assert forall|k: int| 0 <= k < a.len() implies s[pos + k] == a[k] by {
        assert(s[pos + k] == (a + b)[k]);
    }
    assert forall|k: int| 0 <= k < b.len() implies s[pos + a.len() + k] == b[k] by {
        assert(s[pos + (a.len() + k)] == (a + b)[a.len() + k]);
    }
}

/// The tag byte of each family, executable.
fn family_code_exec(f: &SocketFamily) -> (r: u8)
    ensures
        r == family_code(*f),
{
    match f {
        SocketFamily::Unix => 0,
        SocketFamily::Inet => 1,
        SocketFamily::Inet6 => 2,
        SocketFamily::Netlink => 3,
        SocketFamily::Packet => 4,
    }
}

/// The family of a tag byte, executable.
fn family_of_code_exec(b: u8) -> (r: Option<SocketFamily>)
    ensures
        r == family_of_code(b),
{
    if b == 0 {
        Some(SocketFamily::Unix)
    } else if b == 1 {
        Some(SocketFamily::Inet)
    } else if b == 2 {
        Some(SocketFamily::Inet6)
    } else if b == 3 {
        Some(SocketFamily::Netlink)
    } else if b == 4 {
        Some(SocketFamily::Packet)
    } else {
        None
    }
}

fn proto_code_exec(p: &SocketProtocol) -> (r: u8)
    ensures
        r == proto_code(*p),
{
    match p {
        SocketProtocol::Tcp => 0,
        SocketProtocol::Udp => 1,
    }
}

fn proto_of_code_exec(b: u8) -> (r: Option<SocketProtocol>)
    ensures
        r == proto_of_code(b),
{
    if b == 0 {
        Some(SocketProtocol::Tcp)
    } else if b == 1 {
        Some(SocketProtocol::Udp)
    } else {
        None
    }
}

fn kind_code_exec(k: &crate::summarize::NetworkActivityKind) -> (r: u8)
    ensures
        r == kind_code(*k),
{
    match k {
        crate::summarize::NetworkActivityKind::SocketCreation => 0,
        crate::summarize::NetworkActivityKind::Bind => 1,
    }
}

fn kind_of_code_exec(b: u8) -> (r: Option<crate::summarize::NetworkActivityKind>)
    ensures
        r == kind_of_code(b),
{
    if b == 0 {
        Some(crate::summarize::NetworkActivityKind::SocketCreation)
    } else if b == 1 {
        Some(crate::summarize::NetworkActivityKind::Bind)
    } else {
        None
    }
}

/// Appends an encoded family set.
fn push_family_set(out: &mut Vec<u8>, s: &SetSpecifier<SocketFamily>)
    ensures
        final(out)@ == old(out)@ + enc_u8_set(family_set_codes(s.model())),
{
    let ghost pre = out@;
    match s {
        SetSpecifier::NoneOf => {
            out.push(0);
            proof {
                assert(out@ =~= pre + enc_u8_set(family_set_codes(s.model())));
            }
        },
        SetSpecifier::One(f) => {
            out.push(1);
            out.push(family_code_exec(f));
            proof {
                assert(out@ =~= pre + enc_u8_set(family_set_codes(s.model())));
            }
        },
        SetSpecifier::SomeOf(es) => {
            let ghost codes = es@.map_values(|f: SocketFamily| family_code(f));
            out.push(2);
            push_u64(out, es.len() as u64);
            let ghost mid = out@;
            let mut i: usize = 0;
            while i < es.len()
                invariant
                    0 <= i <= es@.len(),
                    codes == es@.map_values(|f: SocketFamily| family_code(f)),
                    out@ == mid + codes.take(i as int),
                decreases es@.len() - i,
            {
                out.push(family_code_exec(&es[i]));
                proof {
                    assert(out@ =~= mid + codes.take(i as int + 1));
                }
                i += 1;
            }
            proof {
                assert(codes.take(es@.len() as int) =~= codes);
                assert(out@ =~= pre + enc_u8_set(family_set_codes(s.model())));
            }
        },
        SetSpecifier::All => {
            out.push(3);
            proof {
                assert(out@ =~= pre + enc_u8_set(family_set_codes(s.model())));
            }
        },
    }
}

/// Reading a family set at `pos`.
pub open spec fn dec_family_set(s: Seq<u8>, pos: int) -> Option<
    (SetSpecModel<SocketFamily>, int),
> {
    match dec_u8_set(s, pos) {
        None => None,
        Some((cm, p)) => match family_set_of_codes(cm) {
            None => None,
            Some(m) => Some((m, p)),
        },
    }
}

/// Reads a family set at `pos`.
#[verifier::loop_isolation(false)]
fn read_family_set(bytes: &Vec<u8>, pos: usize) -> (r: Option<
    (SetSpecifier<SocketFamily>, usize),
>)
    ensures
        r is Some == dec_family_set(bytes@, pos as int) is Some,
        r matches Some(p) ==> dec_family_set(bytes@, pos as int) matches Some(sp)
            && p.0.model() == sp.0 && p.1 as int == sp.1,
{
    match read_u8(bytes, pos) {
        None => None,
        Some((tag, p)) => {
            if tag == 0 {
                Some((SetSpecifier::NoneOf, p))
            } else if tag == 1 {
                match read_u8(bytes, p) {
                    None => None,
                    Some((b, p2)) => match family_of_code_exec(b) {
                        None => None,
                        Some(f) => Some((SetSpecifier::One(f), p2)),
                    },
                }
            } else if tag == 2 {
                match read_u64(bytes, p) {
                    None => None,
                    Some((n, p2)) => {
                        if n <= (bytes.len() - p2) as u64 {
                            let n = n as usize;
                            let ghost codes = bytes@.subrange(p2 as int, p2 as int + n as int);
                            let mut es: Vec<SocketFamily> = Vec::new();
                            let mut i: usize = 0;
                            proof {
                                assert(bytes@.len() == bytes.len());
                            }
                            while i < n
                                invariant
                                    0 <= i <= n,
                                    p2 + n <= bytes@.len(),
                                    bytes@.len() <= usize::MAX,
                                    codes == bytes@.subrange(p2 as int, p2 as int + n as int),
                                    es@.len() == i,
                                    forall|j: int|
                                        0 <= j < i ==> family_of_code(#[trigger] codes[j])
                                            == Some(es@[j]),
                                decreases n - i,
                            {
                                proof {
                                    assert(codes[i as int] == bytes@[p2 + i]);
                                }
                                match family_of_code_exec(bytes[p2 + i]) {
                                    None => {
                                        proof {
                                            assert(family_of_code(codes[i as int]) is None);
                                            assert(codes.len() == n);
                                            assert(!(forall|j: int|
                                                0 <= j < codes.len() ==> family_of_code(
                                                    #[trigger] codes[j],
                                                ) is Some)) by {
                                                assert((i as int) < codes.len()
                                                    && !(family_of_code(codes[i as int]) is Some));
                                            }
                                        }
                                        return None;
                                    },
                                    Some(f) => {
                                        es.push(f);
                                    },
                                }
                                i += 1;
                            }
                            proof {
                                assert forall|j: int|
                                    0 <= j < codes.len() implies family_of_code(
                                    #[trigger] codes[j],
                                ) is Some by {}
                                assert(es@ =~= codes.map_values(
                                    |b: u8| family_of_code(b).unwrap(),
                                ));
                            }
                            Some((SetSpecifier::SomeOf(es), p2 + n))
                        } else {
                            None
                        }
                    },
                }
            } else if tag == 3 {
                Some((SetSpecifier::All, p))
            } else {
                None
            }
        },
    }
}

/// Appends an encoded protocol set.
fn push_proto_set(out: &mut Vec<u8>, s: &SetSpecifier<SocketProtocol>)
    ensures
        final(out)@ == old(out)@ + enc_u8_set(proto_set_codes(s.model())),
{
    let ghost pre = out@;
    match s {
        SetSpecifier::NoneOf => {
            out.push(0);
            proof {
                assert(out@ =~= pre + enc_u8_set(proto_set_codes(s.model())));
            }
        },
        SetSpecifier::One(v) => {
            out.push(1);
            out.push(proto_code_exec(v));
            proof {
                assert(out@ =~= pre + enc_u8_set(proto_set_codes(s.model())));
            }
        },
        SetSpecifier::SomeOf(es) => {
            let ghost codes = es@.map_values(|v: SocketProtocol| proto_code(v));
            out.push(2);
            push_u64(out, es.len() as u64);
            let ghost mid = out@;
            let mut i: usize = 0;
            while i < es.len()
                invariant
                    0 <= i <= es@.len(),
                    codes == es@.map_values(|v: SocketProtocol| proto_code(v)),
                    out@ == mid + codes.take(i as int),
                decreases es@.len() - i,
            {
                out.push(proto_code_exec(&es[i]));
                proof {
                    assert(out@ =~= mid + codes.take(i as int + 1));
                }
                i += 1;
            }
            proof {
                assert(codes.take(es@.len() as int) =~= codes);
                assert(out@ =~= pre + enc_u8_set(proto_set_codes(s.model())));
            }
        },
        SetSpecifier::All => {
            out.push(3);
            proof {
                assert(out@ =~= pre + enc_u8_set(proto_set_codes(s.model())));
            }
        },
    }
}

/// Reading a protocol set at `pos`.
pub open spec fn dec_proto_set(s: Seq<u8>, pos: int) -> Option<
    (SetSpecModel<SocketProtocol>, int),
> {
    match dec_u8_set(s, pos) {
        None => None,
        Some((cm, p)) => match proto_set_of_codes(cm) {
            None => None,
            Some(m) => Some((m, p)),
        },
    }
}

/// Reads a protocol set at `pos`.
#[verifier::loop_isolation(false)]
fn read_proto_set(bytes: &Vec<u8>, pos: usize) -> (r: Option<
    (SetSpecifier<SocketProtocol>, usize),
>)
    ensures
        r is Some == dec_proto_set(bytes@, pos as int) is Some,
        r matches Some(p) ==> dec_proto_set(bytes@, pos as int) matches Some(sp)
            && p.0.model() == sp.0 && p.1 as int == sp.1,
{
    match read_u8(bytes, pos) {
        None => None,
        Some((tag, p)) => {
            if tag == 0 {
                Some((SetSpecifier::NoneOf, p))
            } else if tag == 1 {
                match read_u8(bytes, p) {
                    None => None,
                    Some((b, p2)) => match proto_of_code_exec(b) {
                        None => None,
                        Some(v) => Some((SetSpecifier::One(v), p2)),
                    },
                }
            } else if tag == 2 {
                match read_u64(bytes, p) {
                    None => None,
                    Some((n, p2)) => {
                        if n <= (bytes.len() - p2) as u64 {
                            let n = n as usize;
                            let ghost codes = bytes@.subrange(p2 as int, p2 as int + n as int);
                            let mut es: Vec<SocketProtocol> = Vec::new();
                            let mut i: usize = 0;
                            proof {
                                assert(bytes@.len() == bytes.len());
                            }
                            while i < n
                                invariant
                                    0 <= i <= n,
                                    p2 + n <= bytes@.len(),
                                    bytes@.len() <= usize::MAX,
                                    codes == bytes@.subrange(p2 as int, p2 as int + n as int),
                                    es@.len() == i,
                                    forall|j: int|
                                        0 <= j < i ==> proto_of_code(#[trigger] codes[j])
                                            == Some(es@[j]),
                                decreases n - i,
                            {
                                proof {
                                    assert(codes[i as int] == bytes@[p2 + i]);
                                }
                                match proto_of_code_exec(bytes[p2 + i]) {
                                    None => {
                                        proof {
                                            assert(proto_of_code(codes[i as int]) is None);
                                            assert(codes.len() == n);
                                            assert(!(forall|j: int|
                                                0 <= j < codes.len() ==> proto_of_code(
                                                    #[trigger] codes[j],
                                                ) is Some)) by {
                                                assert((i as int) < codes.len()
                                                    && !(proto_of_code(codes[i as int]) is Some));
                                            }
                                        }
                                        return None;
                                    },
                                    Some(v) => {
                                        es.push(v);
                                    },
                                }
                                i += 1;
                            }
                            proof {
                                assert forall|j: int|
                                    0 <= j < codes.len() implies proto_of_code(
                                    #[trigger] codes[j],
                                ) is Some by {}
                                assert(es@ =~= codes.map_values(
                                    |b: u8| proto_of_code(b).unwrap(),
                                ));
                            }
                            Some((SetSpecifier::SomeOf(es), p2 + n))
                        } else {
                            None
                        }
                    },
                }
            } else if tag == 3 {
                Some((SetSpecifier::All, p))
            } else {
                None
            }
        },
    }
}

/// Appends an encoded activity kind set.
fn push_kind_set(out: &mut Vec<u8>, s: &SetSpecifier<crate::summarize::NetworkActivityKind>)
    ensures
        final(out)@ == old(out)@ + enc_u8_set(kind_set_codes(s.model())),
{
    let ghost pre = out@;
    match s {
        SetSpecifier::NoneOf => {
            out.push(0);
            proof {
                assert(out@ =~= pre + enc_u8_set(kind_set_codes(s.model())));
            }
        },
        SetSpecifier::One(v) => {
            out.push(1);
            out.push(kind_code_exec(v));
            proof {
                assert(out@ =~= pre + enc_u8_set(kind_set_codes(s.model())));
            }
        },
        SetSpecifier::SomeOf(es) => {
            let ghost codes = es@.map_values(
                |v: crate::summarize::NetworkActivityKind| kind_code(v),
            );
            out.push(2);
            push_u64(out, es.len() as u64);
            let ghost mid = out@;
            let mut i: usize = 0;
            while i < es.len()
                invariant
                    0 <= i <= es@.len(),
                    codes == es@.map_values(
                        |v: crate::summarize::NetworkActivityKind| kind_code(v),
                    ),
                    out@ == mid + codes.take(i as int),
                decreases es@.len() - i,
            {
                out.push(kind_code_exec(&es[i]));
                proof {
                    assert(out@ =~= mid + codes.take(i as int + 1));
                }
                i += 1;
            }
            proof {
                assert(codes.take(es@.len() as int) =~= codes);
                assert(out@ =~= pre + enc_u8_set(kind_set_codes(s.model())));
            }
        },
        SetSpecifier::All => {
            out.push(3);
            proof {
                assert(out@ =~= pre + enc_u8_set(kind_set_codes(s.model())));
            }
        },
    }
}

/// Reading an activity kind set at `pos`.
pub open spec fn dec_kind_set(s: Seq<u8>, pos: int) -> Option<
    (SetSpecModel<crate::summarize::NetworkActivityKind>, int),
> {
    match dec_u8_set(s, pos) {
        None => None,
        Some((cm, p)) => match kind_set_of_codes(cm) {
            None => None,
            Some(m) => Some((m, p)),
        },
    }
}

/// Reads an activity kind set at `pos`.
#[verifier::loop_isolation(false)]
fn read_kind_set(bytes: &Vec<u8>, pos: usize) -> (r: Option<
    (SetSpecifier<crate::summarize::NetworkActivityKind>, usize),
>)
    ensures
        r is Some == dec_kind_set(bytes@, pos as int) is Some,
        r matches Some(p) ==> dec_kind_set(bytes@, pos as int) matches Some(sp)
            && p.0.model() == sp.0 && p.1 as int == sp.1,
{
    match read_u8(bytes, pos) {
        None => None,
        Some((tag, p)) => {
            if tag == 0 {
                Some((SetSpecifier::NoneOf, p))
            } else if tag == 1 {
                match read_u8(bytes, p) {
                    None => None,
                    Some((b, p2)) => match kind_of_code_exec(b) {
                        None => None,
                        Some(v) => Some((SetSpecifier::One(v), p2)),
                    },
                }
            } else if tag == 2 {
                match read_u64(bytes, p) {
                    None => None,
                    Some((n, p2)) => {
                        if n <= (bytes.len() - p2) as u64 {
                            let n = n as usize;
                            let ghost codes = bytes@.subrange(p2 as int, p2 as int + n as int);
                            let mut es: Vec<crate::summarize::NetworkActivityKind> = Vec::new();
                            let mut i: usize = 0;
                            proof {
                                assert(bytes@.len() == bytes.len());
                            }
                            while i < n
                                invariant
                                    0 <= i <= n,
                                    p2 + n <= bytes@.len(),
                                    bytes@.len() <= usize::MAX,
                                    codes == bytes@.subrange(p2 as int, p2 as int + n as int),
                                    es@.len() == i,
                                    forall|j: int|
                                        0 <= j < i ==> kind_of_code(#[trigger] codes[j]) == Some(
                                            es@[j],
                                        ),
                                decreases n - i,
                            {
                                proof {
                                    assert(codes[i as int] == bytes@[p2 + i]);
                                }
                                match kind_of_code_exec(bytes[p2 + i]) {
                                    None => {
                                        proof {
                                            assert(kind_of_code(codes[i as int]) is None);
                                            assert(codes.len() == n);
                                            assert(!(forall|j: int|
                                                0 <= j < codes.len() ==> kind_of_code(
                                                    #[trigger] codes[j],
                                                ) is Some)) by {
                                                assert((i as int) < codes.len()
                                                    && !(kind_of_code(codes[i as int]) is Some));
                                            }
                                        }
                                        return None;
                                    },
                                    Some(v) => {
                                        es.push(v);
                                    },
                                }
                                i += 1;
                            }
                            proof {
                                assert forall|j: int|
                                    0 <= j < codes.len() implies kind_of_code(
                                    #[trigger] codes[j],
                                ) is Some by {}
                                assert(es@ =~= codes.map_values(
                                    |b: u8| kind_of_code(b).unwrap(),
                                ));
                            }
                            Some((SetSpecifier::SomeOf(es), p2 + n))
                        } else {
                            None
                        }
                    },
                }
            } else if tag == 3 {
                Some((SetSpecifier::All, p))
            } else {
                None
            }
        },
    }
}

/// Appends an encoded port set.
fn push_css(out: &mut Vec<u8>, s: &CountableSetSpecifier)
    ensures
        final(out)@ == old(out)@ + enc_css(s.model()),
{
    let ghost pre = out@;
    match s {
        CountableSetSpecifier::NoneOf => {
            out.push(0);
            proof {
                assert(out@ =~= pre + enc_css(s.model()));
            }
        },
        CountableSetSpecifier::One(p) => {
            out.push(1);
            out.push((p.0 % 256) as u8);
            out.push((p.0 / 256) as u8);
            proof {
                assert(out@ =~= pre + enc_css(s.model()));
            }
        },
        CountableSetSpecifier::SomeOf(es) => {
            out.push(2);
            push_u64(out, es.len() as u64);
            push_port_list(out, es);
            proof {
                assert(out@ =~= pre + enc_css(s.model()));
            }
        },
        CountableSetSpecifier::AllExcept(es) => {
            out.push(3);
            push_u64(out, es.len() as u64);
            push_port_list(out, es);
            proof {
                assert(out@ =~= pre + enc_css(s.model()));
            }
        },
        CountableSetSpecifier::All => {
            out.push(4);
            proof {
                assert(out@ =~= pre + enc_css(s.model()));
            }
        },
    }
}

/// Appends the two-byte renderings of the ports.
fn push_port_list(out: &mut Vec<u8>, es: &Vec<NetworkPort>)
    ensures
        final(out)@ == old(out)@ + port_bytes(es@),
{
    let mut i: usize = 0;
    while i < es.len()
        invariant
            0 <= i <= es@.len(),
            out@ == old(out)@ + port_bytes(es@.take(i as int)),
        decreases es@.len() - i,
    {
        let ghost pre = out@;
        let p = es[i];
        out.push((p.0 % 256) as u8);
        out.push((p.0 / 256) as u8);
        proof {
            assert(es@.take(i as int + 1).drop_last() =~= es@.take(i as int));
            lemma_port_bytes_push(es@.take(i as int), es@[i as int]);
            assert(es@.take(i as int).push(es@[i as int]) =~= es@.take(i as int + 1));
            assert(out@ =~= old(out)@ + port_bytes(es@.take(i as int + 1)));
        }
        i += 1;
    }
    proof {
        assert(es@.take(es@.len() as int) =~= es@);
    }
}

/// Reads a port set at `pos`.
/// Ports at consecutive positions in ascending order are ascending at any
/// distance.
proof fn lemma_ascending_pair(es: Seq<NetworkPort>, i: int, j: int)
    requires
        forall|k: int| 0 <= k < es.len() - 1 ==> (#[trigger] es[k]).0 < es[k + 1].0,
        0 <= i < j < es.len(),
    ensures
        es[i].0 < es[j].0,
    decreases j - i,
{
    if j > i + 1 {
        lemma_ascending_pair(es, i, j - 1);
        assert(es[j - 1].0 < es[j].0);
    } else {
        assert(es[i].0 < es[i + 1].0);
    }
}

/// Whether the list is a valid port list: nonzero entries, strictly
/// ascending.
fn ports_sorted_nonzero(es: &Vec<NetworkPort>) -> (r: bool)
    ensures
        r == (ports_wf(es@) && strictly_ascending(es@)),
{
    let mut i: usize = 0;
    while i < es.len()
        invariant
            0 <= i <= es@.len(),
            forall|j: int| 0 <= j < i ==> (#[trigger] es@[j]).0 >= 1,
            forall|j: int| 0 <= j < i && j < es@.len() - 1 ==> (#[trigger] es@[j]).0 < es@[j
                + 1].0,
        decreases es@.len() - i,
    {
        if es[i].0 < 1 {
            return false;
        }
        if i + 1 < es.len() && es[i].0 >= es[i + 1].0 {
            proof {
                assert(!strictly_ascending(es@)) by {
                    assert(!(es@[i as int].0 < es@[i as int + 1].0));
                }
            }
            return false;
        }
        i += 1;
    }
    proof {
        assert forall|a: int, b: int| 0 <= a < b < es@.len() implies es@[a].0 < es@[b].0 by {
            lemma_ascending_pair(es@, a, b);
        }
    }
    true
}

fn read_css(bytes: &Vec<u8>, pos: usize) -> (r: Option<(CountableSetSpecifier, usize)>)
    ensures
        r is Some == dec_css(bytes@, pos as int) is Some,
        r matches Some(p) ==> dec_css(bytes@, pos as int) matches Some(sp) && p.0.model()
            == sp.0 && p.1 as int == sp.1,
{
    match read_u8(bytes, pos) {
        None => None,
        Some((tag, p)) => {
            if tag == 0 {
                Some((CountableSetSpecifier::NoneOf, p))
            } else if tag == 1 {
                if p < bytes.len() && bytes.len() - p >= 2 {
                    let lo = bytes[p] as u16;
                    let hi = bytes[p + 1] as u16;
                    let v = lo + 256 * hi;
                    if v >= 1 {
                        Some((CountableSetSpecifier::One(NetworkPort(v)), p + 2))
                    } else {
                        None
                    }
                } else {
                    None
                }
            } else if tag == 2 || tag == 3 {
                match read_u64(bytes, p) {
                    None => None,
                    Some((n, p2)) => {
                        if (bytes.len() - p2) as u64 / 2 >= n {
                            let n = n as usize;
                            let es = read_port_list(bytes, p2, n);
                            if !ports_sorted_nonzero(&es) {
                                None
                            } else if tag == 2 {
                                Some((CountableSetSpecifier::SomeOf(es), p2 + 2 * n))
                            } else if es.len() >= 1 {
                                Some((CountableSetSpecifier::AllExcept(es), p2 + 2 * n))
                            } else {
                                None
                            }
                        } else {
                            None
                        }
                    },
                }
            } else if tag == 4 {
                Some((CountableSetSpecifier::All, p))
            } else {
                None
            }
        },
    }
}

/// Reads `n` two-byte ports at `pos`.
fn read_port_list(bytes: &Vec<u8>, pos: usize, n: usize) -> (r: Vec<NetworkPort>)
    requires
        pos + 2 * n <= bytes@.len(),
    ensures
        r@ == ports_of_bytes(bytes@.subrange(pos as int, pos as int + 2 * n as int)),
        r@.len() == n,
{
    let ghost region = bytes@.subrange(pos as int, pos as int + 2 * n as int);
    let mut es: Vec<NetworkPort> = Vec::new();
    let mut i: usize = 0;
    proof {
        assert(bytes@.len() == bytes.len());
    }
    while i < n
        invariant
            0 <= i <= n,
            pos + 2 * n <= bytes@.len(),
            bytes@.len() <= usize::MAX,
            region == bytes@.subrange(pos as int, pos as int + 2 * n as int),
            es@.len() == i,
            es@ == ports_of_bytes(region.take(2 * i as int)),
            forall|j: int|
                0 <= j < i ==> #[trigger] es@[j] == NetworkPort(
                    (region[2 * j] + 256 * (region[2 * j + 1] as u16)) as u16,
                ),
        decreases n - i,
    {
        let lo = bytes[pos + 2 * i] as u16;
        let hi = bytes[pos + 2 * i + 1] as u16;
        let ghost pre = es@;
        es.push(NetworkPort(lo + 256 * hi));
        proof {
            assert(region[2 * i as int] == bytes@[pos + 2 * i]);
            assert(region[2 * i as int + 1] == bytes@[pos + 2 * i + 1]);
            lemma_ports_of_bytes_take(region, i as int + 1);
            lemma_ports_of_bytes_take(region, i as int);
            assert(es@ =~= ports_of_bytes(region.take(2 * (i as int + 1))));
        }
        i += 1;
    }
    proof {
        assert(region.take(2 * n as int) =~= region);
    }
    es
}

/// The ports of an even prefix: one more pair appends one more port.
proof fn lemma_ports_of_bytes_take(b: Seq<u8>, i: int)
    requires
        0 <= i,
        2 * i <= b.len(),
    ensures
        i > 0 ==> ports_of_bytes(b.take(2 * i)) == ports_of_bytes(b.take(2 * (i - 1))).push(
            NetworkPort((b[2 * (i - 1)] + 256 * (b[2 * (i - 1) + 1] as u16)) as u16),
        ),
        ports_of_bytes(b.take(2 * i)).len() == i,
    decreases i,
{
    if i > 0 {
        lemma_ports_of_bytes_take(b, i - 1);
        lemma_ports_prefix_step(b.take(2 * i));
        assert(b.take(2 * i).drop_last().drop_last() =~= b.take(2 * (i - 1)));
        assert(b.take(2 * i)[2 * i - 2] == b[2 * (i - 1)]);
        assert(b.take(2 * i)[2 * i - 1] == b[2 * (i - 1) + 1]);
    } else {
        assert(ports_of_bytes(b.take(0)).len() == 0);
    }
}

/// An even-length byte string decodes as its front pairs plus its last pair.
proof fn lemma_ports_prefix_step(b: Seq<u8>)
    requires
        b.len() >= 2,
        b.len() % 2 == 0,
    ensures
        ports_of_bytes(b) == ports_of_bytes(b.drop_last().drop_last()).push(
            NetworkPort((b[b.len() - 2] + 256 * (b[b.len() - 1] as u16)) as u16),
        ),
    decreases b.len(),
{
    if b.len() == 2 {
        assert(b.skip(2) =~= Seq::<u8>::empty());
        assert(ports_of_bytes(Seq::<u8>::empty()) =~= Seq::<NetworkPort>::empty());
        assert(b.drop_last().drop_last() =~= Seq::<u8>::empty());
        assert(ports_of_bytes(b) =~= ports_of_bytes(b.drop_last().drop_last()).push(
            NetworkPort((b[b.len() - 2] + 256 * (b[b.len() - 1] as u16)) as u16),
        ));
    } else {
        lemma_ports_prefix_step(b.skip(2));
        assert(b.skip(2).drop_last().drop_last() =~= b.drop_last().drop_last().skip(2));
        assert(b.skip(2)[b.skip(2).len() - 2] == b[b.len() - 2]);
        assert(b.skip(2)[b.skip(2).len() - 1] == b[b.len() - 1]);
        assert(b.drop_last().drop_last()[0] == b[0]);
        assert(b.drop_last().drop_last()[1] == b[1]);
        assert(ports_of_bytes(b) =~= ports_of_bytes(b.drop_last().drop_last()).push(
            NetworkPort((b[b.len() - 2] + 256 * (b[b.len() - 1] as u16)) as u16),
        ));
    }
}

/// A network activity: its four component sets in order.
pub open spec fn enc_na(na: NetworkActivityModel) -> Seq<u8> {
    enc_u8_set(family_set_codes(na.af)) + enc_u8_set(proto_set_codes(na.proto)) + enc_u8_set(
        kind_set_codes(na.kind),
    ) + enc_css(na.local_port)
}

/// Reading a network activity at `pos`.
pub open spec fn dec_na(s: Seq<u8>, pos: int) -> Option<(NetworkActivityModel, int)> {
    match dec_family_set(s, pos) {
        None => None,
        Some((af, p1)) => match dec_proto_set(s, p1) {
            None => None,
            Some((proto, p2)) => match dec_kind_set(s, p2) {
                None => None,
                Some((kind, p3)) => match dec_css(s, p3) {
                    None => None,
                    Some((local_port, p4)) => Some(
                        (NetworkActivityModel { af, proto, kind, local_port }, p4),
                    ),
                },
            },
        },
    }
}

/// A decoded network activity is well-formed, since its port set is.
proof fn lemma_dec_na_wf(s: Seq<u8>, pos: int)
    ensures
        dec_na(s, pos) matches Some(p) ==> p.0.wf(),
{
    if dec_na(s, pos) is Some {
        match dec_family_set(s, pos) {
            Some((af, p1)) => match dec_proto_set(s, p1) {
                Some((proto, p2)) => match dec_kind_set(s, p2) {
                    Some((kind, p3)) => {
                        lemma_dec_css_wf(s, p3);
                    },
                    None => {},
                },
                None => {},
            },
            None => {},
        }
    }
}

/// Whether the element lists of a set fit their length fields.
pub open spec fn set_encodable<T>(m: SetSpecModel<T>) -> bool {
    m matches SetSpecModel::SomeOf(es) ==> es.len() < 0x10000000000000000
}

/// Whether a network activity's lists fit their length fields.
pub open spec fn na_encodable(na: NetworkActivityModel) -> bool {
    &&& set_encodable(na.af)
    &&& set_encodable(na.proto)
    &&& set_encodable(na.kind)
    &&& css_encodable(na.local_port)
}

/// A network activity decodes back from its encoding.
#[verifier::rlimit(100)]
proof fn lemma_na_round(s: Seq<u8>, pos: int, na: NetworkActivityModel)
    requires
        0 <= pos,
        na.wf(),
        na_encodable(na),
        pos + enc_na(na).len() <= s.len(),
        forall|k: int| 0 <= k < enc_na(na).len() ==> s[pos + k] == enc_na(na)[k],
    ensures
        dec_na(s, pos) == Some((na, pos + enc_na(na).len())),
{
    let e1 = enc_u8_set(family_set_codes(na.af));
    let e2 = enc_u8_set(proto_set_codes(na.proto));
    let e3 = enc_u8_set(kind_set_codes(na.kind));
    let e4 = enc_css(na.local_port);
    assert(enc_na(na) =~= e1 + (e2 + (e3 + e4)));
    lemma_region(s, pos, e1, e2 + (e3 + e4));
    lemma_region(s, pos + e1.len(), e2, e3 + e4);
    lemma_region(s, pos + e1.len() + e2.len(), e3, e4);
    lemma_u8_set_round(s, pos, family_set_codes(na.af));
    lemma_family_codes_round(na.af);
    lemma_u8_set_round(s, pos + e1.len(), proto_set_codes(na.proto));
    lemma_proto_codes_round(na.proto);
    lemma_u8_set_round(s, pos + e1.len() + e2.len(), kind_set_codes(na.kind));
    lemma_kind_codes_round(na.kind);
    lemma_css_round(s, pos + e1.len() + e2.len() + e3.len(), na.local_port);
}

/// Appends an encoded network activity.
fn push_na(out: &mut Vec<u8>, na: &NetworkActivity)
    ensures
        final(out)@ == old(out)@ + enc_na(na.model()),
{
    push_family_set(out, &na.af);
    push_proto_set(out, &na.proto);
    push_kind_set(out, &na.kind);
    push_css(out, &na.local_port);
    proof {
        assert(out@ =~= old(out)@ + enc_na(na.model()));
    }
}

/// Reads a network activity at `pos`.
fn read_na(bytes: &Vec<u8>, pos: usize) -> (r: Option<(NetworkActivity, usize)>)
    ensures
        r is Some == dec_na(bytes@, pos as int) is Some,
        r matches Some(p) ==> dec_na(bytes@, pos as int) matches Some(sp) && p.0.model()
            == sp.0 && p.1 as int == sp.1,
{
    match read_family_set(bytes, pos) {
        None => None,
        Some((af, p1)) => match read_proto_set(bytes, p1) {
            None => None,
            Some((proto, p2)) => match read_kind_set(bytes, p2) {
                None => None,
                Some((kind, p3)) => match read_css(bytes, p3) {
                    None => None,
                    Some((local_port, p4)) => Some(
                        (NetworkActivity { af, proto, kind, local_port }, p4),
                    ),
                },
            },
        },
    }
}

/// A list of strings, each length-prefixed, in order.
pub open spec fn enc_string_list(names: Seq<Seq<char>>) -> Seq<u8>
    decreases names.len(),
{
    if names.len() == 0 {
        Seq::empty()
    } else {
        enc_string(names[0]) + enc_string_list(names.drop_first())
    }
}

/// Appending a string appends its encoding.
proof fn lemma_string_list_push(names: Seq<Seq<char>>, x: Seq<char>)
    ensures
        enc_string_list(names.push(x)) == enc_string_list(names) + enc_string(x),
    decreases names.len(),
{
    if names.len() == 0 {
        assert(names.push(x).drop_first() =~= Seq::<Seq<char>>::empty());
        assert(names.push(x)[0] == x);
        assert(enc_string_list(Seq::<Seq<char>>::empty()) =~= Seq::<u8>::empty());
        assert(enc_string_list(names.push(x)) =~= enc_string_list(names) + enc_string(x));
    } else {
        assert(names.push(x).drop_first() =~= names.drop_first().push(x));
        lemma_string_list_push(names.drop_first(), x);
        assert(names.push(x)[0] == names[0]);
        assert(enc_string_list(names.push(x)) =~= enc_string_list(names) + enc_string(x));
    }
}

/// Reading `n` strings at `pos`.
pub open spec fn dec_string_list(s: Seq<u8>, pos: int, n: int) -> Option<(Seq<Seq<char>>, int)>
    decreases n,
{
    if n <= 0 {
        Some((Seq::empty(), pos))
    } else {
        match dec_string(s, pos) {
            None => None,
            Some((x, p)) => match dec_string_list(s, p, n - 1) {
                None => None,
                Some((rest, p2)) => Some((seq![x] + rest, p2)),
            },
        }
    }
}

/// A string list decodes back from its encoding.
proof fn lemma_string_list_round(s: Seq<u8>, pos: int, names: Seq<Seq<char>>)
    requires
        0 <= pos,
        forall|i: int|
            0 <= i < names.len() ==> encode_utf8(#[trigger] names[i]).len()
                < 0x10000000000000000,
        pos + enc_string_list(names).len() <= s.len(),
        forall|k: int|
            0 <= k < enc_string_list(names).len() ==> s[pos + k] == enc_string_list(names)[k],
    ensures
        dec_string_list(s, pos, names.len() as int) == Some(
            (names, pos + enc_string_list(names).len()),
        ),
    decreases names.len(),
{
    if names.len() > 0 {
        let e1 = enc_string(names[0]);
        let rest = enc_string_list(names.drop_first());
        lemma_region(s, pos, e1, rest);
        lemma_string_round(s, pos, names[0]);
        assert forall|i: int|
            0 <= i < names.drop_first().len() implies encode_utf8(
            #[trigger] names.drop_first()[i],
        ).len() < 0x10000000000000000 by {
            assert(names.drop_first()[i] == names[i + 1]);
        }
        lemma_string_list_round(s, pos + e1.len(), names.drop_first());
        assert(seq![names[0]] + names.drop_first() =~= names);
    } else {
        assert(enc_string_list(names) =~= Seq::<u8>::empty());
    }
}

/// One action: a variant tag, then the variant's payload.
pub open spec fn enc_action(a: ActionModel) -> Seq<u8> {
    match a {
        ActionModel::Read(p) => seq![0u8] + enc_bytes(p),
        ActionModel::Write(p) => seq![1u8] + enc_bytes(p),
        ActionModel::Create(p) => seq![2u8] + enc_bytes(p),
        ActionModel::NetworkActivity(na) => seq![3u8] + enc_na(na),
        ActionModel::WriteExecuteMemoryMapping => seq![4u8],
        ActionModel::SetRealtimeScheduler => seq![5u8],
        ActionModel::Wakeup => seq![6u8],
        ActionModel::MknodSpecial => seq![7u8],
        ActionModel::SetAlarm => seq![8u8],
        ActionModel::Syscalls(names) => seq![9u8] + enc_u64(names.len() as int)
            + enc_string_list(names),
    }
}

/// Reading one action at `pos`.
pub open spec fn dec_action(s: Seq<u8>, pos: int) -> Option<(ActionModel, int)> {
    match dec_u8(s, pos) {
        None => None,
        Some((tag, p)) => if tag == 0 {
            match dec_bytes(s, p) {
                None => None,
                Some((b, p2)) => Some((ActionModel::Read(b), p2)),
            }
        } else if tag == 1 {
            match dec_bytes(s, p) {
                None => None,
                Some((b, p2)) => Some((ActionModel::Write(b), p2)),
            }
        } else if tag == 2 {
            match dec_bytes(s, p) {
                None => None,
                Some((b, p2)) => Some((ActionModel::Create(b), p2)),
            }
        } else if tag == 3 {
            match dec_na(s, p) {
                None => None,
                Some((na, p2)) => Some((ActionModel::NetworkActivity(na), p2)),
            }
        } else if tag == 4 {
            Some((ActionModel::WriteExecuteMemoryMapping, p))
        } else if tag == 5 {
            Some((ActionModel::SetRealtimeScheduler, p))
        } else if tag == 6 {
            Some((ActionModel::Wakeup, p))
        } else if tag == 7 {
            Some((ActionModel::MknodSpecial, p))
        } else if tag == 8 {
            Some((ActionModel::SetAlarm, p))
        } else if tag == 9 {
            match dec_u64(s, p) {
                None => None,
                Some((n, p2)) => match dec_string_list(s, p2, n) {
                    None => None,
                    Some((names, p3)) => if names.len() == n {
                        Some((ActionModel::Syscalls(names), p3))
                    } else {
                        None
                    },
                },
            }
        } else {
            None
        },
    }
}

/// Whether an action's lists fit their length fields.
pub open spec fn action_encodable(a: ActionModel) -> bool {
    match a {
        ActionModel::Read(p) => p.len() < 0x10000000000000000,
        ActionModel::Write(p) => p.len() < 0x10000000000000000,
        ActionModel::Create(p) => p.len() < 0x10000000000000000,
        ActionModel::NetworkActivity(na) => na_encodable(na),
        ActionModel::Syscalls(names) => names.len() < 0x10000000000000000 && forall|i: int|
            0 <= i < names.len() ==> encode_utf8(#[trigger] names[i]).len()
                < 0x10000000000000000,
        _ => true,
    }
}

/// A decoded action is well-formed.
proof fn lemma_dec_action_wf(s: Seq<u8>, pos: int)
    ensures
        dec_action(s, pos) matches Some(p) ==> p.0.wf(),
{
    match dec_u8(s, pos) {
        Some((tag, p)) => {
            if tag == 3 {
                lemma_dec_na_wf(s, p);
            }
        },
        None => {},
    }
}

/// Every action of a decoded list is well-formed.
proof fn lemma_dec_action_list_wf(s: Seq<u8>, pos: int, n: int)
    ensures
        dec_action_list(s, pos, n) matches Some(p) ==> forall|k: int|
            0 <= k < p.0.len() ==> (#[trigger] p.0[k]).wf(),
    decreases n,
{
    if n > 0 {
        match dec_action(s, pos) {
            Some((a, p2)) => {
                lemma_dec_action_wf(s, pos);
                lemma_dec_action_list_wf(s, p2, n - 1);
                match dec_action_list(s, p2, n - 1) {
                    Some((rest, _)) => {
                        assert forall|k: int|
                            0 <= k < (seq![a] + rest).len() implies (#[trigger] (seq![a]
                            + rest)[k]).wf() by {
                            if k > 0 {
                                assert((seq![a] + rest)[k] == rest[k - 1]);
                            }
                        }
                    },
                    None => {},
                }
            },
            None => {},
        }
    }
}

/// An action decodes back from its encoding.
proof fn lemma_action_round(s: Seq<u8>, pos: int, a: ActionModel)
    requires
        0 <= pos,
        a.wf(),
        action_encodable(a),
        pos + enc_action(a).len() <= s.len(),
        forall|k: int| 0 <= k < enc_action(a).len() ==> s[pos + k] == enc_action(a)[k],
    ensures
        dec_action(s, pos) == Some((a, pos + enc_action(a).len())),
{
    assert(s[pos + 0] == enc_action(a)[0]);
    match a {
        ActionModel::Read(p) => {
            lemma_region(s, pos, seq![0u8], enc_bytes(p));
            lemma_bytes_round(s, pos + 1, p);
        },
        ActionModel::Write(p) => {
            lemma_region(s, pos, seq![1u8], enc_bytes(p));
            lemma_bytes_round(s, pos + 1, p);
        },
        ActionModel::Create(p) => {
            lemma_region(s, pos, seq![2u8], enc_bytes(p));
            lemma_bytes_round(s, pos + 1, p);
        },
        ActionModel::NetworkActivity(na) => {
            lemma_region(s, pos, seq![3u8], enc_na(na));
            lemma_na_round(s, pos + 1, na);
        },
        ActionModel::Syscalls(names) => {
            assert(enc_action(a) =~= seq![9u8] + (enc_u64(names.len() as int)
                + enc_string_list(names)));
            lemma_region(s, pos, seq![9u8], enc_u64(names.len() as int) + enc_string_list(
                names,
            ));
            lemma_region(s, pos + 1, enc_u64(names.len() as int), enc_string_list(names));
            lemma_le_round(names.len() as int, s, pos + 1);
            lemma_string_list_round(s, pos + 9, names);
        },
        _ => {},
    }
}

/// Appends an encoded action.
fn push_action(out: &mut Vec<u8>, a: &ProgramAction)
    ensures
        final(out)@ == old(out)@ + enc_action(a.model()),
{
    let ghost pre = out@;
    match a {
        ProgramAction::Read(p) => {
            out.push(0);
            push_bytes(out, p);
            proof {
                assert(out@ =~= pre + enc_action(a.model()));
            }
        },
        ProgramAction::Write(p) => {
            out.push(1);
            push_bytes(out, p);
            proof {
                assert(out@ =~= pre + enc_action(a.model()));
            }
        },
        ProgramAction::Create(p) => {
            out.push(2);
            push_bytes(out, p);
            proof {
                assert(out@ =~= pre + enc_action(a.model()));
            }
        },
        ProgramAction::NetworkActivity(na) => {
            out.push(3);
            push_na(out, na);
            proof {
                assert(out@ =~= pre + enc_action(a.model()));
            }
        },
        ProgramAction::WriteExecuteMemoryMapping => {
            out.push(4);
            proof {
                assert(out@ =~= pre + enc_action(a.model()));
            }
        },
        ProgramAction::SetRealtimeScheduler => {
            out.push(5);
            proof {
                assert(out@ =~= pre + enc_action(a.model()));
            }
        },
        ProgramAction::Wakeup => {
            out.push(6);
            proof {
                assert(out@ =~= pre + enc_action(a.model()));
            }
        },
        ProgramAction::MknodSpecial => {
            out.push(7);
            proof {
                assert(out@ =~= pre + enc_action(a.model()));
            }
        },
        ProgramAction::SetAlarm => {
            out.push(8);
            proof {
                assert(out@ =~= pre + enc_action(a.model()));
            }
        },
        ProgramAction::Syscalls(names) => {
            out.push(9);
            push_u64(out, names.len() as u64);
            let ghost mid = out@;
            let mut i: usize = 0;
            while i < names.len()
                invariant
                    0 <= i <= names@.len(),
                    out@ == mid + enc_string_list(names.deep_view().take(i as int)),
                decreases names@.len() - i,
            {
                push_string(out, &names[i]);
                proof {
                    lemma_string_list_push(
                        names.deep_view().take(i as int),
                        names.deep_view()[i as int],
                    );
                    assert(names.deep_view().take(i as int).push(names.deep_view()[i as int])
                        =~= names.deep_view().take(i as int + 1));
                    assert(out@ =~= mid + enc_string_list(names.deep_view().take(i as int + 1)));
                }
                i += 1;
            }
            proof {
                assert(names.deep_view().take(names@.len() as int) =~= names.deep_view());
                assert(out@ =~= pre + enc_action(a.model()));
            }
        },
    }
}

/// Reads `n` strings at `pos`.
#[verifier::loop_isolation(false)]
fn read_string_list(bytes: &Vec<u8>, pos: usize, n: u64) -> (r: Option<(Vec<String>, usize)>)
    ensures
        r is Some == dec_string_list(bytes@, pos as int, n as int) is Some,
        r matches Some(p) ==> dec_string_list(bytes@, pos as int, n as int) matches Some(sp)
            && p.0.deep_view() == sp.0 && p.1 as int == sp.1,
{
    let mut acc: Vec<String> = Vec::new();
    let mut cur: usize = pos;
    let mut k: u64 = 0;
    proof {
        assert(acc.deep_view() =~= Seq::<Seq<char>>::empty());
    }
    while k < n
        invariant
            0 <= k <= n,
            dec_string_list(bytes@, pos as int, n as int) == (match dec_string_list(
                bytes@,
                cur as int,
                n as int - k as int,
            ) {
                Some((rest, p)) => Some::<(Seq<Seq<char>>, int)>(
                    (acc.deep_view() + rest, p),
                ),
                None => None::<(Seq<Seq<char>>, int)>,
            }),
        decreases n - k,
    {
        match read_string(bytes, cur) {
            None => {
                return None;
            },
            Some((x, p)) => {
                let ghost pre = acc.deep_view();
                acc.push(x);
                proof {
                    assert(acc.deep_view() =~= pre.push(x@));
                    match dec_string_list(bytes@, p as int, n as int - k as int - 1) {
                        Some((rest, p2)) => {
                            assert(pre + (seq![x@] + rest) =~= pre.push(x@) + rest);
                        },
                        None => {},
                    }
                }
                cur = p;
            },
        }
        k += 1;
    }
    proof {
        match dec_string_list(bytes@, pos as int, n as int) {
            Some((all, p)) => {
                assert(acc.deep_view() + Seq::<Seq<char>>::empty() =~= acc.deep_view());
            },
            None => {},
        }
    }
    Some((acc, cur))
}

/// Reads one action at `pos`.
fn read_action(bytes: &Vec<u8>, pos: usize) -> (r: Option<(ProgramAction, usize)>)
    ensures
        r is Some == dec_action(bytes@, pos as int) is Some,
        r matches Some(p) ==> dec_action(bytes@, pos as int) matches Some(sp) && p.0.model()
            == sp.0 && p.1 as int == sp.1,
{
    match read_u8(bytes, pos) {
        None => None,
        Some((tag, p)) => {
            if tag == 0 {
                match read_bytes(bytes, p) {
                    None => None,
                    Some((b, p2)) => Some((ProgramAction::Read(b), p2)),
                }
            } else if tag == 1 {
                match read_bytes(bytes, p) {
                    None => None,
                    Some((b, p2)) => Some((ProgramAction::Write(b), p2)),
                }
            } else if tag == 2 {
                match read_bytes(bytes, p) {
                    None => None,
                    Some((b, p2)) => Some((ProgramAction::Create(b), p2)),
                }
            } else if tag == 3 {
                match read_na(bytes, p) {
                    None => None,
                    Some((na, p2)) => Some((ProgramAction::NetworkActivity(na), p2)),
                }
            } else if tag == 4 {
                Some((ProgramAction::WriteExecuteMemoryMapping, p))
            } else if tag == 5 {
                Some((ProgramAction::SetRealtimeScheduler, p))
            } else if tag == 6 {
                Some((ProgramAction::Wakeup, p))
            } else if tag == 7 {
                Some((ProgramAction::MknodSpecial, p))
            } else if tag == 8 {
                Some((ProgramAction::SetAlarm, p))
            } else if tag == 9 {
                match read_u64(bytes, p) {
                    None => None,
                    Some((n, p2)) => {
                        match read_string_list(bytes, p2, n) {
                            None => None,
                            Some((names, p3)) => {
                                if names.len() as u64 == n {
                                    proof {
                                        assert(names.deep_view().len() == names@.len());
                                    }
                                    Some((ProgramAction::Syscalls(names), p3))
                                } else {
                                    proof {
                                        assert(names.deep_view().len() == names@.len());
                                    }
                                    None
                                }
                            },
                        }
                    },
                }
            } else {
                None
            }
        },
    }
}

/// The actions, one after the other.
pub open spec fn enc_action_list(ms: Seq<ActionModel>) -> Seq<u8>
    decreases ms.len(),
{
    if ms.len() == 0 {
        Seq::empty()
    } else {
        enc_action(ms[0]) + enc_action_list(ms.drop_first())
    }
}

/// Appending an action appends its encoding.
proof fn lemma_action_list_push(ms: Seq<ActionModel>, a: ActionModel)
    ensures
        enc_action_list(ms.push(a)) == enc_action_list(ms) + enc_action(a),
    decreases ms.len(),
{
    if ms.len() == 0 {
        assert(ms.push(a).drop_first() =~= Seq::<ActionModel>::empty());
        assert(ms.push(a)[0] == a);
        assert(enc_action_list(Seq::<ActionModel>::empty()) =~= Seq::<u8>::empty());
        assert(enc_action_list(ms.push(a)) =~= enc_action_list(ms) + enc_action(a));
    } else {
        assert(ms.push(a).drop_first() =~= ms.drop_first().push(a));
        lemma_action_list_push(ms.drop_first(), a);
        assert(ms.push(a)[0] == ms[0]);
        assert(enc_action_list(ms.push(a)) =~= enc_action_list(ms) + enc_action(a));
    }
}

/// Reading `n` actions at `pos`.
pub open spec fn dec_action_list(s: Seq<u8>, pos: int, n: int) -> Option<
    (Seq<ActionModel>, int),
>
    decreases n,
{
    if n <= 0 {
        Some((Seq::empty(), pos))
    } else {
        match dec_action(s, pos) {
            None => None,
            Some((a, p)) => match dec_action_list(s, p, n - 1) {
                None => None,
                Some((rest, p2)) => Some((seq![a] + rest, p2)),
            },
        }
    }
}

/// An action list decodes back from its encoding.
proof fn lemma_action_list_round(s: Seq<u8>, pos: int, ms: Seq<ActionModel>)
    requires
        0 <= pos,
        forall|i: int| 0 <= i < ms.len() ==> (#[trigger] ms[i]).wf() && action_encodable(
            ms[i],
        ),
        pos + enc_action_list(ms).len() <= s.len(),
        forall|k: int|
            0 <= k < enc_action_list(ms).len() ==> s[pos + k] == enc_action_list(ms)[k],
    ensures
        dec_action_list(s, pos, ms.len() as int) == Some(
            (ms, pos + enc_action_list(ms).len()),
        ),
    decreases ms.len(),
{
    if ms.len() > 0 {
        let e1 = enc_action(ms[0]);
        let rest = enc_action_list(ms.drop_first());
        lemma_region(s, pos, e1, rest);
        lemma_action_round(s, pos, ms[0]);
        assert forall|i: int|
            0 <= i < ms.drop_first().len() implies (#[trigger] ms.drop_first()[i]).wf()
            && action_encodable(ms.drop_first()[i]) by {
            assert(ms.drop_first()[i] == ms[i + 1]);
        }
        lemma_action_list_round(s, pos + e1.len(), ms.drop_first());
        assert(seq![ms[0]] + ms.drop_first() =~= ms);
    } else {
        assert(enc_action_list(ms) =~= Seq::<u8>::empty());
    }
}

/// The container header: a magic tag and the format version.
pub open spec fn magic_bytes() -> Seq<u8> {
    seq![84u8, 83u8, 80u8, 49u8]
}

/// A serialized profile: the header, the number of actions, the actions.
pub open spec fn serialize_spec(ms: Seq<ActionModel>) -> Seq<u8> {
    magic_bytes() + enc_u64(ms.len() as int) + enc_action_list(ms)
}

/// Reading a whole profile: the header must match, the count must be exact,
/// and nothing may trail the last action.
pub open spec fn deserialize_spec(s: Seq<u8>) -> Option<Seq<ActionModel>> {
    if s.len() >= 12 && s[0] == 84u8 && s[1] == 83u8 && s[2] == 80u8 && s[3] == 49u8 {
        match dec_u64(s, 4) {
            None => None,
            Some((n, p)) => match dec_action_list(s, p, n) {
                None => None,
                Some((ms, p2)) => if p2 == s.len() && ms.len() == n {
                    Some(ms)
                } else {
                    None
                },
            },
        }
    } else {
        None
    }
}

/// Serializes an action sequence into the profile container.
pub fn serialize_actions(actions: &Vec<ProgramAction>) -> (r: Vec<u8>)
    ensures
        r@ == serialize_spec(models_of(actions@)),
{
    let ghost ms = models_of(actions@);
    let mut out: Vec<u8> = Vec::new();
    out.push(84);
    out.push(83);
    out.push(80);
    out.push(49);
    push_u64(&mut out, actions.len() as u64);
    let ghost mid = out@;
    proof {
        assert(mid =~= magic_bytes() + enc_u64(ms.len() as int));
    }
    let mut i: usize = 0;
    while i < actions.len()
        invariant
            0 <= i <= actions@.len(),
            ms == models_of(actions@),
            mid == magic_bytes() + enc_u64(ms.len() as int),
            out@ == mid + enc_action_list(ms.take(i as int)),
        decreases actions@.len() - i,
    {
        push_action(&mut out, &actions[i]);
        proof {
            lemma_action_list_push(ms.take(i as int), ms[i as int]);
            assert(ms.take(i as int).push(ms[i as int]) =~= ms.take(i as int + 1));
            assert(out@ =~= mid + enc_action_list(ms.take(i as int + 1)));
        }
        i += 1;
    }
    proof {
        assert(ms.take(actions@.len() as int) =~= ms);
        assert(out@ =~= serialize_spec(ms));
    }
    out
}

/// Deserializes a profile container back into the action sequence; `None`
/// for anything but a well-formed container.
#[verifier::loop_isolation(false)]
pub fn deserialize_actions(bytes: &Vec<u8>) -> (r: Option<Vec<ProgramAction>>)
    ensures
        r is Some == deserialize_spec(bytes@) is Some,
        r matches Some(v) ==> models_of(v@) == deserialize_spec(bytes@).unwrap(),
        r matches Some(v) ==> forall|k: int|
            0 <= k < models_of(v@).len() ==> (#[trigger] models_of(v@)[k]).wf(),
{
    proof {
        if bytes@.len() >= 12 {
            match dec_u64(bytes@, 4) {
                Some((n, p)) => {
                    lemma_dec_action_list_wf(bytes@, p, n);
                },
                None => {},
            }
        }
    }
    if !(bytes.len() >= 12) {
        return None;
    }
    if !(bytes[0] == 84 && bytes[1] == 83 && bytes[2] == 80 && bytes[3] == 49) {
        return None;
    }
    match read_u64(bytes, 4) {
        None => None,
        Some((n, p)) => {
            let mut acc: Vec<ProgramAction> = Vec::new();
            let mut cur: usize = p;
            let mut k: u64 = 0;
            proof {
                assert(models_of(acc@) =~= Seq::<ActionModel>::empty());
            }
            while k < n
                invariant
                    0 <= k <= n,
                    models_of(acc@).len() == k,
                    dec_action_list(bytes@, p as int, n as int) == (match dec_action_list(
                        bytes@,
                        cur as int,
                        n as int - k as int,
                    ) {
                        Some((rest, p2)) => Some::<(Seq<ActionModel>, int)>(
                            (models_of(acc@) + rest, p2),
                        ),
                        None => None::<(Seq<ActionModel>, int)>,
                    }),
                decreases n - k,
            {
                match read_action(bytes, cur) {
                    None => {
                        return None;
                    },
                    Some((a, p2)) => {
                        let ghost pre = models_of(acc@);
                        let ghost am = a.model();
                        acc.push(a);
                        proof {
                            assert(models_of(acc@) =~= pre.push(am));
                            match dec_action_list(bytes@, p2 as int, n as int - k as int - 1) {
                                Some((rest, p3)) => {
                                    assert(pre + (seq![am] + rest) =~= pre.push(am) + rest);
                                },
                                None => {},
                            }
                        }
                        cur = p2;
                    },
                }
                k += 1;
            }
            proof {
                match dec_action_list(bytes@, p as int, n as int) {
                    Some((all, p2)) => {
                        assert(models_of(acc@) + Seq::<ActionModel>::empty() =~= models_of(
                            acc@,
                        ));
                    },
                    None => {},
                }
            }
            if cur == bytes.len() {
                Some(acc)
            } else {
                None
            }
        },
    }
}

/// Profile round trip: deserializing a serialized action sequence gives the
/// sequence back, whenever its actions are well-formed and its element counts
/// fit the container's 64-bit length fields (every action sequence the
/// summarizer emits, and every sequence a program can hold, qualifies).
pub proof fn lemma_profile_round_trip(ms: Seq<ActionModel>)
    requires
        ms.len() < 0x10000000000000000,
        forall|i: int| 0 <= i < ms.len() ==> (#[trigger] ms[i]).wf() && action_encodable(
            ms[i],
        ),
    ensures
        deserialize_spec(serialize_spec(ms)) == Some(ms),
{
    let s = serialize_spec(ms);
    let body = enc_u64(ms.len() as int) + enc_action_list(ms);
    assert(s =~= magic_bytes() + body);
    assert forall|k: int| 0 <= k < body.len() implies s[4 + k] == body[k] by {
        assert(s[4 + k] == (magic_bytes() + body)[4 + k]);
    }
    lemma_region(s, 4, enc_u64(ms.len() as int), enc_action_list(ms));
    lemma_le_round(ms.len() as int, s, 4);
    lemma_action_list_round(s, 12, ms);
    assert(s[0] == 84u8 && s[1] == 83u8 && s[2] == 80u8 && s[3] == 49u8);
    assert(s.len() == 12 + enc_action_list(ms).len());
}

} // verus!
