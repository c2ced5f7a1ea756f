//! The Handshake Codec: the HTTP upgrade exchange that precedes frame
//! traffic, and the Sec-WebSocket-Accept derivation.
//!
//! Header names are matched case-insensitively; the accept key is the
//! base64 of the SHA-1 digest of the client's key joined to the fixed
//! GUID the protocol prescribes.

use base64::Engine;
use sha1::Digest;
use vstd::prelude::*;

use crate::message::copy_bytes;

verus! {

/// A handshake violation: fatal before any frame traffic is accepted.
#[derive(Clone, Copy, Debug, PartialEq, Eq, Structural)]
pub enum HandshakeError {
    /// The request does not begin with a GET request line.
    BadRequestLine,
    /// No `Upgrade: websocket` header.
    MissingUpgrade,
    /// No `Connection: Upgrade` header.
    MissingConnection,
    /// No `Sec-WebSocket-Version: 13` header.
    MissingVersion,
    /// No `Sec-WebSocket-Key` header.
    MissingKey,
    /// The response status line is not the expected 101.
    BadStatus,
    /// No `Sec-WebSocket-Accept` header, or one that does not match the
    /// key it answers.
    AcceptMismatch,
}

/// The bytes of one line ending.
pub open spec fn crlf() -> Seq<u8> {
    Seq::<u8>::empty().push(13).push(10)
}

/// Executable mirror of `crlf`.
fn crlf_vec() -> (r: Vec<u8>)
    ensures
        r@ == crlf(),
{
    let mut v: Vec<u8> = Vec::new();
    v.push(13);
    v.push(10);
    proof {
        assert(v@ =~= crlf());
    }
    v
}

/// The bytes of the blank line ending an HTTP head.
pub open spec fn crlfcrlf() -> Seq<u8> {
    Seq::<u8>::empty().push(13).push(10).push(13).push(10)
}

/// Executable mirror of `crlfcrlf`.
fn crlfcrlf_vec() -> (r: Vec<u8>)
    ensures
        r@ == crlfcrlf(),
{
    let mut v: Vec<u8> = Vec::new();
    v.push(13);
    v.push(10);
    v.push(13);
    v.push(10);
    proof {
        assert(v@ =~= crlfcrlf());
    }
    v
}

/// The bytes of the GET method and its space.
pub open spec fn get_sp() -> Seq<u8> {
    Seq::<u8>::empty().push(71).push(69).push(84).push(32)
}

/// Executable mirror of `get_sp`.
fn get_sp_vec() -> (r: Vec<u8>)
    ensures
        r@ == get_sp(),
{
    let mut v: Vec<u8> = Vec::new();
    v.push(71);
    v.push(69);
    v.push(84);
    v.push(32);
    proof {
        assert(v@ =~= get_sp());
    }
    v
}

/// The bytes of the status line prefix announcing the upgrade.
pub open spec fn status_101() -> Seq<u8> {
    Seq::<u8>::empty().push(72).push(84).push(84).push(80).push(47).push(49).push(46).push(49).push(32).push(49).push(48).push(49).push(32)
}

/// Executable mirror of `status_101`.
fn status_101_vec() -> (r: Vec<u8>)
    ensures
        r@ == status_101(),
{
    let mut v: Vec<u8> = Vec::new();
    v.push(72);
    v.push(84);
    v.push(84);
    v.push(80);
    v.push(47);
    v.push(49);
    v.push(46);
    v.push(49);
    v.push(32);
    v.push(49);
    v.push(48);
    v.push(49);
    v.push(32);
    proof {
        assert(v@ =~= status_101());
    }
    v
}

/// The bytes of the upgrade header line, lower case.
pub open spec fn upgrade_line() -> Seq<u8> {
    Seq::<u8>::empty().push(13).push(10).push(117).push(112).push(103).push(114).push(97).push(100).push(101).push(58).push(32).push(119).push(101).push(98).push(115).push(111).push(99).push(107).push(101).push(116).push(13).push(10)
}

/// Executable mirror of `upgrade_line`.
fn upgrade_line_vec() -> (r: Vec<u8>)
    ensures
        r@ == upgrade_line(),
{
    let mut v: Vec<u8> = Vec::new();
    v.push(13);
    v.push(10);
    v.push(117);
    v.push(112);
    v.push(103);
    v.push(114);
    v.push(97);
    v.push(100);
    v.push(101);
    v.push(58);
    v.push(32);
    v.push(119);
    v.push(101);
    v.push(98);
    v.push(115);
    v.push(111);
    v.push(99);
    v.push(107);
    v.push(101);
    v.push(116);
    v.push(13);
    v.push(10);
    proof {
        assert(v@ =~= upgrade_line());
    }
    v
}

/// The bytes of the connection header line, lower case.
pub open spec fn connection_line() -> Seq<u8> {
    Seq::<u8>::empty().push(13).push(10).push(99).push(111).push(110).push(110).push(101).push(99).push(116).push(105).push(111).push(110).push(58).push(32).push(117).push(112).push(103).push(114).push(97).push(100).push(101).push(13).push(10)
}

/// Executable mirror of `connection_line`.
fn connection_line_vec() -> (r: Vec<u8>)
    ensures
        r@ == connection_line(),
{
    let mut v: Vec<u8> = Vec::new();
    v.push(13);
    v.push(10);
    v.push(99);
    v.push(111);
    v.push(110);
    v.push(110);
    v.push(101);
    v.push(99);
    v.push(116);
    v.push(105);
    v.push(111);
    v.push(110);
    v.push(58);
    v.push(32);
    v.push(117);
    v.push(112);
    v.push(103);
    v.push(114);
    v.push(97);
    v.push(100);
    v.push(101);
    v.push(13);
    v.push(10);
    proof {
        assert(v@ =~= connection_line());
    }
    v
}

/// The bytes of the protocol version header line, lower case.
pub open spec fn version_line() -> Seq<u8> {
    Seq::<u8>::empty().push(13).push(10).push(115).push(101).push(99).push(45).push(119).push(101).push(98).push(115).push(111).push(99).push(107).push(101).push(116).push(45).push(118).push(101).push(114).push(115).push(105).push(111).push(110).push(58).push(32).push(49).push(51).push(13).push(10)
}

/// Executable mirror of `version_line`.
fn version_line_vec() -> (r: Vec<u8>)
    ensures
        r@ == version_line(),
{
    let mut v: Vec<u8> = Vec::new();
    v.push(13);
    v.push(10);
    v.push(115);
    v.push(101);
    v.push(99);
    v.push(45);
    v.push(119);
    v.push(101);
    v.push(98);
    v.push(115);
    v.push(111);
    v.push(99);
    v.push(107);
    v.push(101);
    v.push(116);
    v.push(45);
    v.push(118);
    v.push(101);
    v.push(114);
    v.push(115);
    v.push(105);
    v.push(111);
    v.push(110);
    v.push(58);
    v.push(32);
    v.push(49);
    v.push(51);
    v.push(13);
    v.push(10);
    proof {
        assert(v@ =~= version_line());
    }
    v
}

/// The bytes of the key header name, lower case, up to its value.
pub open spec fn key_prefix() -> Seq<u8> {
    Seq::<u8>::empty().push(13).push(10).push(115).push(101).push(99).push(45).push(119).push(101).push(98).push(115).push(111).push(99).push(107).push(101).push(116).push(45).push(107).push(101).push(121).push(58).push(32)
}

/// Executable mirror of `key_prefix`.
fn key_prefix_vec() -> (r: Vec<u8>)
    ensures
        r@ == key_prefix(),
{
    let mut v: Vec<u8> = Vec::new();
    v.push(13);
    v.push(10);
    v.push(115);
    v.push(101);
    v.push(99);
    v.push(45);
    v.push(119);
    v.push(101);
    v.push(98);
    v.push(115);
    v.push(111);
    v.push(99);
    v.push(107);
    v.push(101);
    v.push(116);
    v.push(45);
    v.push(107);
    v.push(101);
    v.push(121);
    v.push(58);
    v.push(32);
    proof {
        assert(v@ =~= key_prefix());
    }
    v
}

/// The bytes of the accept header name, lower case, up to its value.
pub open spec fn accept_prefix() -> Seq<u8> {
    Seq::<u8>::empty().push(13).push(10).push(115).push(101).push(99).push(45).push(119).push(101).push(98).push(115).push(111).push(99).push(107).push(101).push(116).push(45).push(97).push(99).push(99).push(101).push(112).push(116).push(58).push(32)
}

/// Executable mirror of `accept_prefix`.
fn accept_prefix_vec() -> (r: Vec<u8>)
    ensures
        r@ == accept_prefix(),
{
    let mut v: Vec<u8> = Vec::new();
    v.push(13);
    v.push(10);
    v.push(115);
    v.push(101);
    v.push(99);
    v.push(45);
    v.push(119);
    v.push(101);
    v.push(98);
    v.push(115);
    v.push(111);
    v.push(99);
    v.push(107);
    v.push(101);
    v.push(116);
    v.push(45);
    v.push(97);
    v.push(99);
    v.push(99);
    v.push(101);
    v.push(112);
    v.push(116);
    v.push(58);
    v.push(32);
    proof {
        assert(v@ =~= accept_prefix());
    }
    v
}

/// The bytes of the fixed GUID every accept key hashes in.
pub open spec fn guid() -> Seq<u8> {
    Seq::<u8>::empty().push(50).push(53).push(56).push(69).push(65).push(70).push(65).push(53).push(45).push(69).push(57).push(49).push(52).push(45).push(52).push(55).push(68).push(65).push(45).push(57).push(53).push(67).push(65).push(45).push(67).push(53).push(65).push(66).push(48).push(68).push(67).push(56).push(53).push(66).push(49).push(49)
}

/// Executable mirror of `guid`.
fn guid_vec() -> (r: Vec<u8>)
    ensures
        r@ == guid(),
{
    let mut v: Vec<u8> = Vec::new();
    v.push(50);
    v.push(53);
    v.push(56);
    v.push(69);
    v.push(65);
    v.push(70);
    v.push(65);
    v.push(53);
    v.push(45);
    v.push(69);
    v.push(57);
    v.push(49);
    v.push(52);
    v.push(45);
    v.push(52);
    v.push(55);
    v.push(68);
    v.push(65);
    v.push(45);
    v.push(57);
    v.push(53);
    v.push(67);
    v.push(65);
    v.push(45);
    v.push(67);
    v.push(53);
    v.push(65);
    v.push(66);
    v.push(48);
    v.push(68);
    v.push(67);
    v.push(56);
    v.push(53);
    v.push(66);
    v.push(49);
    v.push(49);
    proof {
        assert(v@ =~= guid());
    }
    v
}

/// The bytes of the request line tail and the host header name.
pub open spec fn req_mid1() -> Seq<u8> {
    Seq::<u8>::empty().push(32).push(72).push(84).push(84).push(80).push(47).push(49).push(46).push(49).push(13).push(10).push(72).push(111).push(115).push(116).push(58).push(32)
}

/// Executable mirror of `req_mid1`.
fn req_mid1_vec() -> (r: Vec<u8>)
    ensures
        r@ == req_mid1(),
{
    let mut v: Vec<u8> = Vec::new();
    v.push(32);
    v.push(72);
    v.push(84);
    v.push(84);
    v.push(80);
    v.push(47);
    v.push(49);
    v.push(46);
    v.push(49);
    v.push(13);
    v.push(10);
    v.push(72);
    v.push(111);
    v.push(115);
    v.push(116);
    v.push(58);
    v.push(32);
    proof {
        assert(v@ =~= req_mid1());
    }
    v
}

/// The bytes of the fixed request headers up to the key value.
pub open spec fn req_mid2() -> Seq<u8> {
    Seq::<u8>::empty().push(13).push(10).push(85).push(112).push(103).push(114).push(97).push(100).push(101).push(58).push(32).push(119).push(101).push(98).push(115).push(111).push(99).push(107).push(101).push(116).push(13).push(10).push(67).push(111).push(110).push(110).push(101).push(99).push(116).push(105).push(111).push(110).push(58).push(32).push(85).push(112).push(103).push(114).push(97).push(100).push(101).push(13).push(10).push(83).push(101).push(99).push(45).push(87).push(101).push(98).push(83).push(111).push(99).push(107).push(101).push(116).push(45).push(75).push(101).push(121).push(58).push(32)
}

/// Executable mirror of `req_mid2`.
fn req_mid2_vec() -> (r: Vec<u8>)
    ensures
        r@ == req_mid2(),
{
    let mut v: Vec<u8> = Vec::new();
    v.push(13);
    v.push(10);
    v.push(85);
    v.push(112);
    v.push(103);
    v.push(114);
    v.push(97);
    v.push(100);
    v.push(101);
    v.push(58);
    v.push(32);
    v.push(119);
    v.push(101);
    v.push(98);
    v.push(115);
    v.push(111);
    v.push(99);
    v.push(107);
    v.push(101);
    v.push(116);
    v.push(13);
    v.push(10);
    v.push(67);
    v.push(111);
    v.push(110);
    v.push(110);
    v.push(101);
    v.push(99);
    v.push(116);
    v.push(105);
    v.push(111);
    v.push(110);
    v.push(58);
    v.push(32);
    v.push(85);
    v.push(112);
    v.push(103);
    v.push(114);
    v.push(97);
    v.push(100);
    v.push(101);
    v.push(13);
    v.push(10);
    v.push(83);
    v.push(101);
    v.push(99);
    v.push(45);
    v.push(87);
    v.push(101);
    v.push(98);
    v.push(83);
    v.push(111);
    v.push(99);
    v.push(107);
    v.push(101);
    v.push(116);
    v.push(45);
    v.push(75);
    v.push(101);
    v.push(121);
    v.push(58);
    v.push(32);
    proof {
        assert(v@ =~= req_mid2());
    }
    v
}

/// The bytes of the request tail after the key value.
pub open spec fn req_tail() -> Seq<u8> {
    Seq::<u8>::empty().push(13).push(10).push(83).push(101).push(99).push(45).push(87).push(101).push(98).push(83).push(111).push(99).push(107).push(101).push(116).push(45).push(86).push(101).push(114).push(115).push(105).push(111).push(110).push(58).push(32).push(49).push(51).push(13).push(10).push(13).push(10)
}

/// Executable mirror of `req_tail`.
fn req_tail_vec() -> (r: Vec<u8>)
    ensures
        r@ == req_tail(),
{
    let mut v: Vec<u8> = Vec::new();
    v.push(13);
    v.push(10);
    v.push(83);
    v.push(101);
    v.push(99);
    v.push(45);
    v.push(87);
    v.push(101);
    v.push(98);
    v.push(83);
    v.push(111);
    v.push(99);
    v.push(107);
    v.push(101);
    v.push(116);
    v.push(45);
    v.push(86);
    v.push(101);
    v.push(114);
    v.push(115);
    v.push(105);
    v.push(111);
    v.push(110);
    v.push(58);
    v.push(32);
    v.push(49);
    v.push(51);
    v.push(13);
    v.push(10);
    v.push(13);
    v.push(10);
    proof {
        assert(v@ =~= req_tail());
    }
    v
}

/// The bytes of the fixed response head up to the accept value.
pub open spec fn resp_head() -> Seq<u8> {
    Seq::<u8>::empty().push(72).push(84).push(84).push(80).push(47).push(49).push(46).push(49).push(32).push(49).push(48).push(49).push(32).push(83).push(119).push(105).push(116).push(99).push(104).push(105).push(110).push(103).push(32).push(80).push(114).push(111).push(116).push(111).push(99).push(111).push(108).push(115).push(13).push(10).push(85).push(112).push(103).push(114).push(97).push(100).push(101).push(58).push(32).push(119).push(101).push(98).push(115).push(111).push(99).push(107).push(101).push(116).push(13).push(10).push(67).push(111).push(110).push(110).push(101).push(99).push(116).push(105).push(111).push(110).push(58).push(32).push(85).push(112).push(103).push(114).push(97).push(100).push(101).push(13).push(10).push(83).push(101).push(99).push(45).push(87).push(101).push(98).push(83).push(111).push(99).push(107).push(101).push(116).push(45).push(65).push(99).push(99).push(101).push(112).push(116).push(58).push(32)
}

/// Executable mirror of `resp_head`.
fn resp_head_vec() -> (r: Vec<u8>)
    ensures
        r@ == resp_head(),
{
    let mut v: Vec<u8> = Vec::new();
    v.push(72);
    v.push(84);
    v.push(84);
    v.push(80);
    v.push(47);
    v.push(49);
    v.push(46);
    v.push(49);
    v.push(32);
    v.push(49);
    v.push(48);
    v.push(49);
    v.push(32);
    v.push(83);
    v.push(119);
    v.push(105);
    v.push(116);
    v.push(99);
    v.push(104);
    v.push(105);
    v.push(110);
    v.push(103);
    v.push(32);
    v.push(80);
    v.push(114);
    v.push(111);
    v.push(116);
    v.push(111);
    v.push(99);
    v.push(111);
    v.push(108);
    v.push(115);
    v.push(13);
    v.push(10);
    v.push(85);
    v.push(112);
    v.push(103);
    v.push(114);
    v.push(97);
    v.push(100);
    v.push(101);
    v.push(58);
    v.push(32);
    v.push(119);
    v.push(101);
    v.push(98);
    v.push(115);
    v.push(111);
    v.push(99);
    v.push(107);
    v.push(101);
    v.push(116);
    v.push(13);
    v.push(10);
    v.push(67);
    v.push(111);
    v.push(110);
    v.push(110);
    v.push(101);
    v.push(99);
    v.push(116);
    v.push(105);
    v.push(111);
    v.push(110);
    v.push(58);
    v.push(32);
    v.push(85);
    v.push(112);
    v.push(103);
    v.push(114);
    v.push(97);
    v.push(100);
    v.push(101);
    v.push(13);
    v.push(10);
    v.push(83);
    v.push(101);
    v.push(99);
    v.push(45);
    v.push(87);
    v.push(101);
    v.push(98);
    v.push(83);
    v.push(111);
    v.push(99);
    v.push(107);
    v.push(101);
    v.push(116);
    v.push(45);
    v.push(65);
    v.push(99);
    v.push(99);
    v.push(101);
    v.push(112);
    v.push(116);
    v.push(58);
    v.push(32);
    proof {
        assert(v@ =~= resp_head());
    }
    v
}

/// The bytes of the response tail after the accept value.
pub open spec fn resp_tail() -> Seq<u8> {
    Seq::<u8>::empty().push(13).push(10).push(13).push(10)
}

/// Executable mirror of `resp_tail`.
fn resp_tail_vec() -> (r: Vec<u8>)
    ensures
        r@ == resp_tail(),
{
    let mut v: Vec<u8> = Vec::new();
    v.push(13);
    v.push(10);
    v.push(13);
    v.push(10);
    proof {
        assert(v@ =~= resp_tail());
    }
    v
}

/// The digest the outside hasher computes: a function of the input
/// bytes alone.
pub uninterp spec fn sha1_of(data: Seq<u8>) -> Seq<u8>;

/// Relies on sha1's `Sha1` hasher through the `Digest` trait: the
/// 20-byte SHA-1 digest of the input, a function of the input alone.
#[verifier::external_body]
fn sha1_digest(data: &Vec<u8>) -> (r: Vec<u8>)
    ensures
        r@ == sha1_of(data@),
        r@.len() == 20,
{
    let mut h = sha1::Sha1::new();
    h.update(data.as_slice());
    h.finalize().to_vec()
}

/// The base64 text the outside encoder produces: a function of the
/// input bytes alone.
pub uninterp spec fn base64_of(data: Seq<u8>) -> Seq<u8>;

/// Relies on base64's `STANDARD` engine: padded base64 of the input,
/// a function of the input alone.
#[verifier::external_body]
fn base64_encode(data: &Vec<u8>) -> (r: Vec<u8>)
    ensures
        r@ == base64_of(data@),
{
    base64::engine::general_purpose::STANDARD.encode(data.as_slice()).into_bytes()
}

/// Relies on rand's `random`: sixteen bytes from the thread-local
/// generator; nothing is promised of their values.
#[verifier::external_body]
fn random_nonce() -> (r: Vec<u8>)
    ensures
        r@.len() == 16,
{
    let bytes: [u8; 16] = rand::random();
    bytes.to_vec()
}

/// The accept key a given client key is owed: base64 of the SHA-1 of
/// the key joined to the fixed GUID.
pub open spec fn accept_of(key: Seq<u8>) -> Seq<u8> {
    base64_of(sha1_of(key + guid()))
}

/// Compute the Sec-WebSocket-Accept value for a client key.
pub fn derive_accept_key(key: &Vec<u8>) -> (r: Vec<u8>)
    ensures
        r@ == accept_of(key@),
{
    let mut input = copy_bytes(key);
    let mut g = guid_vec();
    input.append(&mut g);
    let digest = sha1_digest(&input);
    base64_encode(&digest)
}

/// A fresh Sec-WebSocket-Key: base64 of sixteen random bytes.
pub fn generate_key() -> (r: Vec<u8>)
    ensures
        exists|n: Seq<u8>| n.len() == 16 && r@ == base64_of(n),
{
    let nonce = random_nonce();
    let key = base64_encode(&nonce);
    proof {
        assert(nonce@.len() == 16 && key@ == base64_of(nonce@));
    }
    key
}

/// A byte folded to lower case, ASCII only.
pub open spec fn lower_byte(b: u8) -> u8 {
    if 65 <= b <= 90 {
        (b + 32) as u8
    } else {
        b
    }
}

/// A byte sequence folded to lower case, pointwise.
pub open spec fn lower(s: Seq<u8>) -> Seq<u8> {
    Seq::new(s.len(), |i: int| lower_byte(s[i]))
}

/// Fold a buffer to lower case.
#[verifier::loop_isolation(false)]
pub fn lower_vec(v: &Vec<u8>) -> (r: Vec<u8>)
    ensures
        r@ == lower(v@),
{
    let mut out: Vec<u8> = Vec::new();
    let mut i: usize = 0;
    while i < v.len()
        invariant
            i <= v.len(),
            out@.len() == i,
            forall|j: int| 0 <= j < i ==> out@[j] == lower_byte(v@[j]),
        decreases v.len() - i,
    {
        let b = v[i];
        if 65 <= b && b <= 90 {
            out.push(b + 32);
        } else {
            out.push(b);
        }
        i = i + 1;
    }
    proof {
        assert(out@ =~= lower(v@));
    }
    out
}

/// The first position at or after `i` where `pat` occurs in `s`.
pub open spec fn find_from(s: Seq<u8>, pat: Seq<u8>, i: int) -> Option<int>
    decreases s.len() - i,
{
    if i < 0 || i + pat.len() > s.len() {
        None
    } else if pat.len() == 0 {
        Some(i)
    } else if s.subrange(i, i + pat.len()) == pat {
        Some(i)
    } else {
        find_from(s, pat, i + 1)
    }
}

/// A found position is at or after where the search began, so the value
/// a header name introduces never starts before the name ends.
proof fn lemma_find_from_ge(s: Seq<u8>, pat: Seq<u8>, i: int)
    ensures
        match find_from(s, pat, i) {
            Some(j) => j >= i,
            None => true,
        },
    decreases s.len() - i,
{
    if i < 0 || i + pat.len() > s.len() {
    } else if pat.len() == 0 {
    } else if s.subrange(i, i + pat.len()) == pat {
    } else {
        lemma_find_from_ge(s, pat, i + 1);
    }
}

/// Whether `pat` stands at position `i` of `buf`.
#[verifier::loop_isolation(false)]
fn eq_at(buf: &Vec<u8>, pat: &Vec<u8>, i: usize) -> (r: bool)
    requires
        i + pat.len() <= buf.len(),
    ensures
        r == (buf@.subrange(i as int, i + pat@.len()) == pat@),
{
    let mut j: usize = 0;
    while j < pat.len()
        invariant
            j <= pat.len(),
            forall|k: int| 0 <= k < j ==> buf@[i + k] == pat@[k],
        decreases pat.len() - j,
    {
        if buf[i + j] != pat[j] {
            proof {
                assert(buf@.subrange(i as int, i + pat@.len())[j as int] != pat@[j as int]);
            }
            return false;
        }
        j = j + 1;
    }
    proof {
        assert(buf@.subrange(i as int, i + pat@.len()) =~= pat@);
    }
    true
}

/// Find the first occurrence of `pat` in `buf` at or after `from`.
#[verifier::loop_isolation(false)]
fn find_sub(buf: &Vec<u8>, pat: &Vec<u8>, from: usize) -> (r: Option<usize>)
    ensures
        match r {
            Some(j) => find_from(buf@, pat@, from as int) == Some(j as int) && j + pat@.len()
                <= buf@.len(),
            None => find_from(buf@, pat@, from as int) is None,
        },
{
    if from > buf.len() {
        return None;
    }
    if pat.len() == 0 {
        return Some(from);
    }
    if pat.len() > buf.len() {
        return None;
    }
    let last: usize = buf.len() - pat.len();
    if from > last {
        return None;
    }
    let mut i: usize = from;
    while i <= last
        invariant
            from <= i <= last + 1,
            find_from(buf@, pat@, from as int) == find_from(buf@, pat@, i as int),
        decreases last + 1 - i,
    {
        if eq_at(buf, pat, i) {
            return Some(i);
        }
        i = i + 1;
    }
    None
}

/// An exact copy of `v[start..end]`.
#[verifier::loop_isolation(false)]
pub fn copy_range(v: &Vec<u8>, start: usize, end: usize) -> (r: Vec<u8>)
    requires
        start <= end <= v.len(),
    ensures
        r@ == v@.subrange(start as int, end as int),
{
    let mut out: Vec<u8> = Vec::new();
    let mut i: usize = start;
    while i < end
        invariant
            start <= i <= end,
            out@ == v@.subrange(start as int, i as int),
        decreases end - i,
    {
        out.push(v[i]);
        i = i + 1;
        proof {
            assert(out@ =~= v@.subrange(start as int, i as int));
        }
    }
    out
}

/// Whether two buffers hold the same bytes.
#[verifier::loop_isolation(false)]
pub fn bytes_eq(a: &Vec<u8>, b: &Vec<u8>) -> (r: bool)
    ensures
        r == (a@ == b@),
{
    if a.len() != b.len() {
        return false;
    }
    let mut i: usize = 0;
    while i < a.len()
        invariant
            i <= a.len(),
            a@.len() == b@.len(),
            forall|k: int| 0 <= k < i ==> a@[k] == b@[k],
        decreases a.len() - i,
    {
        if a[i] != b[i] {
            return false;
        }
        i = i + 1;
    }
    proof {
        assert(a@ =~= b@);
    }
    true
}

/// What parsing an upgrade request yields, mathematically: more bytes
/// needed, a violation, or the client's key and the bytes consumed.
#[verifier::ext_equal]
pub enum RequestView {
    Incomplete,
    Invalid(HandshakeError),
    Valid(Seq<u8>, int),
}

/// One whole parse of a client upgrade request: the head up to the
/// blank line, the GET request line, the three required headers, and
/// the key value.
pub open spec fn parse_request_spec(buf: Seq<u8>) -> RequestView {
    match find_from(buf, crlfcrlf(), 0) {
        None => RequestView::Incomplete,
        Some(t) => {
            let head = buf.subrange(0, t + 4);
            let lh = lower(head);
            if head.subrange(0, 4) != get_sp() {
                RequestView::Invalid(HandshakeError::BadRequestLine)
            } else if find_from(lh, upgrade_line(), 0) is None {
                RequestView::Invalid(HandshakeError::MissingUpgrade)
            } else if find_from(lh, connection_line(), 0) is None {
                RequestView::Invalid(HandshakeError::MissingConnection)
            } else if find_from(lh, version_line(), 0) is None {
                RequestView::Invalid(HandshakeError::MissingVersion)
            } else {
                match find_from(lh, key_prefix(), 0) {
                    None => RequestView::Invalid(HandshakeError::MissingKey),
                    Some(i) => {
                        let vs = i + key_prefix().len();
                        match find_from(lh, crlf(), vs) {
                            None => RequestView::Invalid(HandshakeError::MissingKey),
                            Some(ve) => RequestView::Valid(head.subrange(vs, ve), t + 4),
                        }
                    },
                }
            }
        },
    }
}

/// What a request parse reports.
pub enum RequestParse {
    /// The head is not complete yet: supply more bytes and call again.
    Incomplete,
    /// The request violates the handshake.
    Invalid(HandshakeError),
    /// The client's key, and how many leading bytes the head took.
    Valid(Vec<u8>, usize),
}

impl RequestParse {
    /// The mathematical image of this report.
    pub open spec fn outcome(self) -> RequestView {
        match self {
            RequestParse::Incomplete => RequestView::Incomplete,
            RequestParse::Invalid(e) => RequestView::Invalid(e),
            RequestParse::Valid(k, n) => RequestView::Valid(k@, n as int),
        }
    }
}

/// Parse a client upgrade request from the start of `buf`, without
/// consuming it: validates the request line and the required headers
/// and extracts the Sec-WebSocket-Key value.
pub fn parse_request(buf: &Vec<u8>) -> (r: RequestParse)
    ensures
        r.outcome() == parse_request_spec(buf@),
{
    let terminator = crlfcrlf_vec();
    proof {
        assert(crlfcrlf().len() == 4);
    }
    let t = match find_sub(buf, &terminator, 0) {
        None => {
            return RequestParse::Incomplete;
        },
        Some(t) => t,
    };
    proof {
        assert(t + terminator@.len() <= buf@.len());
        assert(terminator@.len() == 4);
        assert(t + 4 <= buf.len());
    }
    let head = copy_range(buf, 0, t + 4);
    let lh = lower_vec(&head);
    let get = get_sp_vec();
    if !eq_at(&head, &get, 0) {
        return RequestParse::Invalid(HandshakeError::BadRequestLine);
    }
    let upgrade = upgrade_line_vec();
    if find_sub(&lh, &upgrade, 0).is_none() {
        return RequestParse::Invalid(HandshakeError::MissingUpgrade);
    }
    let connection = connection_line_vec();
    if find_sub(&lh, &connection, 0).is_none() {
        return RequestParse::Invalid(HandshakeError::MissingConnection);
    }
    let version = version_line_vec();
    if find_sub(&lh, &version, 0).is_none() {
        return RequestParse::Invalid(HandshakeError::MissingVersion);
    }
    let key_name = key_prefix_vec();
    let i = match find_sub(&lh, &key_name, 0) {
        None => {
            return RequestParse::Invalid(HandshakeError::MissingKey);
        },
        Some(i) => i,
    };
    let vs = i + key_name.len();
    let line_end = crlf_vec();
    let ve = match find_sub(&lh, &line_end, vs) {
        None => {
            return RequestParse::Invalid(HandshakeError::MissingKey);
        },
        Some(ve) => ve,
    };
    proof {
        assert(lh@.len() == head@.len());
        lemma_find_from_ge(lh@, line_end@, vs as int);
    }
    let key = copy_range(&head, vs, ve);
    RequestParse::Valid(key, t + 4)
}

/// What parsing an upgrade response yields, mathematically.
#[verifier::ext_equal]
pub enum ResponseView {
    Incomplete,
    Invalid(HandshakeError),
    Valid(int),
}

/// One whole parse of a server upgrade response against the key the
/// client sent: the 101 status line, the two required headers, and an
/// accept value equal to the one the key is owed.
pub open spec fn parse_response_spec(buf: Seq<u8>, key: Seq<u8>) -> ResponseView {
    match find_from(buf, crlfcrlf(), 0) {
        None => ResponseView::Incomplete,
        Some(t) => {
            let head = buf.subrange(0, t + 4);
            let lh = lower(head);
            if head.len() < 13 || head.subrange(0, 13) != status_101() {
                ResponseView::Invalid(HandshakeError::BadStatus)
            } else if find_from(lh, upgrade_line(), 0) is None {
                ResponseView::Invalid(HandshakeError::MissingUpgrade)
            } else if find_from(lh, connection_line(), 0) is None {
                ResponseView::Invalid(HandshakeError::MissingConnection)
            } else {
                match find_from(lh, accept_prefix(), 0) {
                    None => ResponseView::Invalid(HandshakeError::AcceptMismatch),
                    Some(i) => {
                        let vs = i + accept_prefix().len();
                        match find_from(lh, crlf(), vs) {
                            None => ResponseView::Invalid(HandshakeError::AcceptMismatch),
                            Some(ve) => {
                                if head.subrange(vs, ve) == accept_of(key) {
                                    ResponseView::Valid(t + 4)
                                } else {
                                    ResponseView::Invalid(HandshakeError::AcceptMismatch)
                                }
                            },
                        }
                    },
                }
            }
        },
    }
}

/// What a response parse reports.
pub enum ResponseParse {
    /// The head is not complete yet.
    Incomplete,
    /// The response violates the handshake.
    Invalid(HandshakeError),
    /// The upgrade succeeded; how many leading bytes the head took.
    Valid(usize),
}

impl ResponseParse {
    /// The mathematical image of this report.
    pub open spec fn outcome(self) -> ResponseView {
        match self {
            ResponseParse::Incomplete => ResponseView::Incomplete,
            ResponseParse::Invalid(e) => ResponseView::Invalid(e),
            ResponseParse::Valid(n) => ResponseView::Valid(n as int),
        }
    }
}

/// Parse a server upgrade response from the start of `buf`, verifying
/// status 101, the required headers, and that the accept value matches
/// the key this client sent.
pub fn parse_response(buf: &Vec<u8>, key: &Vec<u8>) -> (r: ResponseParse)
    ensures
        r.outcome() == parse_response_spec(buf@, key@),
{
    let terminator = crlfcrlf_vec();
    proof {
        assert(crlfcrlf().len() == 4);
    }
    let t = match find_sub(buf, &terminator, 0) {
        None => {
            return ResponseParse::Incomplete;
        },
        Some(t) => t,
    };
    proof {
        assert(t + terminator@.len() <= buf@.len());
        assert(terminator@.len() == 4);
        assert(t + 4 <= buf.len());
    }
    let head = copy_range(buf, 0, t + 4);
    let lh = lower_vec(&head);
    let status = status_101_vec();
    if head.len() < 13 || !eq_at(&head, &status, 0) {
        return ResponseParse::Invalid(HandshakeError::BadStatus);
    }
    let upgrade = upgrade_line_vec();
    if find_sub(&lh, &upgrade, 0).is_none() {
        return ResponseParse::Invalid(HandshakeError::MissingUpgrade);
    }
    let connection = connection_line_vec();
    if find_sub(&lh, &connection, 0).is_none() {
        return ResponseParse::Invalid(HandshakeError::MissingConnection);
    }
    let accept_name = accept_prefix_vec();
    let i = match find_sub(&lh, &accept_name, 0) {
        None => {
            return ResponseParse::Invalid(HandshakeError::AcceptMismatch);
        },
        Some(i) => i,
    };
    let vs = i + accept_name.len();
    let line_end = crlf_vec();
    let ve = match find_sub(&lh, &line_end, vs) {
        None => {
            return ResponseParse::Invalid(HandshakeError::AcceptMismatch);
        },
        Some(ve) => ve,
    };
    proof {
        assert(lh@.len() == head@.len());
        lemma_find_from_ge(lh@, line_end@, vs as int);
    }
    let got = copy_range(&head, vs, ve);
    let expected = derive_accept_key(key);
    if bytes_eq(&got, &expected) {
        ResponseParse::Valid(t + 4)
    } else {
        ResponseParse::Invalid(HandshakeError::AcceptMismatch)
    }
}

/// The wire image of a client upgrade request for a path, a host and a
/// key.
pub open spec fn request_bytes(path: Seq<u8>, host: Seq<u8>, key: Seq<u8>) -> Seq<u8> {
    get_sp() + path + req_mid1() + host + req_mid2() + key + req_tail()
}

/// Serialize a client upgrade request.
pub fn build_request(path: &Vec<u8>, host: &Vec<u8>, key: &Vec<u8>) -> (r: Vec<u8>)
    ensures
        r@ == request_bytes(path@, host@, key@),
{
    let mut out = get_sp_vec();
    let mut p = copy_bytes(path);
    out.append(&mut p);
    let mut m1 = req_mid1_vec();
    out.append(&mut m1);
    let mut h = copy_bytes(host);
    out.append(&mut h);
    let mut m2 = req_mid2_vec();
    out.append(&mut m2);
    let mut k = copy_bytes(key);
    out.append(&mut k);
    let mut tail = req_tail_vec();
    out.append(&mut tail);
    out
}

/// The wire image of the server's upgrade response to a client key.
pub open spec fn response_bytes(key: Seq<u8>) -> Seq<u8> {
    resp_head() + accept_of(key) + resp_tail()
}

/// Serialize the server's upgrade response for a client key: status
/// 101, the required headers, and the accept value the key is owed.
pub fn build_response(key: &Vec<u8>) -> (r: Vec<u8>)
    ensures
        r@ == response_bytes(key@),
{
    let mut out = resp_head_vec();
    let mut accept = derive_accept_key(key);
    out.append(&mut accept);
    let mut tail = resp_tail_vec();
    out.append(&mut tail);
    out
}

} // verus!
