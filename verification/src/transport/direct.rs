//! The datagrams with which a direct path to the camera is opened, and the commands that sign it.
use vstd::prelude::*;
use vstd::slice::slice_subrange;
use vstd::string::StringExecFns;

use crate::bytes::{push_bytes, push_zeros};
use crate::error::{invalid, invalid_data, Error};
use crate::text::{
    dec, digits_value, parse_number, parse_uint, push_dec, split, split_at_char, texts, to_chars,
};
use crate::transport::ptcp::{zeros, Body, PTCPBody};

verus! {

/// The value of some decimal digits, if there are any and it is at most `max`.
pub open spec fn plain_number(s: Seq<char>, max: nat) -> Option<nat> {
    if s.len() == 0 {
        None
    } else {
        match digits_value(s, 0, max) {
            Ok(n) => Some(n),
            Err(_) => None,
        }
    }
}

/// One number of an IPv4 address: at most three digits, without leading zeros.
pub open spec fn octet_of(s: Seq<char>) -> Option<u8> {
    if s.len() > 3 || (s.len() > 1 && s[0] == '0') {
        None
    } else {
        match plain_number(s, 0xff) {
            Some(n) => Some(n as u8),
            None => None,
        }
    }
}

/// The IPv4 address and the port in `a.b.c.d:port`.
pub open spec fn socket_addr_of(text: Seq<char>) -> Option<(Seq<u8>, u16)> {
    let sides = split(text, ':');
    if sides.len() != 2 {
        None
    } else {
        let parts = split(sides[0], '.');
        if parts.len() != 4 {
            None
        } else {
            match (
                octet_of(parts[0]),
                octet_of(parts[1]),
                octet_of(parts[2]),
                octet_of(parts[3]),
                plain_number(sides[1], 0xffff),
            ) {
                (Some(a), Some(b), Some(c), Some(d), Some(port)) => Some(
                    (seq![a, b, c, d], port as u16),
                ),
                _ => None,
            }
        }
    }
}

/// The bytes with every bit inverted.
pub open spec fn inverted(d: Seq<u8>) -> Seq<u8> {
    d.map_values(|b: u8| (255 - b) as u8)
}

/// An address as the camera reads it: the port and the address, with every bit inverted.
pub open spec fn addr_wire(ip: Seq<u8>, port: u16) -> Seq<u8> {
    inverted(seq![(port / 0x100) as u8, (port % 0x100) as u8] + ip)
}

/// What is said of a text that is no address.
pub open spec fn bad_addr_text(text: Seq<char>) -> Seq<char> {
    "invalid address '"@ + text + "': invalid IPv4 socket address syntax"@
}

fn parse_plain(s: &str, max: u32) -> (r: Option<u32>)
    ensures
        match r {
            Some(n) => plain_number(s@, max as nat) == Some(n as nat) && n <= max,
            None => plain_number(s@, max as nat) is None,
        },
{
    let v = to_chars(s);
    if v.len() == 0 {
        return None;
    }
    if v[0] == '+' {
        return None;
    }
    assert(parse_uint(s@, max as nat) == digits_value(s@, 0, max as nat));
    match parse_number(v.as_slice(), max) {
        Ok(n) => Some(n),
        Err(_) => None,
    }
}

fn parse_octet(s: &str) -> (r: Option<u8>)
    ensures
        r == octet_of(s@),
{
    let v = to_chars(s);
    if v.len() > 3 || (v.len() > 1 && v[0] == '0') {
        return None;
    }
    match parse_plain(s, 0xff) {
        Some(n) => Some(n as u8),
        None => None,
    }
}

/// The IPv4 address and the port in `a.b.c.d:port`.
pub fn parse_socket_addr(text: &str) -> (r: Option<([u8; 4], u16)>)
    ensures
        match r {
            Some(a) => socket_addr_of(text@) == Some((a.0@, a.1)),
            None => socket_addr_of(text@) is None,
        },
{
    let chars = to_chars(text);
    let sides = split_at_char(chars.as_slice(), ':');
    assert(texts(sides@).len() == sides@.len());
    if sides.len() != 2 {
        return None;
    }
    assert(split(text@, ':')[0] == sides@[0]@ && split(text@, ':')[1] == sides@[1]@);
    let ip_chars = to_chars(sides[0].as_str());
    let parts = split_at_char(ip_chars.as_slice(), '.');
    assert(texts(parts@).len() == parts@.len());
    if parts.len() != 4 {
        return None;
    }
    let ghost ps = split(sides@[0]@, '.');
    assert(ps[0] == parts@[0]@ && ps[1] == parts@[1]@ && ps[2] == parts@[2]@ && ps[3]
        == parts@[3]@);
    match (
        parse_octet(parts[0].as_str()),
        parse_octet(parts[1].as_str()),
        parse_octet(parts[2].as_str()),
        parse_octet(parts[3].as_str()),
        parse_plain(sides[1].as_str(), 0xffff),
    ) {
        (Some(a), Some(b), Some(c), Some(d), Some(port)) => {
            let ip: [u8; 4] = [a, b, c, d];
            assert(ip@ =~= seq![a, b, c, d]);
            Some((ip, port as u16))
        },
        _ => None,
    }
}

/// Appends the bytes with every bit inverted.
fn push_inverted(v: &mut Vec<u8>, d: &[u8])
    ensures
        final(v)@ == old(v)@ + inverted(d@),
{
    let ghost before = v@;
    let mut i: usize = 0;
    assert(inverted(d@).take(0) =~= Seq::empty());
    while i < d.len()
        invariant
            i <= d.len(),
            before == old(v)@,
            v@ == before + inverted(d@).take(i as int),
        decreases d.len() - i,
    {
        v.push(255 - d[i]);
        assert(inverted(d@).take(i + 1) =~= inverted(d@).take(i as int).push(
            inverted(d@)[i as int],
        ));
        i = i + 1;
    }
    assert(inverted(d@).take(i as int) =~= inverted(d@));
}

/// An address as the camera reads it.
pub fn ip_to_bytes(ip: &str) -> (r: Result<Vec<u8>, Error>)
    ensures
        match socket_addr_of(ip@) {
            Some(a) => r is Ok && r->Ok_0@ == addr_wire(a.0, a.1),
            None => r is Err && r->Err_0@ == invalid(bad_addr_text(ip@)),
        },
{
    match parse_socket_addr(ip) {
        Some((octets, port)) => {
            let mut plain: Vec<u8> = Vec::new();
            plain.push((port / 0x100) as u8);
            plain.push((port % 0x100) as u8);
            push_bytes(&mut plain, octets.as_slice());
            assert(plain@ =~= seq![(port / 0x100) as u8, (port % 0x100) as u8] + octets@);
            let mut v: Vec<u8> = Vec::new();
            push_inverted(&mut v, plain.as_slice());
            assert(v@ =~= inverted(plain@));
            Ok(v)
        },
        None => {
            let mut m = String::new();
            m.append("invalid address '");
            m.append(ip);
            m.append("': invalid IPv4 socket address syntax");
            Err(invalid_data(m))
        },
    }
}

/// The datagram that opens the path to the camera.
pub open spec fn hello_wire(
    cookie: Seq<u8>,
    trans_id: Seq<u8>,
    cid: Seq<u8>,
    addr: Seq<u8>,
) -> Seq<u8> {
    seq![0xffu8, 0xfe, 0xff, 0xe7] + cookie + trans_id + seq![0x7fu8, 0xd5, 0xff, 0xf7] + inverted(
        cid,
    ) + seq![0xffu8, 0xfb, 0xff, 0xf7, 0xff, 0xfe] + addr
}

/// The datagram that confirms the path, with the camera's own transaction number.
pub open spec fn confirm_wire(
    cookie: Seq<u8>,
    trans_id: Seq<u8>,
    cid: Seq<u8>,
    addr: Seq<u8>,
) -> Seq<u8> {
    seq![0xfeu8, 0xfe, 0xff, 0xe7] + cookie + trans_id + seq![0x7fu8, 0xd6, 0xff, 0xf7] + inverted(
        cid,
    ) + seq![0xffu8, 0xfb, 0xff, 0xf7, 0xff, 0xfe] + addr
}

fn push_four(v: &mut Vec<u8>, a: u8, b: u8, c: u8, d: u8)
    ensures
        final(v)@ == old(v)@ + seq![a, b, c, d],
{
    v.push(a);
    v.push(b);
    v.push(c);
    v.push(d);
}

/// The datagram that opens the path to the camera.
pub fn hello_datagram(cookie: &[u8], trans_id: &[u8], cid: &[u8], addr: &[u8]) -> (v: Vec<u8>)
    ensures
        v@ == hello_wire(cookie@, trans_id@, cid@, addr@),
{
    let mut v: Vec<u8> = Vec::new();
    push_four(&mut v, 0xff, 0xfe, 0xff, 0xe7);
    push_bytes(&mut v, cookie);
    push_bytes(&mut v, trans_id);
    push_four(&mut v, 0x7f, 0xd5, 0xff, 0xf7);
    push_inverted(&mut v, cid);
    push_four(&mut v, 0xff, 0xfb, 0xff, 0xf7);
    v.push(0xff);
    v.push(0xfe);
    push_bytes(&mut v, addr);
    assert(v@ =~= hello_wire(cookie@, trans_id@, cid@, addr@));
    v
}

/// The datagram that confirms the path.
pub fn confirm_datagram(cookie: &[u8], trans_id: &[u8], cid: &[u8], addr: &[u8]) -> (v: Vec<u8>)
    ensures
        v@ == confirm_wire(cookie@, trans_id@, cid@, addr@),
{
    let mut v: Vec<u8> = Vec::new();
    push_four(&mut v, 0xfe, 0xfe, 0xff, 0xe7);
    push_bytes(&mut v, cookie);
    push_bytes(&mut v, trans_id);
    push_four(&mut v, 0x7f, 0xd6, 0xff, 0xf7);
    push_inverted(&mut v, cid);
    push_four(&mut v, 0xff, 0xfb, 0xff, 0xf7);
    v.push(0xff);
    v.push(0xfe);
    push_bytes(&mut v, addr);
    assert(v@ =~= confirm_wire(cookie@, trans_id@, cid@, addr@));
    v
}

/// A command: its code, eleven zeros, and what it carries.
pub open spec fn command_wire(code: u8, tail: Seq<u8>) -> Seq<u8> {
    seq![code] + zeros(11) + tail
}

/// A command: its code, eleven zeros, and what it carries.
pub fn command(code: u8, tail: &[u8]) -> (b: PTCPBody)
    ensures
        b@ == Body::Command(command_wire(code, tail@)),
{
    let mut v: Vec<u8> = Vec::new();
    v.push(code);
    push_zeros(&mut v, 11);
    push_bytes(&mut v, tail);
    assert(v@ =~= command_wire(code, tail@));
    PTCPBody::Command(v)
}

/// What follows the first `min_len` bytes of a command, or what is wrong with the body.
pub open spec fn tail_of(body: Body, min_len: nat, ctx: Seq<char>) -> Result<Seq<u8>, Seq<char>> {
    match body {
        Body::Command(c) => if c.len() >= min_len {
            Ok(c.skip(min_len as int))
        } else {
            Err(
                ctx + " response too short; expected at least "@ + dec(min_len) + " bytes"@,
            )
        },
        _ => Err("invalid response type for "@ + ctx),
    }
}

/// What follows the first `min_len` bytes of a command.
pub fn command_tail<'a>(body: &'a PTCPBody, min_len: usize, ctx: &str) -> (r: Result<
    &'a [u8],
    Error,
>)
    ensures
        match r {
            Ok(t) => tail_of(body@, min_len as nat, ctx@) == Ok::<Seq<u8>, Seq<char>>(t@),
            Err(e) => tail_of(body@, min_len as nat, ctx@) is Err && e@ == invalid(
                tail_of(body@, min_len as nat, ctx@)->Err_0,
            ),
        },
{
    let mut m = String::new();
    match body {
        PTCPBody::Command(c) => {
            if c.len() >= min_len {
                let t = slice_subrange(c.as_slice(), min_len, c.len());
                assert(t@ =~= c@.skip(min_len as int));
                return Ok(t);
            }
            m.append(ctx);
            m.append(" response too short; expected at least ");
            push_dec(&mut m, min_len as u64);
            m.append(" bytes");
        },
        _ => {
            m.append("invalid response type for ");
            m.append(ctx);
        },
    }
    Err(invalid_data(m))
}

/// Inverting the bits twice gives the bytes back.
pub proof fn law_inverted_twice(d: Seq<u8>)
    ensures
        inverted(inverted(d)) == d,
{
    assert(inverted(inverted(d)) =~= d);
}

} // verus!
