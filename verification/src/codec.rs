use vstd::prelude::*;

use vstd::bytes::{
    lemma_auto_spec_u16_to_from_le_bytes, lemma_auto_spec_u32_to_from_le_bytes,
    spec_u16_from_le_bytes, spec_u16_to_le_bytes, spec_u32_from_le_bytes, spec_u32_to_le_bytes,
    u16_from_le_bytes, u16_to_le_bytes, u32_from_le_bytes, u32_to_le_bytes,
};
use vstd::slice::slice_subrange;
use vstd::string::StrSliceExecFns;
use vstd::utf8::{
    decode_utf8, encode_utf8, encode_utf8_decode_utf8, encode_utf8_valid_utf8, valid_utf8,
};

use crate::action::Action;
use crate::player::Orientation;

verus! {

/// A transport-layer client address: an IPv4 address and a port, held as
/// plain integers so that contracts can speak about it directly.
#[derive(Clone, Copy, Debug, PartialEq, Eq, Hash, Structural)]
pub struct Address {
    pub ip: u32,
    pub port: u16,
}

impl Address {
    pub fn new(ip: u32, port: u16) -> (r: Address)
        ensures
            r == (Address { ip, port }),
    {
        Address { ip, port }
    }
}

/// The application-level command carried by a `Pack`. The wire tag is
/// positional, so new variants are only ever added at the end.
#[derive(Debug, Clone, PartialEq)]
pub enum Cmd {
    Connect(String),
    Action(Action),
    RemovePlayer(u32),
    NewItem(u32),
}

/// The destination selector of an outgoing `Pack`; it is resolved into
/// concrete addresses only at send time.
#[derive(Debug, Clone, PartialEq)]
pub enum Dest {
    Ip(Address),
    All,
    Room(String),
    AllExcept(Address),
}

/// The wire message envelope: a command, a destination selector, and the
/// sender address that the ingress loop stamps from the transport.
#[derive(Debug, Clone, PartialEq)]
pub struct Pack {
    pub cmd: Cmd,
    pub dest: Dest,
    pub addr: Option<Address>,
}

/// Decoding failure on malformed bytes; the offending message is simply
/// dropped, never a panic.
#[derive(Clone, Copy, Debug, PartialEq, Eq, Structural)]
pub struct ProtocolError {}

/// Mathematical model of a `Cmd`: names are character sequences.
#[verifier::ext_equal]
pub ghost enum CmdV {
    Connect(Seq<char>),
    Action(Action),
    RemovePlayer(u32),
    NewItem(u32),
}

/// Mathematical model of a `Dest`.
#[verifier::ext_equal]
pub ghost enum DestV {
    Ip(Address),
    All,
    Room(Seq<char>),
    AllExcept(Address),
}

/// Mathematical model of a `Pack`.
#[verifier::ext_equal]
pub ghost struct PackV {
    pub cmd: CmdV,
    pub dest: DestV,
    pub addr: Option<Address>,
}

impl View for Cmd {
    type V = CmdV;

    open spec fn view(&self) -> CmdV {
        match self {
            Cmd::Connect(s) => CmdV::Connect(s@),
            Cmd::Action(a) => CmdV::Action(*a),
            Cmd::RemovePlayer(id) => CmdV::RemovePlayer(*id),
            Cmd::NewItem(item) => CmdV::NewItem(*item),
        }
    }
}

impl View for Dest {
    type V = DestV;

    open spec fn view(&self) -> DestV {
        match self {
            Dest::Ip(a) => DestV::Ip(*a),
            Dest::All => DestV::All,
            Dest::Room(s) => DestV::Room(s@),
            Dest::AllExcept(a) => DestV::AllExcept(*a),
        }
    }
}

impl View for Pack {
    type V = PackV;

    open spec fn view(&self) -> PackV {
        PackV { cmd: self.cmd@, dest: self.dest@, addr: self.addr }
    }
}

impl Pack {
    /// A fresh outgoing pack; the sender address is stamped by the
    /// ingress loop, not at creation time.
    pub fn new(cmd: Cmd, dest: Dest) -> (r: Pack)
        ensures
            r@ == (PackV { cmd: cmd@, dest: dest@, addr: Option::<Address>::None }),
    {
        Pack { cmd, dest, addr: Option::None }
    }

    /// The stamped sender address, if any.
    pub fn ip(&self) -> (r: Option<Address>)
        ensures
            r == self.addr,
    {
        self.addr
    }
}

// ---------------------------------------------------------------------
// Wire format. All multi-byte integers are little-endian. A string is a
// 4-byte byte-length followed by its UTF-8 bytes; an address is a 4-byte
// IP and a 2-byte port; enums carry a leading positional tag byte.
// ---------------------------------------------------------------------

/// A name that fits the wire format's 4-byte length prefix.
pub open spec fn str_valid(s: Seq<char>) -> bool {
    encode_utf8(s).len() <= u32::MAX
}

pub open spec fn cmd_valid(c: CmdV) -> bool {
    match c {
        CmdV::Connect(name) => str_valid(name),
        _ => true,
    }
}

pub open spec fn dest_valid(d: DestV) -> bool {
    match d {
        DestV::Room(name) => str_valid(name),
        _ => true,
    }
}

/// A pack that the wire format can carry.
pub open spec fn pack_valid(p: PackV) -> bool {
    cmd_valid(p.cmd) && dest_valid(p.dest)
}

pub open spec fn spec_enc_str(s: Seq<char>) -> Seq<u8> {
    spec_u32_to_le_bytes(encode_utf8(s).len() as u32) + encode_utf8(s)
}

pub open spec fn spec_enc_addr(a: Address) -> Seq<u8> {
    spec_u32_to_le_bytes(a.ip) + spec_u16_to_le_bytes(a.port)
}

pub open spec fn spec_enc_orientation(o: Orientation) -> Seq<u8> {
    match o {
        Orientation::South => seq![0u8],
        Orientation::West => seq![1u8],
        Orientation::East => seq![2u8],
        Orientation::North => seq![3u8],
    }
}

pub open spec fn spec_enc_action(a: Action) -> Seq<u8> {
    match a {
        Action::Nothing => seq![0u8],
        Action::Move(o) => seq![1u8] + spec_enc_orientation(o),
        Action::Attack(id) => seq![2u8] + spec_u32_to_le_bytes(id),
        Action::UseItem(id) => seq![3u8] + spec_u32_to_le_bytes(id),
    }
}

pub open spec fn spec_enc_cmd(c: CmdV) -> Seq<u8> {
    match c {
        CmdV::Connect(name) => seq![0u8] + spec_enc_str(name),
        CmdV::Action(a) => seq![1u8] + spec_enc_action(a),
        CmdV::RemovePlayer(id) => seq![2u8] + spec_u32_to_le_bytes(id),
        CmdV::NewItem(item) => seq![3u8] + spec_u32_to_le_bytes(item),
    }
}

pub open spec fn spec_enc_dest(d: DestV) -> Seq<u8> {
    match d {
        DestV::Ip(a) => seq![0u8] + spec_enc_addr(a),
        DestV::All => seq![1u8],
        DestV::Room(name) => seq![2u8] + spec_enc_str(name),
        DestV::AllExcept(a) => seq![3u8] + spec_enc_addr(a),
    }
}

pub open spec fn spec_enc_opt_addr(a: Option<Address>) -> Seq<u8> {
    match a {
        Option::None => seq![0u8],
        Option::Some(addr) => seq![1u8] + spec_enc_addr(addr),
    }
}

/// The byte encoding of a pack: command, destination, sender address.
pub open spec fn spec_encode(p: PackV) -> Seq<u8> {
    spec_enc_cmd(p.cmd) + spec_enc_dest(p.dest) + spec_enc_opt_addr(p.addr)
}

// ---------------------------------------------------------------------
// Spec-level decoding: each taker reads one value off the front of the
// byte sequence and yields the remainder, or nothing on malformed input.
// ---------------------------------------------------------------------

pub open spec fn take_u8(b: Seq<u8>) -> Option<(u8, Seq<u8>)> {
    if b.len() >= 1 {
        Option::Some((b[0], b.skip(1)))
    } else {
        Option::None
    }
}

pub open spec fn take_u16(b: Seq<u8>) -> Option<(u16, Seq<u8>)> {
    if b.len() >= 2 {
        Option::Some((spec_u16_from_le_bytes(b.take(2)), b.skip(2)))
    } else {
        Option::None
    }
}

pub open spec fn take_u32(b: Seq<u8>) -> Option<(u32, Seq<u8>)> {
    if b.len() >= 4 {
        Option::Some((spec_u32_from_le_bytes(b.take(4)), b.skip(4)))
    } else {
        Option::None
    }
}

pub open spec fn take_str(b: Seq<u8>) -> Option<(Seq<char>, Seq<u8>)> {
    match take_u32(b) {
        Option::None => Option::None,
        Option::Some((n, r)) => {
            if r.len() >= n && valid_utf8(r.take(n as int)) {
                Option::Some((decode_utf8(r.take(n as int)), r.skip(n as int)))
            } else {
                Option::None
            }
        },
    }
}

pub open spec fn take_addr(b: Seq<u8>) -> Option<(Address, Seq<u8>)> {
    match take_u32(b) {
        Option::None => Option::None,
        Option::Some((ip, r)) => match take_u16(r) {
            Option::None => Option::None,
            Option::Some((port, r2)) => Option::Some((Address { ip, port }, r2)),
        },
    }
}

pub open spec fn take_orientation(b: Seq<u8>) -> Option<(Orientation, Seq<u8>)> {
    match take_u8(b) {
        Option::None => Option::None,
        Option::Some((tag, r)) => {
            if tag == 0 {
                Option::Some((Orientation::South, r))
            } else if tag == 1 {
                Option::Some((Orientation::West, r))
            } else if tag == 2 {
                Option::Some((Orientation::East, r))
            } else if tag == 3 {
                Option::Some((Orientation::North, r))
            } else {
                Option::None
            }
        },
    }
}

pub open spec fn take_action(b: Seq<u8>) -> Option<(Action, Seq<u8>)> {
    match take_u8(b) {
        Option::None => Option::None,
        Option::Some((tag, r)) => {
            if tag == 0 {
                Option::Some((Action::Nothing, r))
            } else if tag == 1 {
                match take_orientation(r) {
                    Option::None => Option::None,
                    Option::Some((o, r2)) => Option::Some((Action::Move(o), r2)),
                }
            } else if tag == 2 {
                match take_u32(r) {
                    Option::None => Option::None,
                    Option::Some((id, r2)) => Option::Some((Action::Attack(id), r2)),
                }
            } else if tag == 3 {
                match take_u32(r) {
                    Option::None => Option::None,
                    Option::Some((id, r2)) => Option::Some((Action::UseItem(id), r2)),
                }
            } else {
                Option::None
            }
        },
    }
}

pub open spec fn take_cmd(b: Seq<u8>) -> Option<(CmdV, Seq<u8>)> {
    match take_u8(b) {
        Option::None => Option::None,
        Option::Some((tag, r)) => {
            if tag == 0 {
                match take_str(r) {
                    Option::None => Option::None,
                    Option::Some((name, r2)) => Option::Some((CmdV::Connect(name), r2)),
                }
            } else if tag == 1 {
                match take_action(r) {
                    Option::None => Option::None,
                    Option::Some((a, r2)) => Option::Some((CmdV::Action(a), r2)),
                }
            } else if tag == 2 {
                match take_u32(r) {
                    Option::None => Option::None,
                    Option::Some((id, r2)) => Option::Some((CmdV::RemovePlayer(id), r2)),
                }
            } else if tag == 3 {
                match take_u32(r) {
                    Option::None => Option::None,
                    Option::Some((item, r2)) => Option::Some((CmdV::NewItem(item), r2)),
                }
            } else {
                Option::None
            }
        },
    }
}

pub open spec fn take_dest(b: Seq<u8>) -> Option<(DestV, Seq<u8>)> {
    match take_u8(b) {
        Option::None => Option::None,
        Option::Some((tag, r)) => {
            if tag == 0 {
                match take_addr(r) {
                    Option::None => Option::None,
                    Option::Some((a, r2)) => Option::Some((DestV::Ip(a), r2)),
                }
            } else if tag == 1 {
                Option::Some((DestV::All, r))
            } else if tag == 2 {
                match take_str(r) {
                    Option::None => Option::None,
                    Option::Some((name, r2)) => Option::Some((DestV::Room(name), r2)),
                }
            } else if tag == 3 {
                match take_addr(r) {
                    Option::None => Option::None,
                    Option::Some((a, r2)) => Option::Some((DestV::AllExcept(a), r2)),
                }
            } else {
                Option::None
            }
        },
    }
}

pub open spec fn take_opt_addr(b: Seq<u8>) -> Option<(Option<Address>, Seq<u8>)> {
    match take_u8(b) {
        Option::None => Option::None,
        Option::Some((tag, r)) => {
            if tag == 0 {
                Option::Some((Option::<Address>::None, r))
            } else if tag == 1 {
                match take_addr(r) {
                    Option::None => Option::None,
                    Option::Some((a, r2)) => Option::Some((Option::Some(a), r2)),
                }
            } else {
                Option::None
            }
        },
    }
}

/// The pack a byte sequence decodes to, if it is a well-formed encoding
/// that is consumed completely.
pub open spec fn spec_decode(b: Seq<u8>) -> Option<PackV> {
    match take_cmd(b) {
        Option::None => Option::None,
        Option::Some((cmd, r1)) => match take_dest(r1) {
            Option::None => Option::None,
            Option::Some((dest, r2)) => match take_opt_addr(r2) {
                Option::None => Option::None,
                Option::Some((addr, r3)) => {
                    if r3.len() == 0 {
                        Option::Some(PackV { cmd, dest, addr })
                    } else {
                        Option::None
                    }
                },
            },
        },
    }
}

// ---------------------------------------------------------------------
// Round trip: decoding an encoding yields the original pack.
// ---------------------------------------------------------------------

proof fn lemma_take_u8(v: u8, rest: Seq<u8>)
    ensures
        take_u8(seq![v] + rest) == Option::Some((v, rest)),
{
    assert((seq![v] + rest).skip(1) =~= rest);
}

proof fn lemma_take_u16(v: u16, rest: Seq<u8>)
    ensures
        take_u16(spec_u16_to_le_bytes(v) + rest) == Option::Some((v, rest)),
{
    lemma_auto_spec_u16_to_from_le_bytes();
    assert((spec_u16_to_le_bytes(v) + rest).take(2) =~= spec_u16_to_le_bytes(v));
    assert((spec_u16_to_le_bytes(v) + rest).skip(2) =~= rest);
}

proof fn lemma_take_u32(v: u32, rest: Seq<u8>)
    ensures
        take_u32(spec_u32_to_le_bytes(v) + rest) == Option::Some((v, rest)),
{
    lemma_auto_spec_u32_to_from_le_bytes();
    assert((spec_u32_to_le_bytes(v) + rest).take(4) =~= spec_u32_to_le_bytes(v));
    assert((spec_u32_to_le_bytes(v) + rest).skip(4) =~= rest);
}

proof fn lemma_take_str(s: Seq<char>, rest: Seq<u8>)
    requires
        str_valid(s),
    ensures
        take_str(spec_enc_str(s) + rest) == Option::Some((s, rest)),
{
    broadcast use encode_utf8_valid_utf8;
    broadcast use encode_utf8_decode_utf8;

    let bytes = encode_utf8(s);
    let n = bytes.len() as u32;
    assert(spec_enc_str(s) + rest =~= spec_u32_to_le_bytes(n) + (bytes + rest));
    lemma_take_u32(n, bytes + rest);
    assert((bytes + rest).take(n as int) =~= bytes);
    assert((bytes + rest).skip(n as int) =~= rest);
}

proof fn lemma_take_addr(a: Address, rest: Seq<u8>)
    ensures
        take_addr(spec_enc_addr(a) + rest) == Option::Some((a, rest)),
{
    assert(spec_enc_addr(a) + rest =~= spec_u32_to_le_bytes(a.ip) + (spec_u16_to_le_bytes(a.port)
        + rest));
    lemma_take_u32(a.ip, spec_u16_to_le_bytes(a.port) + rest);
    lemma_take_u16(a.port, rest);
}

proof fn lemma_take_orientation(o: Orientation, rest: Seq<u8>)
    ensures
        take_orientation(spec_enc_orientation(o) + rest) == Option::Some((o, rest)),
{
    match o {
        Orientation::South => lemma_take_u8(0u8, rest),
        Orientation::West => lemma_take_u8(1u8, rest),
        Orientation::East => lemma_take_u8(2u8, rest),
        Orientation::North => lemma_take_u8(3u8, rest),
    }
}

proof fn lemma_take_action(a: Action, rest: Seq<u8>)
    ensures
        take_action(spec_enc_action(a) + rest) == Option::Some((a, rest)),
{
    match a {
        Action::Nothing => lemma_take_u8(0u8, rest),
        Action::Move(o) => {
            assert(spec_enc_action(a) + rest =~= seq![1u8] + (spec_enc_orientation(o) + rest));
            lemma_take_u8(1u8, spec_enc_orientation(o) + rest);
            lemma_take_orientation(o, rest);
        },
        Action::Attack(id) => {
            assert(spec_enc_action(a) + rest =~= seq![2u8] + (spec_u32_to_le_bytes(id) + rest));
            lemma_take_u8(2u8, spec_u32_to_le_bytes(id) + rest);
            lemma_take_u32(id, rest);
        },
        Action::UseItem(id) => {
            assert(spec_enc_action(a) + rest =~= seq![3u8] + (spec_u32_to_le_bytes(id) + rest));
            lemma_take_u8(3u8, spec_u32_to_le_bytes(id) + rest);
            lemma_take_u32(id, rest);
        },
    }
}

proof fn lemma_take_cmd(c: CmdV, rest: Seq<u8>)
    requires
        cmd_valid(c),
    ensures
        take_cmd(spec_enc_cmd(c) + rest) == Option::Some((c, rest)),
{
    match c {
        CmdV::Connect(name) => {
            assert(spec_enc_cmd(c) + rest =~= seq![0u8] + (spec_enc_str(name) + rest));
            lemma_take_u8(0u8, spec_enc_str(name) + rest);
            lemma_take_str(name, rest);
        },
        CmdV::Action(a) => {
            assert(spec_enc_cmd(c) + rest =~= seq![1u8] + (spec_enc_action(a) + rest));
            lemma_take_u8(1u8, spec_enc_action(a) + rest);
            lemma_take_action(a, rest);
        },
        CmdV::RemovePlayer(id) => {
            assert(spec_enc_cmd(c) + rest =~= seq![2u8] + (spec_u32_to_le_bytes(id) + rest));
            lemma_take_u8(2u8, spec_u32_to_le_bytes(id) + rest);
            lemma_take_u32(id, rest);
        },
        CmdV::NewItem(item) => {
            assert(spec_enc_cmd(c) + rest =~= seq![3u8] + (spec_u32_to_le_bytes(item) + rest));
            lemma_take_u8(3u8, spec_u32_to_le_bytes(item) + rest);
            lemma_take_u32(item, rest);
        },
    }
}

proof fn lemma_take_dest(d: DestV, rest: Seq<u8>)
    requires
        dest_valid(d),
    ensures
        take_dest(spec_enc_dest(d) + rest) == Option::Some((d, rest)),
{
    match d {
        DestV::Ip(a) => {
            assert(spec_enc_dest(d) + rest =~= seq![0u8] + (spec_enc_addr(a) + rest));
            lemma_take_u8(0u8, spec_enc_addr(a) + rest);
            lemma_take_addr(a, rest);
        },
        DestV::All => lemma_take_u8(1u8, rest),
        DestV::Room(name) => {
            assert(spec_enc_dest(d) + rest =~= seq![2u8] + (spec_enc_str(name) + rest));
            lemma_take_u8(2u8, spec_enc_str(name) + rest);
            lemma_take_str(name, rest);
        },
        DestV::AllExcept(a) => {
            assert(spec_enc_dest(d) + rest =~= seq![3u8] + (spec_enc_addr(a) + rest));
            lemma_take_u8(3u8, spec_enc_addr(a) + rest);
            lemma_take_addr(a, rest);
        },
    }
}

proof fn lemma_take_opt_addr(a: Option<Address>, rest: Seq<u8>)
    ensures
        take_opt_addr(spec_enc_opt_addr(a) + rest) == Option::Some((a, rest)),
{
    match a {
        Option::None => lemma_take_u8(0u8, rest),
        Option::Some(addr) => {
            assert(spec_enc_opt_addr(a) + rest =~= seq![1u8] + (spec_enc_addr(addr) + rest));
            lemma_take_u8(1u8, spec_enc_addr(addr) + rest);
            lemma_take_addr(addr, rest);
        },
    }
}

/// The codec round trip: decoding the encoding of any valid pack yields
/// exactly that pack.
pub proof fn lemma_round_trip(p: PackV)
    requires
        pack_valid(p),
    ensures
        spec_decode(spec_encode(p)) == Option::Some(p),
{
    let ec = spec_enc_cmd(p.cmd);
    let ed = spec_enc_dest(p.dest);
    let ea = spec_enc_opt_addr(p.addr);
    assert(spec_encode(p) =~= ec + (ed + (ea + Seq::<u8>::empty())));
    lemma_take_cmd(p.cmd, ed + (ea + Seq::<u8>::empty()));
    lemma_take_dest(p.dest, ea + Seq::<u8>::empty());
    lemma_take_opt_addr(p.addr, Seq::<u8>::empty());
}

// ---------------------------------------------------------------------
// Executable encoding.
// ---------------------------------------------------------------------

fn push_u8(out: &mut Vec<u8>, v: u8)
    ensures
        final(out)@ == old(out)@ + seq![v],
{
    out.push(v);
    assert(final(out)@ =~= old(out)@ + seq![v]);
}

fn push_u16(out: &mut Vec<u8>, v: u16)
    ensures
        final(out)@ == old(out)@ + spec_u16_to_le_bytes(v),
{
    let mut b = u16_to_le_bytes(v);
    out.append(&mut b);
}

fn push_u32(out: &mut Vec<u8>, v: u32)
    ensures
        final(out)@ == old(out)@ + spec_u32_to_le_bytes(v),
{
    let mut b = u32_to_le_bytes(v);
    out.append(&mut b);
}

fn push_str(out: &mut Vec<u8>, s: &String)
    requires
        str_valid(s@),
    ensures
        final(out)@ == old(out)@ + spec_enc_str(s@),
{
    let mut bytes = s.as_str().as_bytes_vec();
    let n = bytes.len() as u32;
    push_u32(out, n);
    out.append(&mut bytes);
    assert(final(out)@ =~= old(out)@ + spec_enc_str(s@));
}

fn push_addr(out: &mut Vec<u8>, a: &Address)
    ensures
        final(out)@ == old(out)@ + spec_enc_addr(*a),
{
    push_u32(out, a.ip);
    push_u16(out, a.port);
    assert(final(out)@ =~= old(out)@ + spec_enc_addr(*a));
}

fn push_orientation(out: &mut Vec<u8>, o: &Orientation)
    ensures
        final(out)@ == old(out)@ + spec_enc_orientation(*o),
{
    match o {
        Orientation::South => push_u8(out, 0),
        Orientation::West => push_u8(out, 1),
        Orientation::East => push_u8(out, 2),
        Orientation::North => push_u8(out, 3),
    }
}

fn push_action(out: &mut Vec<u8>, a: &Action)
    ensures
        final(out)@ == old(out)@ + spec_enc_action(*a),
{
    match a {
        Action::Nothing => push_u8(out, 0),
        Action::Move(o) => {
            push_u8(out, 1);
            push_orientation(out, o);
            assert(final(out)@ =~= old(out)@ + spec_enc_action(*a));
        },
        Action::Attack(id) => {
            push_u8(out, 2);
            push_u32(out, *id);
            assert(final(out)@ =~= old(out)@ + spec_enc_action(*a));
        },
        Action::UseItem(id) => {
            push_u8(out, 3);
            push_u32(out, *id);
            assert(final(out)@ =~= old(out)@ + spec_enc_action(*a));
        },
    }
}

fn push_cmd(out: &mut Vec<u8>, c: &Cmd)
    requires
        cmd_valid(c@),
    ensures
        final(out)@ == old(out)@ + spec_enc_cmd(c@),
{
    match c {
        Cmd::Connect(name) => {
            push_u8(out, 0);
            push_str(out, name);
            assert(final(out)@ =~= old(out)@ + spec_enc_cmd(c@));
        },
        Cmd::Action(a) => {
            push_u8(out, 1);
            push_action(out, a);
            assert(final(out)@ =~= old(out)@ + spec_enc_cmd(c@));
        },
        Cmd::RemovePlayer(id) => {
            push_u8(out, 2);
            push_u32(out, *id);
            assert(final(out)@ =~= old(out)@ + spec_enc_cmd(c@));
        },
        Cmd::NewItem(item) => {
            push_u8(out, 3);
            push_u32(out, *item);
            assert(final(out)@ =~= old(out)@ + spec_enc_cmd(c@));
        },
    }
}

fn push_dest(out: &mut Vec<u8>, d: &Dest)
    requires
        dest_valid(d@),
    ensures
        final(out)@ == old(out)@ + spec_enc_dest(d@),
{
    match d {
        Dest::Ip(a) => {
            push_u8(out, 0);
            push_addr(out, a);
            assert(final(out)@ =~= old(out)@ + spec_enc_dest(d@));
        },
        Dest::All => push_u8(out, 1),
        Dest::Room(name) => {
            push_u8(out, 2);
            push_str(out, name);
            assert(final(out)@ =~= old(out)@ + spec_enc_dest(d@));
        },
        Dest::AllExcept(a) => {
            push_u8(out, 3);
            push_addr(out, a);
            assert(final(out)@ =~= old(out)@ + spec_enc_dest(d@));
        },
    }
}

fn push_opt_addr(out: &mut Vec<u8>, a: &Option<Address>)
    ensures
        final(out)@ == old(out)@ + spec_enc_opt_addr(*a),
{
    match a {
        Option::None => push_u8(out, 0),
        Option::Some(addr) => {
            push_u8(out, 1);
            push_addr(out, addr);
            assert(final(out)@ =~= old(out)@ + spec_enc_opt_addr(*a));
        },
    }
}

/// Whether a string fits the wire format's 4-byte length prefix.
fn str_fits_wire(s: &String) -> (r: bool)
    ensures
        r == str_valid(s@),
{
    let bytes = s.as_str().as_bytes_vec();
    bytes.len() <= u32::MAX as usize
}

/// Whether the wire format can carry a pack; a gate for callers whose
/// names come from outside.
pub fn pack_fits_wire(p: &Pack) -> (r: bool)
    ensures
        r == pack_valid(p@),
{
    let cmd_ok = match &p.cmd {
        Cmd::Connect(name) => str_fits_wire(name),
        _ => true,
    };
    let dest_ok = match &p.dest {
        Dest::Room(name) => str_fits_wire(name),
        _ => true,
    };
    cmd_ok && dest_ok
}

/// Encodes a pack for the wire.
pub fn encode(p: &Pack) -> (r: Vec<u8>)
    requires
        pack_valid(p@),
    ensures
        r@ == spec_encode(p@),
{
    let mut out: Vec<u8> = Vec::new();
    push_cmd(&mut out, &p.cmd);
    push_dest(&mut out, &p.dest);
    push_opt_addr(&mut out, &p.addr);
    assert(out@ =~= spec_encode(p@));
    out
}

// ---------------------------------------------------------------------
// Executable decoding.
// ---------------------------------------------------------------------

/// Relies on String::from_utf8: it returns the string of exactly the
/// given bytes when they are valid UTF-8, and an error otherwise.
#[verifier::external_body]
fn string_from_utf8(bytes: Vec<u8>) -> (r: Option<String>)
    ensures
        match r {
            Option::Some(s) => valid_utf8(bytes@) && s@ == decode_utf8(bytes@),
            Option::None => !valid_utf8(bytes@),
        },
{
    match String::from_utf8(bytes) {
        Ok(s) => Option::Some(s),
        Err(_) => Option::None,
    }
}

fn read_u8(b: &Vec<u8>, i: usize) -> (r: Option<(u8, usize)>)
    requires
        i <= b@.len(),
    ensures
        match r {
            Option::Some(p) => i < p.1 <= b@.len() && take_u8(b@.skip(i as int))
                == Option::Some((p.0, b@.skip(p.1 as int))),
            Option::None => take_u8(b@.skip(i as int)) is None,
        },
{
    if i < b.len() {
        let v = b[i];
        proof {
            assert(b@.skip(i as int)[0] == b@[i as int]);
            assert(b@.skip(i as int).skip(1) =~= b@.skip(i as int + 1));
        }
        Option::Some((v, i + 1))
    } else {
        Option::None
    }
}

fn read_u16(b: &Vec<u8>, i: usize) -> (r: Option<(u16, usize)>)
    requires
        i <= b@.len(),
    ensures
        match r {
            Option::Some(p) => i < p.1 <= b@.len() && take_u16(b@.skip(i as int))
                == Option::Some((p.0, b@.skip(p.1 as int))),
            Option::None => take_u16(b@.skip(i as int)) is None,
        },
{
    if b.len() - i >= 2 {
        let sl = slice_subrange(b.as_slice(), i, i + 2);
        let v = u16_from_le_bytes(sl);
        proof {
            assert(b@.skip(i as int).take(2) =~= b@.subrange(i as int, i as int + 2));
            assert(b@.skip(i as int).skip(2) =~= b@.skip(i as int + 2));
        }
        Option::Some((v, i + 2))
    } else {
        Option::None
    }
}

fn read_u32(b: &Vec<u8>, i: usize) -> (r: Option<(u32, usize)>)
    requires
        i <= b@.len(),
    ensures
        match r {
            Option::Some(p) => i < p.1 <= b@.len() && take_u32(b@.skip(i as int))
                == Option::Some((p.0, b@.skip(p.1 as int))),
            Option::None => take_u32(b@.skip(i as int)) is None,
        },
{
    if b.len() - i >= 4 {
        let sl = slice_subrange(b.as_slice(), i, i + 4);
        let v = u32_from_le_bytes(sl);
        proof {
            assert(b@.skip(i as int).take(4) =~= b@.subrange(i as int, i as int + 4));
            assert(b@.skip(i as int).skip(4) =~= b@.skip(i as int + 4));
        }
        Option::Some((v, i + 4))
    } else {
        Option::None
    }
}

fn read_str(b: &Vec<u8>, i: usize) -> (r: Option<(String, usize)>)
    requires
        i <= b@.len(),
    ensures
        match r {
            Option::Some(p) => i < p.1 <= b@.len() && take_str(b@.skip(i as int))
                == Option::Some((p.0@, b@.skip(p.1 as int))),
            Option::None => take_str(b@.skip(i as int)) is None,
        },
{
    match read_u32(b, i) {
        Option::None => Option::None,
        Option::Some((n, j)) => {
            if (b.len() - j) < n as usize {
                return Option::None;
            }
            let end = j + n as usize;
            let mut buf: Vec<u8> = Vec::new();
            let mut k = j;
            while k < end
                invariant
                    j <= k <= end <= b@.len(),
                    buf@ == b@.subrange(j as int, k as int),
                decreases end - k,
            {
                buf.push(b[k]);
                assert(buf@ =~= b@.subrange(j as int, k as int + 1));
                k = k + 1;
            }
            proof {
                assert(b@.skip(j as int).take(n as int) =~= b@.subrange(j as int, end as int));
                assert(b@.skip(j as int).skip(n as int) =~= b@.skip(end as int));
            }
            match string_from_utf8(buf) {
                Option::None => Option::None,
                Option::Some(s) => Option::Some((s, end)),
            }
        },
    }
}

fn read_addr(b: &Vec<u8>, i: usize) -> (r: Option<(Address, usize)>)
    requires
        i <= b@.len(),
    ensures
        match r {
            Option::Some(p) => i < p.1 <= b@.len() && take_addr(b@.skip(i as int))
                == Option::Some((p.0, b@.skip(p.1 as int))),
            Option::None => take_addr(b@.skip(i as int)) is None,
        },
{
    match read_u32(b, i) {
        Option::None => Option::None,
        Option::Some((ip, j)) => match read_u16(b, j) {
            Option::None => Option::None,
            Option::Some((port, k)) => Option::Some((Address { ip, port }, k)),
        },
    }
}

fn read_orientation(b: &Vec<u8>, i: usize) -> (r: Option<(Orientation, usize)>)
    requires
        i <= b@.len(),
    ensures
        match r {
            Option::Some(p) => i < p.1 <= b@.len() && take_orientation(b@.skip(i as int))
                == Option::Some((p.0, b@.skip(p.1 as int))),
            Option::None => take_orientation(b@.skip(i as int)) is None,
        },
{
    match read_u8(b, i) {
        Option::None => Option::None,
        Option::Some((tag, j)) => {
            if tag == 0 {
                Option::Some((Orientation::South, j))
            } else if tag == 1 {
                Option::Some((Orientation::West, j))
            } else if tag == 2 {
                Option::Some((Orientation::East, j))
            } else if tag == 3 {
                Option::Some((Orientation::North, j))
            } else {
                Option::None
            }
        },
    }
}

fn read_action(b: &Vec<u8>, i: usize) -> (r: Option<(Action, usize)>)
    requires
        i <= b@.len(),
    ensures
        match r {
            Option::Some(p) => i < p.1 <= b@.len() && take_action(b@.skip(i as int))
                == Option::Some((p.0, b@.skip(p.1 as int))),
            Option::None => take_action(b@.skip(i as int)) is None,
        },
{
    match read_u8(b, i) {
        Option::None => Option::None,
        Option::Some((tag, j)) => {
            if tag == 0 {
                Option::Some((Action::Nothing, j))
            } else if tag == 1 {
                match read_orientation(b, j) {
                    Option::None => Option::None,
                    Option::Some((o, k)) => Option::Some((Action::Move(o), k)),
                }
            } else if tag == 2 {
                match read_u32(b, j) {
                    Option::None => Option::None,
                    Option::Some((id, k)) => Option::Some((Action::Attack(id), k)),
                }
            } else if tag == 3 {
                match read_u32(b, j) {
                    Option::None => Option::None,
                    Option::Some((id, k)) => Option::Some((Action::UseItem(id), k)),
                }
            } else {
                Option::None
            }
        },
    }
}

fn read_cmd(b: &Vec<u8>, i: usize) -> (r: Option<(Cmd, usize)>)
    requires
        i <= b@.len(),
    ensures
        match r {
            Option::Some(p) => i < p.1 <= b@.len() && take_cmd(b@.skip(i as int))
                == Option::Some((p.0@, b@.skip(p.1 as int))),
            Option::None => take_cmd(b@.skip(i as int)) is None,
        },
{
    match read_u8(b, i) {
        Option::None => Option::None,
        Option::Some((tag, j)) => {
            if tag == 0 {
                match read_str(b, j) {
                    Option::None => Option::None,
                    Option::Some((name, k)) => Option::Some((Cmd::Connect(name), k)),
                }
            } else if tag == 1 {
                match read_action(b, j) {
                    Option::None => Option::None,
                    Option::Some((a, k)) => Option::Some((Cmd::Action(a), k)),
                }
            } else if tag == 2 {
                match read_u32(b, j) {
                    Option::None => Option::None,
                    Option::Some((id, k)) => Option::Some((Cmd::RemovePlayer(id), k)),
                }
            } else if tag == 3 {
                match read_u32(b, j) {
                    Option::None => Option::None,
                    Option::Some((item, k)) => Option::Some((Cmd::NewItem(item), k)),
                }
            } else {
                Option::None
            }
        },
    }
}

fn read_dest(b: &Vec<u8>, i: usize) -> (r: Option<(Dest, usize)>)
    requires
        i <= b@.len(),
    ensures
        match r {
            Option::Some(p) => i < p.1 <= b@.len() && take_dest(b@.skip(i as int))
                == Option::Some((p.0@, b@.skip(p.1 as int))),
            Option::None => take_dest(b@.skip(i as int)) is None,
        },
{
    match read_u8(b, i) {
        Option::None => Option::None,
        Option::Some((tag, j)) => {
            if tag == 0 {
                match read_addr(b, j) {
                    Option::None => Option::None,
                    Option::Some((a, k)) => Option::Some((Dest::Ip(a), k)),
                }
            } else if tag == 1 {
                Option::Some((Dest::All, j))
            } else if tag == 2 {
                match read_str(b, j) {
                    Option::None => Option::None,
                    Option::Some((name, k)) => Option::Some((Dest::Room(name), k)),
                }
            } else if tag == 3 {
                match read_addr(b, j) {
                    Option::None => Option::None,
                    Option::Some((a, k)) => Option::Some((Dest::AllExcept(a), k)),
                }
            } else {
                Option::None
            }
        },
    }
}

fn read_opt_addr(b: &Vec<u8>, i: usize) -> (r: Option<(Option<Address>, usize)>)
    requires
        i <= b@.len(),
    ensures
        match r {
            Option::Some(p) => i < p.1 <= b@.len() && take_opt_addr(b@.skip(i as int))
                == Option::Some((p.0, b@.skip(p.1 as int))),
            Option::None => take_opt_addr(b@.skip(i as int)) is None,
        },
{
    match read_u8(b, i) {
        Option::None => Option::None,
        Option::Some((tag, j)) => {
            if tag == 0 {
                Option::Some((Option::<Address>::None, j))
            } else if tag == 1 {
                match read_addr(b, j) {
                    Option::None => Option::None,
                    Option::Some((a, k)) => Option::Some((Option::Some(a), k)),
                }
            } else {
                Option::None
            }
        },
    }
}

/// Decodes a pack from the wire; malformed or trailing bytes fail closed
/// with a `ProtocolError`, never a panic.
pub fn decode(bytes: &Vec<u8>) -> (r: Result<Pack, ProtocolError>)
    ensures
        match r {
            Result::Ok(p) => spec_decode(bytes@) == Option::Some(p@) && pack_valid(p@),
            Result::Err(_) => spec_decode(bytes@) is None,
        },
{
    proof {
        assert(bytes@.skip(0) =~= bytes@);
    }
    let cmd = match read_cmd(bytes, 0) {
        Option::None => {
            return Result::Err(ProtocolError {});
        },
        Option::Some(p) => p,
    };
    let dest = match read_dest(bytes, cmd.1) {
        Option::None => {
            return Result::Err(ProtocolError {});
        },
        Option::Some(p) => p,
    };
    let addr = match read_opt_addr(bytes, dest.1) {
        Option::None => {
            return Result::Err(ProtocolError {});
        },
        Option::Some(p) => p,
    };
    if addr.1 != bytes.len() {
        return Result::Err(ProtocolError {});
    }
    let pack = Pack { cmd: cmd.0, dest: dest.0, addr: addr.0 };
    proof {
        broadcast use vstd::utf8::decode_utf8_encode_utf8;

        assert(pack_valid(pack@));
    }
    Result::Ok(pack)
}

} // verus!
