//! Wire codec: a self-delimiting little-endian byte format for the message
//! vocabulary. Both directions share one fixed-size receive buffer, so a
//! decoder reads a prefix of the buffer and tolerates trailing padding; the
//! round-trip laws at the end of the module pin that behaviour down.

use vstd::prelude::*;

use crate::protocol::{Clientbound, ClientId, ClientboundBundle, Serverbound, Tick, Vec3};

verus! {

// ---------------------------------------------------------------------------
// Little-endian integers
// ---------------------------------------------------------------------------
/// The eight little-endian bytes of a 64-bit value.
pub open spec fn u64_le(v: u64) -> Seq<u8> {
    seq![
        (v & 0xff) as u8,
        ((v >> 8) & 0xff) as u8,
        ((v >> 16) & 0xff) as u8,
        ((v >> 24) & 0xff) as u8,
        ((v >> 32) & 0xff) as u8,
        ((v >> 40) & 0xff) as u8,
        ((v >> 48) & 0xff) as u8,
        ((v >> 56) & 0xff) as u8,
    ]
}

/// The 64-bit value read back from eight little-endian bytes.
pub open spec fn u64_from_le(b: Seq<u8>) -> u64
    recommends
        b.len() == 8,
{
    (b[0] as u64) | ((b[1] as u64) << 8) | ((b[2] as u64) << 16) | ((b[3] as u64) << 24) | ((
    b[4] as u64) << 32) | ((b[5] as u64) << 40) | ((b[6] as u64) << 48) | ((b[7] as u64) << 56)
}

/// The four little-endian bytes of a 32-bit value.
pub open spec fn u32_le(v: u32) -> Seq<u8> {
    seq![(v & 0xff) as u8, ((v >> 8) & 0xff) as u8, ((v >> 16) & 0xff) as u8, ((v >> 24) & 0xff) as u8]
}

/// The 32-bit value read back from four little-endian bytes.
pub open spec fn u32_from_le(b: Seq<u8>) -> u32
    recommends
        b.len() == 4,
{
    (b[0] as u32) | ((b[1] as u32) << 8) | ((b[2] as u32) << 16) | ((b[3] as u32) << 24)
}

pub proof fn lemma_u64_le_round(v: u64)
    ensures
        u64_from_le(u64_le(v)) == v,
{
    assert(((v & 0xff) as u8 as u64) | ((((v >> 8) & 0xff) as u8 as u64) << 8) | ((((v >> 16)
        & 0xff) as u8 as u64) << 16) | ((((v >> 24) & 0xff) as u8 as u64) << 24) | ((((v >> 32)
        & 0xff) as u8 as u64) << 32) | ((((v >> 40) & 0xff) as u8 as u64) << 40) | ((((v >> 48)
        & 0xff) as u8 as u64) << 48) | ((((v >> 56) & 0xff) as u8 as u64) << 56) == v)
        by (bit_vector);
}

pub proof fn lemma_u32_le_round(v: u32)
    ensures
        u32_from_le(u32_le(v)) == v,
{
    assert(((v & 0xff) as u8 as u32) | ((((v >> 8) & 0xff) as u8 as u32) << 8) | ((((v >> 16)
        & 0xff) as u8 as u32) << 16) | ((((v >> 24) & 0xff) as u8 as u32) << 24) == v)
        by (bit_vector);
}

// ---------------------------------------------------------------------------
// Spec encoders
// ---------------------------------------------------------------------------
/// A signed coordinate travels as its 32-bit two's-complement pattern.
pub open spec fn i32_le(v: i32) -> Seq<u8> {
    u32_le(v as u32)
}

/// A position is its three coordinates in order.
pub open spec fn vec3_le(p: Vec3) -> Seq<u8> {
    i32_le(p.x) + i32_le(p.y) + i32_le(p.z)
}

/// Encoding of one client-to-server message: a one-byte tag, then the fields.
pub open spec fn spec_encode_serverbound(m: Serverbound) -> Seq<u8> {
    match m {
        Serverbound::AuthRequest => seq![0u8],
        Serverbound::Move(p, t) => seq![1u8] + vec3_le(p) + u64_le(t.0),
        Serverbound::Disconnect => seq![2u8],
    }
}

/// Encoding of one server-to-client event: a one-byte tag, then the fields.
pub open spec fn spec_encode_clientbound(m: Clientbound) -> Seq<u8> {
    match m {
        Clientbound::AuthSuccess(id) => seq![0u8] + u64_le(id.0),
        Clientbound::Spawn(id, p) => seq![1u8] + u64_le(id.0) + vec3_le(p),
        Clientbound::Despawn(id) => seq![2u8] + u64_le(id.0),
        Clientbound::Move(id, p, t) => seq![3u8] + u64_le(id.0) + vec3_le(p) + u64_le(t.0),
    }
}

/// Concatenated encodings of a sequence of events.
pub open spec fn spec_encode_messages(msgs: Seq<Clientbound>) -> Seq<u8>
    decreases msgs.len(),
{
    if msgs.len() == 0 {
        Seq::empty()
    } else {
        spec_encode_clientbound(msgs[0]) + spec_encode_messages(msgs.drop_first())
    }
}

/// Encoding of an envelope: the tick, the event count, then the events. The
/// format carries no overall length; it is self-delimiting, so a receive
/// buffer padded with trailing zeroes decodes to the same envelope.
pub open spec fn spec_encode_bundle(tick: u64, msgs: Seq<Clientbound>) -> Seq<u8>
    recommends
        msgs.len() <= u32::MAX,
{
    u64_le(tick) + u32_le(msgs.len() as u32) + spec_encode_messages(msgs)
}

// ---------------------------------------------------------------------------
// Spec decoders
// ---------------------------------------------------------------------------
/// Read eight bytes at `pos` as a 64-bit value; the new read position follows.
pub open spec fn spec_read_u64(s: Seq<u8>, pos: int) -> Option<(u64, int)> {
    if 0 <= pos && pos + 8 <= s.len() {
        Some((u64_from_le(s.subrange(pos, pos + 8)), pos + 8))
    } else {
        None
    }
}

/// Read four bytes at `pos` as a 32-bit value.
pub open spec fn spec_read_u32(s: Seq<u8>, pos: int) -> Option<(u32, int)> {
    if 0 <= pos && pos + 4 <= s.len() {
        Some((u32_from_le(s.subrange(pos, pos + 4)), pos + 4))
    } else {
        None
    }
}

/// Read a position: three signed coordinates in order.
pub open spec fn spec_read_vec3(s: Seq<u8>, pos: int) -> Option<(Vec3, int)> {
    if 0 <= pos && pos + 12 <= s.len() {
        Some(
            (
                Vec3 {
                    x: u32_from_le(s.subrange(pos, pos + 4)) as i32,
                    y: u32_from_le(s.subrange(pos + 4, pos + 8)) as i32,
                    z: u32_from_le(s.subrange(pos + 8, pos + 12)) as i32,
                },
                pos + 12,
            ),
        )
    } else {
        None
    }
}

/// Decode one client-to-server message at `pos`; an unknown tag or a
/// truncated body is a decode failure.
pub open spec fn spec_decode_serverbound(s: Seq<u8>, pos: int) -> Option<(Serverbound, int)> {
    if !(0 <= pos < s.len()) {
        None
    } else if s[pos] == 0u8 {
        Some((Serverbound::AuthRequest, pos + 1))
    } else if s[pos] == 1u8 {
        match spec_read_vec3(s, pos + 1) {
            None => None,
            Some((p, p2)) => match spec_read_u64(s, p2) {
                None => None,
                Some((t, p3)) => Some((Serverbound::Move(p, Tick(t)), p3)),
            },
        }
    } else if s[pos] == 2u8 {
        Some((Serverbound::Disconnect, pos + 1))
    } else {
        None
    }
}

/// Decode one server-to-client event at `pos`.
pub open spec fn spec_decode_clientbound(s: Seq<u8>, pos: int) -> Option<(Clientbound, int)> {
    if !(0 <= pos < s.len()) {
        None
    } else if s[pos] == 0u8 {
        match spec_read_u64(s, pos + 1) {
            None => None,
            Some((id, p2)) => Some((Clientbound::AuthSuccess(ClientId(id)), p2)),
        }
    } else if s[pos] == 1u8 {
        match spec_read_u64(s, pos + 1) {
            None => None,
            Some((id, p2)) => match spec_read_vec3(s, p2) {
                None => None,
                Some((p, p3)) => Some((Clientbound::Spawn(ClientId(id), p), p3)),
            },
        }
    } else if s[pos] == 2u8 {
        match spec_read_u64(s, pos + 1) {
            None => None,
            Some((id, p2)) => Some((Clientbound::Despawn(ClientId(id)), p2)),
        }
    } else if s[pos] == 3u8 {
        match spec_read_u64(s, pos + 1) {
            None => None,
            Some((id, p2)) => match spec_read_vec3(s, p2) {
                None => None,
                Some((p, p3)) => match spec_read_u64(s, p3) {
                    None => None,
                    Some((t, p4)) => Some((Clientbound::Move(ClientId(id), p, Tick(t)), p4)),
                },
            },
        }
    } else {
        None
    }
}

/// Decode `count` consecutive events starting at `pos`.
pub open spec fn spec_decode_messages(s: Seq<u8>, pos: int, count: int) -> Option<
    (Seq<Clientbound>, int),
>
    decreases count,
{
    if count <= 0 {
        Some((Seq::empty(), pos))
    } else {
        match spec_decode_clientbound(s, pos) {
            None => None,
            Some((m, p2)) => match spec_decode_messages(s, p2, count - 1) {
                None => None,
                Some((rest, p3)) => Some((seq![m] + rest, p3)),
            },
        }
    }
}

/// Decode a whole envelope from the front of a receive buffer; bytes past the
/// declared events are ignored, which is what tolerates zero padding.
pub open spec fn spec_decode_bundle(s: Seq<u8>) -> Option<(u64, Seq<Clientbound>)> {
    match spec_read_u64(s, 0) {
        None => None,
        Some((tick, p1)) => match spec_read_u32(s, p1) {
            None => None,
            Some((count, p2)) => match spec_decode_messages(s, p2, count as int) {
                None => None,
                Some((msgs, _)) => Some((tick, msgs)),
            },
        },
    }
}

// ---------------------------------------------------------------------------
// Exec encoders
// ---------------------------------------------------------------------------
fn write_u64(out: &mut Vec<u8>, v: u64)
    ensures
        final(out)@ == old(out)@ + u64_le(v),
{
    proof {
        assert(v & 0xff <= 0xff && (v >> 8) & 0xff <= 0xff && (v >> 16) & 0xff <= 0xff && (v
            >> 24) & 0xff <= 0xff && (v >> 32) & 0xff <= 0xff && (v >> 40) & 0xff <= 0xff && (v
            >> 48) & 0xff <= 0xff && (v >> 56) & 0xff <= 0xff) by (bit_vector);
    }
    out.push((v & 0xff) as u8);
    out.push(((v >> 8) & 0xff) as u8);
    out.push(((v >> 16) & 0xff) as u8);
    out.push(((v >> 24) & 0xff) as u8);
    out.push(((v >> 32) & 0xff) as u8);
    out.push(((v >> 40) & 0xff) as u8);
    out.push(((v >> 48) & 0xff) as u8);
    out.push(((v >> 56) & 0xff) as u8);
    proof {
        assert(out@ =~= old(out)@ + u64_le(v));
    }
}

fn write_u32(out: &mut Vec<u8>, v: u32)
    ensures
        final(out)@ == old(out)@ + u32_le(v),
{
    proof {
        assert(v & 0xff <= 0xff && (v >> 8) & 0xff <= 0xff && (v >> 16) & 0xff <= 0xff && (v
            >> 24) & 0xff <= 0xff) by (bit_vector);
    }
    out.push((v & 0xff) as u8);
    out.push(((v >> 8) & 0xff) as u8);
    out.push(((v >> 16) & 0xff) as u8);
    out.push(((v >> 24) & 0xff) as u8);
    proof {
        assert(out@ =~= old(out)@ + u32_le(v));
    }
}

fn write_vec3(out: &mut Vec<u8>, p: Vec3)
    ensures
        final(out)@ == old(out)@ + vec3_le(p),
{
    write_u32(out, p.x as u32);
    write_u32(out, p.y as u32);
    write_u32(out, p.z as u32);
    proof {
        assert(out@ =~= old(out)@ + vec3_le(p));
    }
}

/// Serialize one client-to-server message.
pub fn encode_serverbound(m: &Serverbound) -> (r: Vec<u8>)
    ensures
        r@ == spec_encode_serverbound(*m),
{
    let mut out: Vec<u8> = Vec::new();
    match *m {
        Serverbound::AuthRequest => {
            out.push(0u8);
            proof {
                assert(out@ =~= spec_encode_serverbound(*m));
            }
        },
        Serverbound::Move(p, t) => {
            out.push(1u8);
            write_vec3(&mut out, p);
            write_u64(&mut out, t.0);
            proof {
                assert(out@ =~= spec_encode_serverbound(*m));
            }
        },
        Serverbound::Disconnect => {
            out.push(2u8);
            proof {
                assert(out@ =~= spec_encode_serverbound(*m));
            }
        },
    }
    out
}

/// Serialize one server-to-client event.
pub fn encode_clientbound(m: &Clientbound) -> (r: Vec<u8>)
    ensures
        r@ == spec_encode_clientbound(*m),
{
    let mut out: Vec<u8> = Vec::new();
    match *m {
        Clientbound::AuthSuccess(id) => {
            out.push(0u8);
            write_u64(&mut out, id.0);
            proof {
                assert(out@ =~= spec_encode_clientbound(*m));
            }
        },
        Clientbound::Spawn(id, p) => {
            out.push(1u8);
            write_u64(&mut out, id.0);
            write_vec3(&mut out, p);
            proof {
                assert(out@ =~= spec_encode_clientbound(*m));
            }
        },
        Clientbound::Despawn(id) => {
            out.push(2u8);
            write_u64(&mut out, id.0);
            proof {
                assert(out@ =~= spec_encode_clientbound(*m));
            }
        },
        Clientbound::Move(id, p, t) => {
            out.push(3u8);
            write_u64(&mut out, id.0);
            write_vec3(&mut out, p);
            write_u64(&mut out, t.0);
            proof {
                assert(out@ =~= spec_encode_clientbound(*m));
            }
        },
    }
    out
}

/// Serialize a whole envelope.
pub fn encode_bundle(b: &ClientboundBundle) -> (r: Vec<u8>)
    requires
        b.messages@.len() <= u32::MAX,
    ensures
        r@ == spec_encode_bundle(b.tick.0, b.messages@),
{
    let mut out: Vec<u8> = Vec::new();
    write_u64(&mut out, b.tick.0);
    write_u32(&mut out, b.messages.len() as u32);
    let ghost header = out@;
    let mut i: usize = 0;
    while i < b.messages.len()
        invariant
            i <= b.messages@.len(),
            b.messages@.len() <= u32::MAX,
            header == u64_le(b.tick.0) + u32_le(b.messages@.len() as u32),
            out@ == header + spec_encode_messages(b.messages@.subrange(0, i as int)),
        decreases b.messages@.len() - i,
    {
        let mut piece = encode_clientbound(&b.messages[i]);
        out.append(&mut piece);
        proof {
            lemma_encode_messages_snoc(b.messages@, i as int);
            assert(out@ =~= header + spec_encode_messages(b.messages@.subrange(0, i + 1)));
        }
        i = i + 1;
    }
    proof {
        assert(b.messages@.subrange(0, b.messages@.len() as int) =~= b.messages@);
    }
    out
}

/// Appending one more event to a prefix extends its encoding on the right.
proof fn lemma_encode_messages_snoc(msgs: Seq<Clientbound>, i: int)
    requires
        0 <= i < msgs.len(),
    ensures
        spec_encode_messages(msgs.subrange(0, i + 1)) == spec_encode_messages(
            msgs.subrange(0, i),
        ) + spec_encode_clientbound(msgs[i]),
    decreases i,
{
    if i == 0 {
        let sub = msgs.subrange(0, 1);
        assert(sub[0] == msgs[0]);
        assert(sub.drop_first() =~= Seq::<Clientbound>::empty());
        assert(spec_encode_messages(sub.drop_first()) == Seq::<u8>::empty());
        assert(spec_encode_messages(sub) == spec_encode_clientbound(sub[0])
            + spec_encode_messages(sub.drop_first()));
        assert(spec_encode_messages(sub) =~= spec_encode_clientbound(msgs[0]));
        assert(msgs.subrange(0, 0) =~= Seq::<Clientbound>::empty());
        assert(spec_encode_messages(sub) =~= spec_encode_messages(msgs.subrange(0, 0))
            + spec_encode_clientbound(msgs[0]));
    } else {
        lemma_encode_messages_snoc(msgs.drop_first(), i - 1);
        assert(msgs.subrange(0, i + 1).drop_first() =~= msgs.drop_first().subrange(0, i));
        assert(msgs.subrange(0, i).drop_first() =~= msgs.drop_first().subrange(0, i - 1));
        assert(msgs.drop_first()[i - 1] == msgs[i]);
        assert(spec_encode_messages(msgs.subrange(0, i + 1)) =~= spec_encode_clientbound(msgs[0])
            + spec_encode_messages(msgs.drop_first().subrange(0, i)));
        assert(spec_encode_messages(msgs.subrange(0, i)) =~= spec_encode_clientbound(msgs[0])
            + spec_encode_messages(msgs.drop_first().subrange(0, i - 1)));
        assert(spec_encode_clientbound(msgs[0]) + (spec_encode_messages(
            msgs.drop_first().subrange(0, i - 1),
        ) + spec_encode_clientbound(msgs[i])) =~= (spec_encode_clientbound(msgs[0])
            + spec_encode_messages(msgs.drop_first().subrange(0, i - 1)))
            + spec_encode_clientbound(msgs[i]));
    }
}

// ---------------------------------------------------------------------------
// Exec decoders
// ---------------------------------------------------------------------------
fn read_u64(s: &[u8], pos: usize) -> (r: Option<(u64, usize)>)
    ensures
        r is None <==> spec_read_u64(s@, pos as int) is None,
        r is Some ==> spec_read_u64(s@, pos as int) == Some(
            (r->Some_0.0, r->Some_0.1 as int),
        ),
{
    if pos > s.len() || s.len() - pos < 8 {
        return None;
    }
    let b0 = s[pos] as u64;
    let b1 = s[pos + 1] as u64;
    let b2 = s[pos + 2] as u64;
    let b3 = s[pos + 3] as u64;
    let b4 = s[pos + 4] as u64;
    let b5 = s[pos + 5] as u64;
    let b6 = s[pos + 6] as u64;
    let b7 = s[pos + 7] as u64;
    let v = b0 | (b1 << 8) | (b2 << 16) | (b3 << 24) | (b4 << 32) | (b5 << 40) | (b6 << 48) | (b7
        << 56);
    proof {
        let sub = s@.subrange(pos as int, pos as int + 8);
        assert(sub[0] == s@[pos as int]);
        assert(v == u64_from_le(sub));
    }
    Some((v, pos + 8))
}

fn read_u32(s: &[u8], pos: usize) -> (r: Option<(u32, usize)>)
    ensures
        r is None <==> spec_read_u32(s@, pos as int) is None,
        r is Some ==> spec_read_u32(s@, pos as int) == Some(
            (r->Some_0.0, r->Some_0.1 as int),
        ),
{
    if pos > s.len() || s.len() - pos < 4 {
        return None;
    }
    let b0 = s[pos] as u32;
    let b1 = s[pos + 1] as u32;
    let b2 = s[pos + 2] as u32;
    let b3 = s[pos + 3] as u32;
    let v = b0 | (b1 << 8) | (b2 << 16) | (b3 << 24);
    proof {
        let sub = s@.subrange(pos as int, pos as int + 4);
        assert(sub[0] == s@[pos as int]);
        assert(v == u32_from_le(sub));
    }
    Some((v, pos + 4))
}

fn read_vec3(s: &[u8], pos: usize) -> (r: Option<(Vec3, usize)>)
    ensures
        r is None <==> spec_read_vec3(s@, pos as int) is None,
        r is Some ==> spec_read_vec3(s@, pos as int) == Some(
            (r->Some_0.0, r->Some_0.1 as int),
        ),
{
    if pos > s.len() || s.len() - pos < 12 {
        return None;
    }
    let x = match read_u32(s, pos) {
        Some((v, _)) => v as i32,
        None => {
            return None;
        },
    };
    let y = match read_u32(s, pos + 4) {
        Some((v, _)) => v as i32,
        None => {
            return None;
        },
    };
    let z = match read_u32(s, pos + 8) {
        Some((v, _)) => v as i32,
        None => {
            return None;
        },
    };
    Some((Vec3 { x, y, z }, pos + 12))
}

/// Decode one client-to-server message from the front of a buffer; trailing
/// bytes are ignored. `None` models a malformed datagram, which must not
/// crash the receiver.
pub fn decode_serverbound(s: &[u8]) -> (r: Option<Serverbound>)
    ensures
        r is None <==> spec_decode_serverbound(s@, 0) is None,
        r is Some ==> spec_decode_serverbound(s@, 0) is Some && r->Some_0
            == spec_decode_serverbound(s@, 0)->Some_0.0,
{
    if s.len() == 0 {
        return None;
    }
    let tag = s[0];
    if tag == 0u8 {
        Some(Serverbound::AuthRequest)
    } else if tag == 1u8 {
        let (p, p2) = match read_vec3(s, 1) {
            Some(v) => v,
            None => {
                return None;
            },
        };
        let (t, _) = match read_u64(s, p2) {
            Some(v) => v,
            None => {
                return None;
            },
        };
        Some(Serverbound::Move(p, Tick(t)))
    } else if tag == 2u8 {
        Some(Serverbound::Disconnect)
    } else {
        None
    }
}

/// Decode one server-to-client event at `pos`, handing back the position of
/// the next event.
fn decode_clientbound(s: &[u8], pos: usize) -> (r: Option<(Clientbound, usize)>)
    ensures
        r is None <==> spec_decode_clientbound(s@, pos as int) is None,
        r is Some ==> spec_decode_clientbound(s@, pos as int) == Some(
            (r->Some_0.0, r->Some_0.1 as int),
        ),
{
    if pos >= s.len() {
        return None;
    }
    let tag = s[pos];
    if tag == 0u8 {
        let (id, p2) = match read_u64(s, pos + 1) {
            Some(v) => v,
            None => {
                return None;
            },
        };
        Some((Clientbound::AuthSuccess(ClientId(id)), p2))
    } else if tag == 1u8 {
        let (id, p2) = match read_u64(s, pos + 1) {
            Some(v) => v,
            None => {
                return None;
            },
        };
        let (p, p3) = match read_vec3(s, p2) {
            Some(v) => v,
            None => {
                return None;
            },
        };
        Some((Clientbound::Spawn(ClientId(id), p), p3))
    } else if tag == 2u8 {
        let (id, p2) = match read_u64(s, pos + 1) {
            Some(v) => v,
            None => {
                return None;
            },
        };
        Some((Clientbound::Despawn(ClientId(id)), p2))
    } else if tag == 3u8 {
        let (id, p2) = match read_u64(s, pos + 1) {
            Some(v) => v,
            None => {
                return None;
            },
        };
        let (p, p3) = match read_vec3(s, p2) {
            Some(v) => v,
            None => {
                return None;
            },
        };
        let (t, p4) = match read_u64(s, p3) {
            Some(v) => v,
            None => {
                return None;
            },
        };
        Some((Clientbound::Move(ClientId(id), p, Tick(t)), p4))
    } else {
        None
    }
}

/// Decode a whole envelope from the front of a receive buffer. Trailing
/// zero padding (or any trailing bytes) after the declared events is
/// tolerated; a malformed prefix yields `None` and the datagram is dropped.
pub fn decode_bundle(s: &[u8]) -> (r: Option<ClientboundBundle>)
    ensures
        r is None <==> spec_decode_bundle(s@) is None,
        r is Some ==> spec_decode_bundle(s@) is Some && r->Some_0.tick.0 == spec_decode_bundle(
            s@,
        )->Some_0.0 && r->Some_0.messages@ == spec_decode_bundle(s@)->Some_0.1,
{
    let (tick, p1) = match read_u64(s, 0) {
        Some(v) => v,
        None => {
            return None;
        },
    };
    let (count, p2) = match read_u32(s, p1) {
        Some(v) => v,
        None => {
            return None;
        },
    };
    let ghost start = p2 as int;
    let mut messages: Vec<Clientbound> = Vec::new();
    let mut pos: usize = p2;
    let mut k: u32 = 0;
    while k < count
        invariant
            k <= count,
            spec_read_u64(s@, 0) == Some((tick, p1 as int)),
            spec_read_u32(s@, p1 as int) == Some((count, start)),
            start == p2 as int,
            ({
                let full = spec_decode_messages(s@, start, count as int);
                let rest = spec_decode_messages(s@, pos as int, count as int - k as int);
                match rest {
                    Some((tailmsgs, p3)) => full == Some((messages@ + tailmsgs, p3)),
                    None => full is None,
                }
            }),
        decreases count - k,
    {
        let (m, p3) = match decode_clientbound(s, pos) {
            Some(v) => v,
            None => {
                return None;
            },
        };
        proof {
            let rest = spec_decode_messages(s@, pos as int, count as int - k as int);
            let rest2 = spec_decode_messages(s@, p3 as int, count as int - k as int - 1);
            if rest2 is Some {
                assert(messages@ + (seq![m] + rest2->Some_0.0) =~= (messages@.push(m))
                    + rest2->Some_0.0);
            }
        }
        messages.push(m);
        pos = p3;
        k = k + 1;
    }
    proof {
        assert(messages@ + Seq::<Clientbound>::empty() =~= messages@);
    }
    Some(ClientboundBundle { tick: Tick(tick), messages })
}

// ---------------------------------------------------------------------------
// Round-trip laws
// ---------------------------------------------------------------------------
/// A 64-bit read sees exactly the eight bytes it was given, wherever they sit.
proof fn lemma_read_u64_local(s: Seq<u8>, pos: int, v: u64)
    requires
        0 <= pos,
        pos + 8 <= s.len(),
        s.subrange(pos, pos + 8) == u64_le(v),
    ensures
        spec_read_u64(s, pos) == Some((v, pos + 8)),
{
    lemma_u64_le_round(v);
}

proof fn lemma_read_u32_local(s: Seq<u8>, pos: int, v: u32)
    requires
        0 <= pos,
        pos + 4 <= s.len(),
        s.subrange(pos, pos + 4) == u32_le(v),
    ensures
        spec_read_u32(s, pos) == Some((v, pos + 4)),
{
    lemma_u32_le_round(v);
}

proof fn lemma_read_vec3_local(s: Seq<u8>, pos: int, p: Vec3)
    requires
        0 <= pos,
        pos + 12 <= s.len(),
        s.subrange(pos, pos + 12) == vec3_le(p),
    ensures
        spec_read_vec3(s, pos) == Some((p, pos + 12)),
{
    let enc = vec3_le(p);
    assert(s.subrange(pos, pos + 4) =~= enc.subrange(0, 4));
    assert(s.subrange(pos + 4, pos + 8) =~= enc.subrange(4, 8));
    assert(s.subrange(pos + 8, pos + 12) =~= enc.subrange(8, 12));
    assert(enc.subrange(0, 4) =~= u32_le(p.x as u32));
    assert(enc.subrange(4, 8) =~= u32_le(p.y as u32));
    assert(enc.subrange(8, 12) =~= u32_le(p.z as u32));
    lemma_u32_le_round(p.x as u32);
    lemma_u32_le_round(p.y as u32);
    lemma_u32_le_round(p.z as u32);
    let px = p.x;
    let py = p.y;
    let pz = p.z;
    assert(px as u32 as i32 == px) by (bit_vector);
    assert(py as u32 as i32 == py) by (bit_vector);
    assert(pz as u32 as i32 == pz) by (bit_vector);
}

/// Law: one encoded client-to-server message decodes to itself wherever it
/// sits in a larger buffer.
pub proof fn lemma_serverbound_round_trip(m: Serverbound, tail: Seq<u8>)
    ensures
        spec_decode_serverbound(spec_encode_serverbound(m) + tail, 0) == Some(
            (m, spec_encode_serverbound(m).len() as int),
        ),
{
    let enc = spec_encode_serverbound(m);
    let s = enc + tail;
    match m {
        Serverbound::AuthRequest => {
            assert(s[0] == 0u8);
        },
        Serverbound::Move(p, t) => {
            assert(s[0] == enc[0]);
            assert(enc[0] == 1u8);
            assert(s.subrange(1, 13) =~= vec3_le(p));
            lemma_read_vec3_local(s, 1, p);
            assert(s.subrange(13, 21) =~= u64_le(t.0));
            lemma_read_u64_local(s, 13, t.0);
        },
        Serverbound::Disconnect => {
            assert(s[0] == 2u8);
        },
    }
}

/// A slice of an embedded byte run equals the same slice of the run itself.
proof fn lemma_embed(s: Seq<u8>, pos: int, enc: Seq<u8>, a: int, b: int)
    requires
        0 <= pos,
        pos + enc.len() <= s.len(),
        s.subrange(pos, pos + enc.len()) == enc,
        0 <= a <= b <= enc.len(),
    ensures
        s.subrange(pos + a, pos + b) == enc.subrange(a, b),
{
    assert forall|k: int| 0 <= k < b - a implies s.subrange(pos + a, pos + b)[k] == enc.subrange(
        a,
        b,
    )[k] by {
        assert(s.subrange(pos, pos + enc.len())[a + k] == enc[a + k]);
    }
    assert(s.subrange(pos + a, pos + b) =~= enc.subrange(a, b));
}

/// Law: one encoded event decodes to itself at its own offset in any buffer
/// that contains its bytes there.
pub proof fn lemma_clientbound_local(s: Seq<u8>, pos: int, m: Clientbound)
    requires
        0 <= pos,
        pos + spec_encode_clientbound(m).len() <= s.len(),
        s.subrange(pos, pos + spec_encode_clientbound(m).len()) == spec_encode_clientbound(m),
    ensures
        spec_decode_clientbound(s, pos) == Some((m, pos + spec_encode_clientbound(m).len())),
{
    let enc = spec_encode_clientbound(m);
    let sub = s.subrange(pos, pos + enc.len());
    assert(s[pos] == sub[0]);
    match m {
        Clientbound::AuthSuccess(id) => {
            assert(enc[0] == 0u8);
            lemma_embed(s, pos, enc, 1, 9);
            assert(enc.subrange(1, 9) =~= u64_le(id.0));
            lemma_read_u64_local(s, pos + 1, id.0);
        },
        Clientbound::Spawn(id, p) => {
            assert(enc[0] == 1u8);
            lemma_embed(s, pos, enc, 1, 9);
            assert(enc.subrange(1, 9) =~= u64_le(id.0));
            lemma_read_u64_local(s, pos + 1, id.0);
            lemma_embed(s, pos, enc, 9, 21);
            assert(enc.subrange(9, 21) =~= vec3_le(p));
            lemma_read_vec3_local(s, pos + 9, p);
        },
        Clientbound::Despawn(id) => {
            assert(enc[0] == 2u8);
            lemma_embed(s, pos, enc, 1, 9);
            assert(enc.subrange(1, 9) =~= u64_le(id.0));
            lemma_read_u64_local(s, pos + 1, id.0);
        },
        Clientbound::Move(id, p, t) => {
            assert(enc[0] == 3u8);
            lemma_embed(s, pos, enc, 1, 9);
            assert(enc.subrange(1, 9) =~= u64_le(id.0));
            lemma_read_u64_local(s, pos + 1, id.0);
            lemma_embed(s, pos, enc, 9, 21);
            assert(enc.subrange(9, 21) =~= vec3_le(p));
            lemma_read_vec3_local(s, pos + 9, p);
            lemma_embed(s, pos, enc, 21, 29);
            assert(enc.subrange(21, 29) =~= u64_le(t.0));
            lemma_read_u64_local(s, pos + 21, t.0);
        },
    }
}

/// Law: a run of encoded events decodes back to exactly those events.
pub proof fn lemma_messages_local(s: Seq<u8>, pos: int, msgs: Seq<Clientbound>)
    requires
        0 <= pos,
        pos + spec_encode_messages(msgs).len() <= s.len(),
        s.subrange(pos, pos + spec_encode_messages(msgs).len()) == spec_encode_messages(msgs),
    ensures
        spec_decode_messages(s, pos, msgs.len() as int) == Some(
            (msgs, pos + spec_encode_messages(msgs).len()),
        ),
    decreases msgs.len(),
{
    if msgs.len() == 0 {
        assert(msgs =~= Seq::<Clientbound>::empty());
    } else {
        let enc0 = spec_encode_clientbound(msgs[0]);
        let encr = spec_encode_messages(msgs.drop_first());
        let enc = spec_encode_messages(msgs);
        assert(enc == enc0 + encr);
        lemma_embed(s, pos, enc, 0, enc0.len() as int);
        assert(enc.subrange(0, enc0.len() as int) =~= enc0);
        lemma_clientbound_local(s, pos, msgs[0]);
        lemma_embed(s, pos, enc, enc0.len() as int, enc.len() as int);
        assert(enc.subrange(enc0.len() as int, enc.len() as int) =~= encr);
        lemma_messages_local(s, pos + enc0.len(), msgs.drop_first());
        assert(seq![msgs[0]] + msgs.drop_first() =~= msgs);
    }
}

/// Law: a whole encoded envelope, followed by any trailing padding, decodes
/// back to its tick and its events.
pub proof fn lemma_bundle_round_trip(tick: u64, msgs: Seq<Clientbound>, tail: Seq<u8>)
    requires
        msgs.len() <= u32::MAX,
    ensures
        spec_decode_bundle(spec_encode_bundle(tick, msgs) + tail) == Some((tick, msgs)),
{
    let enc = spec_encode_bundle(tick, msgs);
    let s = enc + tail;
    let body = spec_encode_messages(msgs);
    assert(s.subrange(0, 8) =~= u64_le(tick));
    lemma_read_u64_local(s, 0, tick);
    assert(s.subrange(8, 12) =~= u32_le(msgs.len() as u32));
    lemma_read_u32_local(s, 8, msgs.len() as u32);
    assert(s.subrange(12, 12 + body.len() as int) =~= body);
    lemma_messages_local(s, 12, msgs);
}

/// An encoded run of events takes at most 29 bytes per event, the size of the
/// largest message shape.
pub proof fn lemma_messages_size(msgs: Seq<Clientbound>)
    ensures
        spec_encode_messages(msgs).len() <= 29 * msgs.len(),
    decreases msgs.len(),
{
    if msgs.len() > 0 {
        lemma_messages_size(msgs.drop_first());
    }
}

} // verus!
