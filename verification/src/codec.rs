//! Canonical wire encoding.
//!
//! Every transmit and broadcast value crosses the party boundary as a
//! *frame*: one version byte, then each field as a 4-byte big-endian
//! length followed by the field's bytes. The framing is self-describing
//! and unambiguous — equal frames carry equal fields, which
//! [`lemma_frame_unambiguous`] proves — so foreign-function layouts, text
//! serialization and wire protocols can all carry protocol messages
//! without reinterpretation.

use vstd::prelude::*;
use crate::bytes::{array32_to_vec, vec_to_array32};
use crate::dkg::TransmitInitZeroSharePhase3to4;
use crate::proto::PartiesMessage;
use crate::signing::Broadcast3to4;
use crate::scalar::CScalar;

verus! {

/// Version byte of the current encoding.
pub const WIRE_VERSION: u8 = 1;

/// The 4-byte big-endian length prefix of a field.
pub open spec fn spec_len_prefix(n: nat) -> Seq<u8> {
    seq![
        ((n / 0x1000000) % 256) as u8,
        ((n / 0x10000) % 256) as u8,
        ((n / 0x100) % 256) as u8,
        (n % 256) as u8,
    ]
}

/// The frame of a field list: each field length-prefixed, in order.
pub open spec fn spec_fields(fields: Seq<Seq<u8>>) -> Seq<u8>
    decreases fields.len(),
{
    if fields.len() == 0 {
        Seq::<u8>::empty()
    } else {
        spec_len_prefix(fields.first().len()) + fields.first() + spec_fields(fields.drop_first())
    }
}

/// The whole frame: a version byte, then the framed fields.
pub open spec fn spec_frame(version: u8, fields: Seq<Seq<u8>>) -> Seq<u8> {
    seq![version] + spec_fields(fields)
}

/// Every field fits its 4-byte length prefix.
pub open spec fn spec_fields_bounded(fields: Seq<Seq<u8>>) -> bool {
    forall|k: int| 0 <= k < fields.len() ==> (#[trigger] fields[k]).len() < 0x100000000
}

/// The framing splits at any field boundary.
proof fn lemma_fields_split(fields: Seq<Seq<u8>>, m: int)
    requires
        0 <= m <= fields.len(),
    ensures
        spec_fields(fields) =~= spec_fields(fields.take(m)) + spec_fields(fields.skip(m)),
    decreases m,
{
    if m == 0 {
        assert(fields.take(0) =~= Seq::<Seq<u8>>::empty());
        assert(fields.skip(0) =~= fields);
    } else {
        assert(fields.take(m).first() == fields[0]);
        assert(fields.take(m).drop_first() =~= fields.drop_first().take(m - 1));
        assert(fields.skip(m) =~= fields.drop_first().skip(m - 1));
        lemma_fields_split(fields.drop_first(), m - 1);
    }
}

/// Appends one length-prefixed field.
fn push_field(out: &mut Vec<u8>, field: &Vec<u8>)
    requires
        field@.len() < 0x100000000,
    ensures
        final(out)@ =~= old(out)@ + spec_len_prefix(field@.len()) + field@,
{
    let n = field.len();
    let n64 = n as u64;
    out.push(((n64 >> 24) & 0xff) as u8);
    out.push(((n64 >> 16) & 0xff) as u8);
    out.push(((n64 >> 8) & 0xff) as u8);
    out.push((n64 & 0xff) as u8);
    proof {
        assert(((n64 >> 24) & 0xff) as u8 == ((n as nat) / 0x1000000 % 256) as u8
            && ((n64 >> 16) & 0xff) as u8 == ((n as nat) / 0x10000 % 256) as u8 && ((n64 >> 8)
            & 0xff) as u8 == ((n as nat) / 0x100 % 256) as u8 && (n64 & 0xff) as u8 == ((
        n as nat) % 256) as u8) by (bit_vector)
            requires
                n64 < 0x100000000 && n64 == n,
        ;
    }
    let mut i: usize = 0;
    let ghost mid = out@;
    while i < field.len()
        invariant
            i <= field@.len(),
            out@ =~= mid + field@.take(i as int),
        decreases field@.len() - i,
    {
        out.push(field[i]);
        i += 1;
        proof {
            assert(out@ =~= mid + field@.take(i as int));
        }
    }
    proof {
        assert(field@.take(field@.len() as int) =~= field@);
    }
}

/// Encodes a field list into one canonical frame.
pub fn encode_frame(fields: &Vec<Vec<u8>>) -> (r: Vec<u8>)
    requires
        forall|i: int| 0 <= i < fields@.len() ==> (#[trigger] fields@[i])@.len() < 0x100000000,
    ensures
        r@ =~= spec_frame(WIRE_VERSION, fields.deep_view()),
{
    let mut out: Vec<u8> = Vec::new();
    out.push(WIRE_VERSION);
    let mut i: usize = 0;
    proof {
        assert(fields.deep_view().skip(0) =~= fields.deep_view());
        assert(out@ =~= seq![WIRE_VERSION] + spec_fields(Seq::<Seq<u8>>::empty()).take(0));
    }
    while i < fields.len()
        invariant
            i <= fields@.len(),
            forall|k: int| 0 <= k < fields@.len() ==> (#[trigger] fields@[k])@.len() < 0x100000000,
            out@ =~= spec_frame(WIRE_VERSION, fields.deep_view().take(i as int)),
        decreases fields@.len() - i,
    {
        push_field(&mut out, &fields[i]);
        proof {
            lemma_fields_snoc(fields.deep_view(), i as int);
            assert(fields.deep_view()[i as int] =~= fields@[i as int]@);
        }
        i += 1;
    }
    proof {
        assert(fields.deep_view().take(fields@.len() as int) =~= fields.deep_view());
    }
    out
}

/// Framing one more field appends its prefix and bytes.
proof fn lemma_fields_snoc(fields: Seq<Seq<u8>>, i: int)
    requires
        0 <= i < fields.len(),
    ensures
        spec_fields(fields.take(i + 1)) =~= spec_fields(fields.take(i)) + spec_len_prefix(
            fields[i].len(),
        ) + fields[i],
    decreases i,
{
    if i == 0 {
        assert(fields.take(1).first() == fields[0]);
        assert(fields.take(1).drop_first() =~= Seq::<Seq<u8>>::empty());
        assert(fields.take(0) =~= Seq::<Seq<u8>>::empty());
    } else {
        assert(fields.take(i + 1).first() == fields[0]);
        assert(fields.take(i).first() == fields[0]);
        assert(fields.take(i + 1).drop_first() =~= fields.drop_first().take(i));
        assert(fields.take(i).drop_first() =~= fields.drop_first().take(i - 1));
        assert(fields.drop_first()[i - 1] == fields[i]);
        lemma_fields_snoc(fields.drop_first(), i - 1);
    }
}

/// Reads the 4-byte length at `at`; the caller guarantees it is there.
fn read_len(bytes: &Vec<u8>, at: usize) -> (r: u64)
    requires
        at + 4 <= bytes@.len(),
    ensures
        r < 0x100000000,
        spec_len_prefix(r as nat) =~= bytes@.subrange(at as int, at as int + 4),
{
    let total = bytes.len();
    let b0 = bytes[at] as u64;
    let b1 = bytes[at + 1] as u64;
    let b2 = bytes[at + 2] as u64;
    let b3 = bytes[at + 3] as u64;
    let r = (b0 << 24) | (b1 << 16) | (b2 << 8) | b3;
    proof {
        assert(r < 0x100000000 && ((r as nat) / 0x1000000 % 256) == b0 && ((r as nat) / 0x10000
            % 256) == b1 && ((r as nat) / 0x100 % 256) == b2 && ((r as nat) % 256) == b3)
            by (bit_vector)
            requires
                r == (b0 << 24) | (b1 << 16) | (b2 << 8) | b3 && b0 < 256 && b1 < 256 && b2 < 256
                    && b3 < 256,
        ;
        assert(spec_len_prefix(r as nat) =~= bytes@.subrange(at as int, at as int + 4));
    }
    r
}

/// Decodes a frame back into its field list. Whatever it accepts
/// re-encodes to exactly the input bytes; and whenever the bytes are the
/// frame of some bounded field list, decoding succeeds — together with
/// [`lemma_frame_unambiguous`], decoding is the inverse of encoding.
#[verifier::rlimit(100)]
pub fn decode_frame(bytes: &Vec<u8>) -> (r: Option<Vec<Vec<u8>>>)
    ensures
        r is Some ==> bytes@ =~= spec_frame(WIRE_VERSION, r->0.deep_view())
            && spec_fields_bounded(r->0.deep_view()),
        (exists|fs: Seq<Seq<u8>>|
            bytes@ =~= spec_frame(WIRE_VERSION, fs) && #[trigger] spec_fields_bounded(fs))
            ==> r is Some,
{
    let ghost has_frame = exists|fs: Seq<Seq<u8>>|
        bytes@ =~= spec_frame(WIRE_VERSION, fs) && #[trigger] spec_fields_bounded(fs);
    let ghost gf: Seq<Seq<u8>> = if has_frame {
        choose|fs: Seq<Seq<u8>>|
            bytes@ =~= spec_frame(WIRE_VERSION, fs) && #[trigger] spec_fields_bounded(fs)
    } else {
        Seq::empty()
    };
    let total = bytes.len();
    if total == 0 || bytes[0] != WIRE_VERSION {
        proof {
            if has_frame {
                assert(bytes@ =~= spec_frame(WIRE_VERSION, gf));
                assert(bytes@[0] == WIRE_VERSION);
                assert(false);
            }
        }
        return None;
    }
    let mut fields: Vec<Vec<u8>> = Vec::new();
    let mut at: usize = 1;
    proof {
        assert(bytes@.take(1) =~= spec_frame(WIRE_VERSION, fields.deep_view()));
        assert(fields.deep_view() =~~= gf.take(0));
    }
    while at < bytes.len()
        invariant
            1 <= at <= bytes@.len(),
            bytes@.len() <= usize::MAX,
            bytes@.take(at as int) =~= spec_frame(WIRE_VERSION, fields.deep_view()),
            forall|k: int|
                0 <= k < fields.deep_view().len() ==> (#[trigger] fields.deep_view()[k]).len()
                    < 0x100000000,
            has_frame == (exists|fs: Seq<Seq<u8>>|
                bytes@ =~= spec_frame(WIRE_VERSION, fs) && #[trigger] spec_fields_bounded(fs)),
            has_frame ==> bytes@ =~= spec_frame(WIRE_VERSION, gf) && spec_fields_bounded(gf)
                && fields.deep_view().len() <= gf.len() && fields.deep_view() =~~= gf.take(
                fields.deep_view().len() as int,
            ),
        decreases bytes@.len() - at,
    {
        let ghost m = fields.deep_view().len() as int;
        proof {
            if has_frame {
                // The parsed prefix aligns with `gf`, so what remains is the
                // framing of the rest of `gf`, which starts with a full
                // length prefix and field.
                lemma_fields_split(gf, m);
                assert(fields.deep_view() =~~= gf.take(m));
                assert(spec_fields(fields.deep_view()) =~= spec_fields(gf.take(m)));
                assert(bytes@.take(at as int).len() == at as int);
                assert(bytes@.take(at as int) =~= seq![WIRE_VERSION] + spec_fields(
                    fields.deep_view(),
                ));
                assert(at as int == 1 + spec_fields(fields.deep_view()).len());
                assert(at as int == 1 + spec_fields(gf.take(m)).len());
                if m == gf.len() {
                    assert(gf.take(m) =~~= gf);
                    assert(bytes@.take(at as int) =~= bytes@);
                    assert(false);
                }
                assert(gf.skip(m).first() == gf[m]);
                assert(gf[m].len() < 0x100000000);
                assert(bytes@.skip(at as int) =~= spec_fields(gf.skip(m)));
                assert(spec_fields(gf.skip(m)) =~= spec_len_prefix(gf[m].len()) + gf[m]
                    + spec_fields(gf.skip(m).drop_first()));
                assert(bytes@.len() - at >= 4 + gf[m].len());
                assert(bytes@.subrange(at as int, at as int + 4) =~= spec_len_prefix(
                    gf[m].len(),
                ));
            }
        }
        if bytes.len() - at < 4 {
            proof {
                if has_frame {
                    assert(false);
                }
            }
            return None;
        }
        let n = read_len(bytes, at);
        proof {
            if has_frame {
                lemma_len_prefix_injective(
                    n as nat,
                    gf[m].len(),
                    bytes@.subrange(at as int, at as int + 4),
                    bytes@.subrange(at as int, at as int + 4),
                );
                assert(n as nat == gf[m].len());
            }
        }
        if ((bytes.len() - at - 4) as u64) < n {
            proof {
                if has_frame {
                    assert(false);
                }
            }
            return None;
        }
        let n = n as usize;
        let mut field: Vec<u8> = Vec::new();
        let mut i: usize = 0;
        while i < n
            invariant
                i <= n,
                at + 4 + n <= bytes@.len(),
                bytes@.len() <= usize::MAX,
                field@.len() == i,
                field@ =~= bytes@.subrange(at as int + 4, at as int + 4 + i as int),
            decreases n - i,
        {
            field.push(bytes[at + 4 + i]);
            i += 1;
            proof {
                assert(field@ =~= bytes@.subrange(at as int + 4, at as int + 4 + i as int));
            }
        }
        let ghost old_fields = fields.deep_view();
        let ghost old_at = at as int;
        fields.push(field);
        at = at + 4 + n;
        proof {
            lemma_fields_snoc(fields.deep_view(), old_fields.len() as int);
            assert(fields.deep_view().take(old_fields.len() as int) =~~= old_fields);
            assert(fields.deep_view()[old_fields.len() as int] =~= bytes@.subrange(
                old_at + 4,
                old_at + 4 + n as int,
            ));
            assert(bytes@.take(at as int) =~= bytes@.take(old_at) + bytes@.subrange(
                old_at,
                old_at + 4,
            ) + bytes@.subrange(old_at + 4, old_at + 4 + n as int));
            assert(fields.deep_view().take(fields.deep_view().len() as int) =~~=
            fields.deep_view());
            assert(bytes@.take(at as int) =~= spec_frame(WIRE_VERSION, fields.deep_view()));
            if has_frame {
                assert(bytes@.subrange(old_at + 4, old_at + 4 + n as int) =~= gf[m]);
                assert(fields.deep_view() =~~= gf.take(m + 1));
            }
        }
    }
    proof {
        assert(bytes@.take(bytes@.len() as int) =~= bytes@);
    }
    Some(fields)
}

/// The framing is unambiguous: equal frames carry equal versions and
/// equal field lists, so any transport that delivers the bytes intact
/// delivers the message intact.
pub proof fn lemma_frame_unambiguous(
    v1: u8,
    fields1: Seq<Seq<u8>>,
    v2: u8,
    fields2: Seq<Seq<u8>>,
)
    requires
        spec_frame(v1, fields1) =~= spec_frame(v2, fields2),
        forall|k: int| 0 <= k < fields1.len() ==> (#[trigger] fields1[k]).len() < 0x100000000,
        forall|k: int| 0 <= k < fields2.len() ==> (#[trigger] fields2[k]).len() < 0x100000000,
    ensures
        v1 == v2,
        fields1 =~~= fields2,
    decreases fields1.len(),
{
    assert(spec_frame(v1, fields1)[0] == v1);
    assert(spec_frame(v2, fields2)[0] == v2);
    assert(spec_fields(fields1) =~= spec_fields(fields2)) by {
        let t1 = spec_fields(fields1);
        let t2 = spec_fields(fields2);
        assert(spec_frame(v1, fields1).len() == 1 + t1.len());
        assert(spec_frame(v2, fields2).len() == 1 + t2.len());
        assert forall|i: int| 0 <= i < t1.len() implies t1[i] == t2[i] by {
            assert(spec_frame(v1, fields1)[i + 1] == t1[i]);
            assert(spec_frame(v2, fields2)[i + 1] == t2[i]);
        }
    }
    lemma_fields_unambiguous(fields1, fields2);
}

/// Two equal field framings have equal field lists.
proof fn lemma_fields_unambiguous(fields1: Seq<Seq<u8>>, fields2: Seq<Seq<u8>>)
    requires
        spec_fields(fields1) =~= spec_fields(fields2),
        forall|k: int| 0 <= k < fields1.len() ==> (#[trigger] fields1[k]).len() < 0x100000000,
        forall|k: int| 0 <= k < fields2.len() ==> (#[trigger] fields2[k]).len() < 0x100000000,
    ensures
        fields1 =~~= fields2,
    decreases fields1.len(),
{
    if fields1.len() == 0 || fields2.len() == 0 {
        if fields1.len() != 0 {
            assert(spec_fields(fields1).len() >= 4);
        }
        if fields2.len() != 0 {
            assert(spec_fields(fields2).len() >= 4);
        }
        assert(fields1.len() == 0 && fields2.len() == 0);
        assert(fields1 =~~= fields2);
    } else {
        let f1 = fields1.first();
        let f2 = fields2.first();
        let s1 = spec_fields(fields1);
        let s2 = spec_fields(fields2);
        assert(s1.len() == 4 + f1.len() + spec_fields(fields1.drop_first()).len());
        assert(s2.len() == 4 + f2.len() + spec_fields(fields2.drop_first()).len());
        // The four prefix bytes agree, so the lengths agree.
        assert forall|i: int| 0 <= i < 4 implies s1[i] == spec_len_prefix(f1.len())[i] by {}
        assert forall|i: int| 0 <= i < 4 implies s2[i] == spec_len_prefix(f2.len())[i] by {}
        assert(f1.len() < 0x100000000 && f2.len() < 0x100000000);
        lemma_len_prefix_injective(f1.len(), f2.len(), s1, s2);
        assert(f1.len() == f2.len());
        // Then the field bytes agree ...
        assert(f1 =~= f2) by {
            assert forall|i: int| 0 <= i < f1.len() implies f1[i] == f2[i] by {
                assert(s1[4 + i] == f1[i]);
                assert(s2[4 + i] == f2[i]);
            }
        }
        // ... and the remainders agree.
        assert(spec_fields(fields1.drop_first()) =~= spec_fields(fields2.drop_first())) by {
            let tail1 = spec_fields(fields1.drop_first());
            let tail2 = spec_fields(fields2.drop_first());
            assert forall|i: int| 0 <= i < tail1.len() implies tail1[i] == tail2[i] by {
                assert(s1[4 + f1.len() + i] == tail1[i]);
                assert(s2[4 + f2.len() + i] == tail2[i]);
            }
        }
        assert(forall|k: int|
            0 <= k < fields1.drop_first().len() ==> (#[trigger] fields1.drop_first()[k]).len()
                < 0x100000000);
        assert(forall|k: int|
            0 <= k < fields2.drop_first().len() ==> (#[trigger] fields2.drop_first()[k]).len()
                < 0x100000000);
        lemma_fields_unambiguous(fields1.drop_first(), fields2.drop_first());
        assert(fields1 =~~= fields2) by {
            assert(fields1.len() == fields2.len());
            assert forall|i: int| 0 <= i < fields1.len() implies fields1[i] =~= fields2[i] by {
                if i == 0 {
                    assert(fields1[0] == f1 && fields2[0] == f2);
                } else {
                    assert(fields1.drop_first()[i - 1] =~= fields2.drop_first()[i - 1]);
                }
            }
        }
    }
}

/// Equal length prefixes at the head of equal framings mean equal lengths.
#[verifier::rlimit(60)]
proof fn lemma_len_prefix_injective(n1: nat, n2: nat, s1: Seq<u8>, s2: Seq<u8>)
    requires
        n1 < 0x100000000,
        n2 < 0x100000000,
        s1 =~= s2,
        forall|i: int| 0 <= i < 4 ==> s1[i] == spec_len_prefix(n1)[i],
        forall|i: int| 0 <= i < 4 ==> s2[i] == spec_len_prefix(n2)[i],
        s1.len() >= 4,
    ensures
        n1 == n2,
{
    assert(s1[0] == spec_len_prefix(n1)[0] && s2[0] == spec_len_prefix(n2)[0]);
    assert(s1[1] == spec_len_prefix(n1)[1] && s2[1] == spec_len_prefix(n2)[1]);
    assert(s1[2] == spec_len_prefix(n1)[2] && s2[2] == spec_len_prefix(n2)[2]);
    assert(s1[3] == spec_len_prefix(n1)[3] && s2[3] == spec_len_prefix(n2)[3]);
    vstd::arithmetic::div_mod::lemma_mod_bound((n1 / 0x1000000) as int, 256);
    vstd::arithmetic::div_mod::lemma_mod_bound((n2 / 0x1000000) as int, 256);
    vstd::arithmetic::div_mod::lemma_mod_bound((n1 / 0x10000) as int, 256);
    vstd::arithmetic::div_mod::lemma_mod_bound((n2 / 0x10000) as int, 256);
    vstd::arithmetic::div_mod::lemma_mod_bound((n1 / 0x100) as int, 256);
    vstd::arithmetic::div_mod::lemma_mod_bound((n2 / 0x100) as int, 256);
    vstd::arithmetic::div_mod::lemma_mod_bound(n1 as int, 256);
    vstd::arithmetic::div_mod::lemma_mod_bound(n2 as int, 256);
    assert((n1 / 0x1000000) % 256 == (n2 / 0x1000000) % 256);
    assert((n1 / 0x10000) % 256 == (n2 / 0x10000) % 256);
    assert((n1 / 0x100) % 256 == (n2 / 0x100) % 256);
    assert(n1 % 256 == n2 % 256);
    let a = n1 as u64;
    let b = n2 as u64;
    assert(a == b) by (bit_vector)
        requires
            a < 0x100000000 && b < 0x100000000 && (a / 0x1000000 % 256) == (b / 0x1000000 % 256)
                && (a / 0x10000 % 256) == (b / 0x10000 % 256) && (a / 0x100 % 256) == (b / 0x100
                % 256) && (a % 256) == (b % 256),
    ;
}

/// The wire fields of a signing broadcast.
pub open spec fn spec_broadcast_fields(m: Broadcast3to4) -> Seq<Seq<u8>> {
    seq![m.u.bytes@, m.w.bytes@]
}

/// Frames a signing broadcast for the wire.
pub fn encode_broadcast(m: &Broadcast3to4) -> (r: Vec<u8>)
    ensures
        r@ =~= spec_frame(WIRE_VERSION, spec_broadcast_fields(*m)),
{
    let fields: Vec<Vec<u8>> = vec![array32_to_vec(&m.u.bytes), array32_to_vec(&m.w.bytes)];
    let r = encode_frame(&fields);
    proof {
        assert(fields.deep_view() =~~= spec_broadcast_fields(*m));
    }
    r
}

/// Parses a framed signing broadcast; whatever it accepts re-frames to
/// exactly the input bytes, and the frame of any broadcast is accepted.
pub fn decode_broadcast(bytes: &Vec<u8>) -> (r: Option<Broadcast3to4>)
    ensures
        r is Some ==> bytes@ =~= spec_frame(WIRE_VERSION, spec_broadcast_fields(r->0)),
        (exists|b: Broadcast3to4|
            bytes@ =~= spec_frame(WIRE_VERSION, #[trigger] spec_broadcast_fields(b))) ==> r
            is Some,
{
    let ghost has_msg = exists|b: Broadcast3to4|
        bytes@ =~= spec_frame(WIRE_VERSION, #[trigger] spec_broadcast_fields(b));
    let ghost gb: Broadcast3to4 = if has_msg {
        choose|b: Broadcast3to4|
            bytes@ =~= spec_frame(WIRE_VERSION, #[trigger] spec_broadcast_fields(b))
    } else {
        arbitrary()
    };
    proof {
        if has_msg {
            assert(spec_fields_bounded(spec_broadcast_fields(gb)));
        }
    }
    let fields = match decode_frame(bytes) {
        Some(f) => f,
        None => {
            proof {
                if has_msg {
                    assert(false);
                }
            }
            return None;
        },
    };
    if fields.len() != 2 || fields[0].len() != 32 || fields[1].len() != 32 {
        proof {
            if has_msg {
                lemma_frame_unambiguous(
                    WIRE_VERSION,
                    fields.deep_view(),
                    WIRE_VERSION,
                    spec_broadcast_fields(gb),
                );
                assert(false);
            }
        }
        return None;
    }
    let m = Broadcast3to4 {
        u: CScalar { bytes: vec_to_array32(&fields[0]) },
        w: CScalar { bytes: vec_to_array32(&fields[1]) },
    };
    proof {
        assert(fields[0]@.take(32) =~= fields[0]@);
        assert(fields[1]@.take(32) =~= fields[1]@);
        assert(fields.deep_view() =~~= spec_broadcast_fields(m));
    }
    Some(m)
}


/// The wire fields of a zero-share reveal.
pub open spec fn spec_zero_reveal_fields(m: TransmitInitZeroSharePhase3to4) -> Seq<Seq<u8>> {
    seq![seq![m.parties.sender, m.parties.receiver], m.seed@, m.salt@]
}

/// Frames a zero-share reveal for the wire.
pub fn encode_zero_reveal(m: &TransmitInitZeroSharePhase3to4) -> (r: Vec<u8>)
    requires
        m.salt@.len() < 0x100000000,
    ensures
        r@ =~= spec_frame(WIRE_VERSION, spec_zero_reveal_fields(*m)),
{
    let mut route: Vec<u8> = Vec::new();
    route.push(m.parties.sender);
    route.push(m.parties.receiver);
    let fields: Vec<Vec<u8>> = vec![route, array32_to_vec(&m.seed), m.salt.clone()];
    let r = encode_frame(&fields);
    proof {
        assert(fields.deep_view() =~~= spec_zero_reveal_fields(*m));
    }
    r
}

/// Parses a framed zero-share reveal; whatever it accepts re-frames to
/// exactly the input bytes, and the frame of any reveal whose salt fits
/// its length prefix is accepted.
pub fn decode_zero_reveal(bytes: &Vec<u8>) -> (r: Option<TransmitInitZeroSharePhase3to4>)
    ensures
        r is Some ==> bytes@ =~= spec_frame(WIRE_VERSION, spec_zero_reveal_fields(r->0))
            && r->0.salt@.len() < 0x100000000,
        (exists|m: TransmitInitZeroSharePhase3to4|
            bytes@ =~= spec_frame(WIRE_VERSION, #[trigger] spec_zero_reveal_fields(m))
                && m.salt@.len() < 0x100000000) ==> r is Some,
{
    let ghost has_msg = exists|m: TransmitInitZeroSharePhase3to4|
        bytes@ =~= spec_frame(WIRE_VERSION, #[trigger] spec_zero_reveal_fields(m))
            && m.salt@.len() < 0x100000000;
    let ghost gm: TransmitInitZeroSharePhase3to4 = if has_msg {
        choose|m: TransmitInitZeroSharePhase3to4|
            bytes@ =~= spec_frame(WIRE_VERSION, #[trigger] spec_zero_reveal_fields(m))
                && m.salt@.len() < 0x100000000
    } else {
        arbitrary()
    };
    proof {
        if has_msg {
            assert(spec_fields_bounded(spec_zero_reveal_fields(gm)));
        }
    }
    let fields = match decode_frame(bytes) {
        Some(f) => f,
        None => {
            proof {
                if has_msg {
                    assert(false);
                }
            }
            return None;
        },
    };
    if fields.len() != 3 || fields[0].len() != 2 || fields[1].len() != 32 {
        proof {
            if has_msg {
                lemma_frame_unambiguous(
                    WIRE_VERSION,
                    fields.deep_view(),
                    WIRE_VERSION,
                    spec_zero_reveal_fields(gm),
                );
                assert(false);
            }
        }
        return None;
    }
    let m = TransmitInitZeroSharePhase3to4 {
        parties: PartiesMessage { sender: fields[0][0], receiver: fields[0][1] },
        seed: vec_to_array32(&fields[1]),
        salt: fields[2].clone(),
    };
    proof {
        assert(fields[0]@ =~= seq![m.parties.sender, m.parties.receiver]);
        assert(fields[1]@.take(32) =~= fields[1]@);
        assert(fields.deep_view() =~~= spec_zero_reveal_fields(m));
    }
    Some(m)
}


/// Round trip: framing a signing broadcast and parsing it back always
/// succeeds and returns the same shares — decoding is total on encoded
/// frames and, by unambiguity, exact.
pub fn broadcast_wire_roundtrip(m: &Broadcast3to4) -> (r: bool)
    ensures
        r,
{
    let bytes = encode_broadcast(m);
    let back = match decode_broadcast(&bytes) {
        Some(b) => b,
        None => {
            proof {
                assert(false);
            }
            return false;
        },
    };
    proof {
        lemma_frame_unambiguous(
            WIRE_VERSION,
            spec_broadcast_fields(*m),
            WIRE_VERSION,
            spec_broadcast_fields(back),
        );
    }
    crate::bytes::bytes32_eq(&m.u.bytes, &back.u.bytes) && crate::bytes::bytes32_eq(
        &m.w.bytes,
        &back.w.bytes,
    )
}

/// Round trip: framing a zero-share reveal and parsing it back always
/// succeeds and returns the same message.
pub fn zero_reveal_wire_roundtrip(m: &TransmitInitZeroSharePhase3to4) -> (r: bool)
    requires
        m.salt@.len() < 0x100000000,
    ensures
        r,
{
    let bytes = encode_zero_reveal(m);
    let back = match decode_zero_reveal(&bytes) {
        Some(b) => b,
        None => {
            proof {
                assert(false);
            }
            return false;
        },
    };
    proof {
        assert(spec_fields_bounded(spec_zero_reveal_fields(*m)));
        assert(spec_fields_bounded(spec_zero_reveal_fields(back)));
        lemma_frame_unambiguous(
            WIRE_VERSION,
            spec_zero_reveal_fields(*m),
            WIRE_VERSION,
            spec_zero_reveal_fields(back),
        );
        assert(spec_zero_reveal_fields(*m)[0] =~= spec_zero_reveal_fields(back)[0]);
        assert(m.parties.sender == back.parties.sender && m.parties.receiver
            == back.parties.receiver);
    }
    let same = m.parties.sender == back.parties.sender && m.parties.receiver
        == back.parties.receiver && crate::bytes::bytes32_eq(&m.seed, &back.seed) && salt_eq(
        &m.salt,
        &back.salt,
    );
    same
}

/// Compares two byte vectors.
fn salt_eq(a: &Vec<u8>, b: &Vec<u8>) -> (r: bool)
    ensures
        r == (a@ =~= b@),
{
    if a.len() != b.len() {
        return false;
    }
    let mut i: usize = 0;
    while i < a.len()
        invariant
            i <= a@.len(),
            a@.len() == b@.len(),
            forall|j: int| 0 <= j < i ==> a@[j] == b@[j],
        decreases a@.len() - i,
    {
        if a[i] != b[i] {
            return false;
        }
        i += 1;
    }
    proof {
        assert(a@ =~= b@);
    }
    true
}

} // verus!
