//! A lossless, field-tagged binary wire form for the snapshot's container
//! descriptor and details map. Integers travel as fixed-width little-endian
//! words, strings as a byte count followed by their UTF-8 bytes, options
//! behind one tag byte. Every reader's contract states that on any byte
//! string that begins with the encoding of a value, it returns exactly that
//! value; together with the writers' exact contracts this is a round-trip
//! law: decoding an encoded descriptor or details map yields the original,
//! the presence or absence of every optional part included.

use vstd::prelude::*;
use vstd::slice::{slice_subrange, slice_to_vec};
use crate::snapshot::{
    Best, Codec, CodecView, Discard, Format, FormatView, Rational, SampleFormat, view_pairs,
    view_strings,
};
use vstd::utf8::{
    decode_utf8_encode_utf8, encode_utf8, encode_utf8_decode_utf8, encode_utf8_valid_utf8,
    valid_utf8,
};

verus! {

/// The `n` little-endian base-256 digits of `v`, least significant first.
pub open spec fn le_bytes(v: nat, n: nat) -> Seq<u8>
    decreases n,
{
    if n == 0 {
        Seq::empty()
    } else {
        seq![(v % 256) as u8] + le_bytes(v / 256, (n - 1) as nat)
    }
}

pub open spec fn enc_u64(v: u64) -> Seq<u8> {
    le_bytes(v as nat, 8)
}

proof fn lemma_le_bytes_len(v: nat, n: nat)
    ensures
        le_bytes(v, n).len() == n,
    decreases n,
{
    if n != 0 {
        lemma_le_bytes_len(v / 256, (n - 1) as nat);
    }
}

pub broadcast proof fn lemma_enc_u64_len(v: u64)
    ensures
        (#[trigger] enc_u64(v)).len() == 8,
{
    lemma_le_bytes_len(v as nat, 8);
}

/// Splitting a known concatenation off the front of a prefix.
proof fn lemma_prefix_parts(a: Seq<u8>, b: Seq<u8>, s: Seq<u8>)
    requires
        (a + b).is_prefix_of(s),
    ensures
        a.is_prefix_of(s),
        b.is_prefix_of(s.skip(a.len() as int)),
{
    let n = a.len() as int;
    assert((a + b) == s.subrange(0, (a + b).len() as int));
    assert forall|i: int| 0 <= i < a.len() implies a[i] == s.subrange(0, n)[i] by {
        assert((a + b)[i] == a[i]);
        assert(s.subrange(0, (a + b).len() as int)[i] == s[i]);
    }
    assert(a =~= s.subrange(0, n));
    assert forall|i: int| 0 <= i < b.len() implies b[i] == s.skip(n).subrange(
        0,
        b.len() as int,
    )[i] by {
        assert((a + b)[n + i] == b[i]);
        assert(s.subrange(0, (a + b).len() as int)[n + i] == s[n + i]);
        assert(s.skip(n)[i] == s[n + i]);
    }
    assert(b =~= s.skip(n).subrange(0, b.len() as int));
}

/// Appends the little-endian bytes of `v`.
fn write_u64(v: u64, out: &mut Vec<u8>)
    ensures
        final(out)@ == old(out)@ + enc_u64(v),
{
    let mut x = v;
    let mut k: usize = 0;
    while k < 8
        invariant
            k <= 8,
            old(out)@ + enc_u64(v) == out@ + le_bytes(x as nat, (8 - k) as nat),
        decreases 8 - k,
    {
        let ghost pre = out@;
        let b: u8 = (x % 256) as u8;
        out.push(b);
        proof {
            assert(le_bytes(x as nat, (8 - k) as nat) == seq![b] + le_bytes(
                x as nat / 256,
                (8 - k - 1) as nat,
            ));
            assert(pre + (seq![b] + le_bytes(x as nat / 256, (8 - k - 1) as nat)) =~= out@
                + le_bytes(x as nat / 256, (8 - k - 1) as nat));
        }
        x = x / 256;
        k = k + 1;
    }
    proof {
        assert(le_bytes(x as nat, 0) =~= Seq::<u8>::empty());
        assert(out@ + le_bytes(x as nat, 0) =~= out@);
    }
}

/// Unfolded little-endian digits of a 64-bit word.
proof fn lemma_enc_u64_bytes(v: u64)
    ensures
        enc_u64(v).len() == 8,
        enc_u64(v)[0] == (v as nat % 256) as u8,
        enc_u64(v)[1] == (v as nat / 256 % 256) as u8,
        enc_u64(v)[2] == (v as nat / 0x10000 % 256) as u8,
        enc_u64(v)[3] == (v as nat / 0x1000000 % 256) as u8,
        enc_u64(v)[4] == (v as nat / 0x100000000 % 256) as u8,
        enc_u64(v)[5] == (v as nat / 0x10000000000 % 256) as u8,
        enc_u64(v)[6] == (v as nat / 0x1000000000000 % 256) as u8,
        enc_u64(v)[7] == (v as nat / 0x100000000000000 % 256) as u8,
{
    let n0 = v as nat;
    let n1 = n0 / 256;
    let n2 = n1 / 256;
    let n3 = n2 / 256;
    let n4 = n3 / 256;
    let n5 = n4 / 256;
    let n6 = n5 / 256;
    let n7 = n6 / 256;
    lemma_le_bytes_len(n0, 8);
    assert(le_bytes(n0, 8) == seq![(n0 % 256) as u8] + le_bytes(n1, 7));
    assert(le_bytes(n1, 7) == seq![(n1 % 256) as u8] + le_bytes(n2, 6));
    assert(le_bytes(n2, 6) == seq![(n2 % 256) as u8] + le_bytes(n3, 5));
    assert(le_bytes(n3, 5) == seq![(n3 % 256) as u8] + le_bytes(n4, 4));
    assert(le_bytes(n4, 4) == seq![(n4 % 256) as u8] + le_bytes(n5, 3));
    assert(le_bytes(n5, 3) == seq![(n5 % 256) as u8] + le_bytes(n6, 2));
    assert(le_bytes(n6, 2) == seq![(n6 % 256) as u8] + le_bytes(n7, 1));
    assert(le_bytes(n7, 1) == seq![(n7 % 256) as u8] + le_bytes(n7 / 256, 0));
    assert(n2 == n0 / 0x10000) by {
        assert(n0 == 256 * n1 + n0 % 256);
        assert(n1 == 256 * n2 + n1 % 256);
    }
    assert(n3 == n0 / 0x1000000) by {
        assert(n0 == 0x10000 * n2 + (n0 - 0x10000 * n2));
        assert(n2 == 256 * n3 + n2 % 256);
    }
    assert(n4 == n0 / 0x100000000) by {
        assert(n3 == 256 * n4 + n3 % 256);
    }
    assert(n5 == n0 / 0x10000000000) by {
        assert(n4 == 256 * n5 + n4 % 256);
    }
    assert(n6 == n0 / 0x1000000000000) by {
        assert(n5 == 256 * n6 + n5 % 256);
    }
    assert(n7 == n0 / 0x100000000000000) by {
        assert(n6 == 256 * n7 + n6 % 256);
    }
}

/// Reads eight little-endian bytes back into the word they came from.
fn read_u64(bytes: &Vec<u8>, pos: usize) -> (r: Option<(u64, usize)>)
    requires
        pos <= bytes@.len(),
    ensures
        r matches Some(p) ==> pos + 8 <= bytes@.len() && p.1 == pos + 8,
        forall|v: u64| #[trigger] enc_u64(v).is_prefix_of(bytes@.skip(pos as int)) ==> (r matches
            Some(p) && p.0 == v && p.1 == pos + 8),
{
    if bytes.len() - pos < 8 {
        proof {
            assert forall|v: u64| #[trigger] enc_u64(v).is_prefix_of(bytes@.skip(pos as int))
                implies false by {
                lemma_le_bytes_len(v as nat, 8);
            }
        }
        return None;
    }
    let b0 = bytes[pos];
    let b1 = bytes[pos + 1];
    let b2 = bytes[pos + 2];
    let b3 = bytes[pos + 3];
    let b4 = bytes[pos + 4];
    let b5 = bytes[pos + 5];
    let b6 = bytes[pos + 6];
    let b7 = bytes[pos + 7];
    let t7: u64 = b7 as u64;
    let t6: u64 = b6 as u64 + 256 * t7;
    let t5: u64 = b5 as u64 + 256 * t6;
    let t4: u64 = b4 as u64 + 256 * t5;
    let t3: u64 = b3 as u64 + 256 * t4;
    let t2: u64 = b2 as u64 + 256 * t3;
    let t1: u64 = b1 as u64 + 256 * t2;
    let t0: u64 = b0 as u64 + 256 * t1;
    proof {
        assert forall|v: u64| #[trigger] enc_u64(v).is_prefix_of(bytes@.skip(pos as int)) implies (
        Some((t0, (pos + 8) as usize)) matches Some(p) && p.0 == v && p.1 == pos + 8) by {
            lemma_enc_u64_bytes(v);
            let s = bytes@.skip(pos as int);
            assert(enc_u64(v) =~= s.subrange(0, 8));
            assert(s[0] == b0 && s[1] == b1 && s[2] == b2 && s[3] == b3 && s[4] == b4 && s[5] == b5
                && s[6] == b6 && s[7] == b7);
            let n0 = v as nat;
            let n1 = n0 / 256;
            let n2 = n0 / 0x10000;
            let n3 = n0 / 0x1000000;
            let n4 = n0 / 0x100000000;
            let n5 = n0 / 0x10000000000;
            let n6 = n0 / 0x1000000000000;
            let n7 = n0 / 0x100000000000000;
            assert(n1 / 256 == n2 && n2 / 256 == n3 && n3 / 256 == n4 && n4 / 256 == n5 && n5 / 256
                == n6 && n6 / 256 == n7) by {
                assert(n0 == 256 * n1 + n0 % 256);
                assert(n0 == 0x10000 * n2 + n0 % 0x10000);
                assert(n0 == 0x1000000 * n3 + n0 % 0x1000000);
                assert(n0 == 0x100000000 * n4 + n0 % 0x100000000);
                assert(n0 == 0x10000000000 * n5 + n0 % 0x10000000000);
                assert(n0 == 0x1000000000000 * n6 + n0 % 0x1000000000000);
            }
            assert(n7 < 256);
            assert(t7 == n7);
            assert(t6 == n6) by {
                assert(n6 == 256 * n7 + n6 % 256);
            }
            assert(t5 == n5) by {
                assert(n5 == 256 * n6 + n5 % 256);
            }
            assert(t4 == n4) by {
                assert(n4 == 256 * n5 + n4 % 256);
            }
            assert(t3 == n3) by {
                assert(n3 == 256 * n4 + n3 % 256);
            }
            assert(t2 == n2) by {
                assert(n2 == 256 * n3 + n2 % 256);
            }
            assert(t1 == n1) by {
                assert(n1 == 256 * n2 + n1 % 256);
            }
            assert(t0 == n0) by {
                assert(n0 == 256 * n1 + n0 % 256);
            }
        }
    }
    Some((t0, pos + 8))
}

/// A string: the UTF-8 byte count, then the UTF-8 bytes themselves.
pub open spec fn enc_str(s: Seq<char>) -> Seq<u8> {
    enc_u64(encode_utf8(s).len() as u64) + encode_utf8(s)
}

/// Relies on String::from_utf8: succeeds exactly on valid UTF-8 input, and
/// the returned string's UTF-8 bytes are the input bytes.
#[verifier::external_body]
fn string_from_utf8(v: Vec<u8>) -> (r: Option<String>)
    ensures
        r matches Some(s) ==> encode_utf8(s@) == v@,
        valid_utf8(v@) ==> r is Some,
{
    String::from_utf8(v).ok()
}

proof fn lemma_str_parts(sv: Seq<char>, s: Seq<u8>)
    requires
        enc_str(sv).is_prefix_of(s),
    ensures
        enc_u64(encode_utf8(sv).len() as u64).is_prefix_of(s),
        encode_utf8(sv).is_prefix_of(s.skip(8)),
        encode_utf8(sv).len() <= s.len() - 8,
{
    lemma_prefix_parts(enc_u64(encode_utf8(sv).len() as u64), encode_utf8(sv), s);
    lemma_le_bytes_len(encode_utf8(sv).len() as u64 as nat, 8);
}

fn read_str(bytes: &Vec<u8>, pos: usize) -> (r: Option<(String, usize)>)
    requires
        pos <= bytes@.len(),
    ensures
        r matches Some(p) ==> pos < p.1 <= bytes@.len(),
        forall|sv: Seq<char>| #[trigger] enc_str(sv).is_prefix_of(bytes@.skip(pos as int)) ==> (
        r matches Some(p) && p.0@ == sv && p.1 as int == pos + enc_str(sv).len()),
{
    broadcast use lemma_enc_u64_len;

    let ghost s = bytes@.skip(pos as int);
    let s0 = match read_u64(bytes, pos) {
        Some(p) => p,
        None => {
            proof {
                assert forall|sv: Seq<char>| #[trigger] enc_str(sv).is_prefix_of(s)
                    implies false by {
                    lemma_str_parts(sv, s);
                }
            }
            return None;
        },
    };
    let n = s0.0;
    let pos1 = s0.1;
    let avail = bytes.len() - pos1;
    if n > avail as u64 {
        proof {
            assert forall|sv: Seq<char>| #[trigger] enc_str(sv).is_prefix_of(s) implies false by {
                lemma_str_parts(sv, s);
                assert(encode_utf8(sv).len() < 0x10000000000000000);
                assert(n == encode_utf8(sv).len() as u64);
            }
        }
        return None;
    }
    let nn = n as usize;
    let sub = slice_subrange(bytes.as_slice(), pos1, pos1 + nn);
    let bv = slice_to_vec(sub);
    proof {
        assert(bv@ =~= bytes@.subrange(pos1 as int, pos1 + nn));
    }
    match string_from_utf8(bv) {
        Some(st) => {
            proof {
                assert forall|sv: Seq<char>| #[trigger] enc_str(sv).is_prefix_of(s) implies st@
                    == sv && pos1 + nn == pos + enc_str(sv).len() by {
                    lemma_str_parts(sv, s);
                    assert(encode_utf8(sv).len() < 0x10000000000000000);
                    assert(n == encode_utf8(sv).len() as u64);
                    assert(s.skip(8) =~= bytes@.skip(pos1 as int));
                    assert(encode_utf8(sv) =~= bytes@.skip(pos1 as int).subrange(0, nn as int));
                    assert(bytes@.skip(pos1 as int).subrange(0, nn as int) =~= bytes@.subrange(
                        pos1 as int,
                        pos1 + nn,
                    ));
                    assert(encode_utf8(st@) == encode_utf8(sv));
                    encode_utf8_decode_utf8(st@);
                    encode_utf8_decode_utf8(sv);
                }
            }
            Some((st, pos1 + nn))
        },
        None => {
            proof {
                assert forall|sv: Seq<char>| #[trigger] enc_str(sv).is_prefix_of(s)
                    implies false by {
                    lemma_str_parts(sv, s);
                    assert(encode_utf8(sv).len() < 0x10000000000000000);
                    assert(n == encode_utf8(sv).len() as u64);
                    assert(s.skip(8) =~= bytes@.skip(pos1 as int));
                    assert(encode_utf8(sv) =~= bytes@.skip(pos1 as int).subrange(0, nn as int));
                    assert(encode_utf8(sv) == bv@);
                    encode_utf8_valid_utf8(sv);
                }
            }
            None
        },
    }
}

fn write_str(s: &str, out: &mut Vec<u8>)
    ensures
        final(out)@ == old(out)@ + enc_str(s@),
{
    let mut bv = s.as_bytes_vec();
    write_u64(bv.len() as u64, out);
    out.append(&mut bv);
    proof {
        assert(out@ =~= old(out)@ + enc_str(s@));
    }
}

/// A key/value tag pair: the key, then the value.
pub open spec fn enc_pair(kv: (Seq<char>, Seq<char>)) -> Seq<u8> {
    enc_str(kv.0) + enc_str(kv.1)
}

proof fn lemma_pair_parts(kv: (Seq<char>, Seq<char>), s: Seq<u8>)
    requires
        enc_pair(kv).is_prefix_of(s),
    ensures
        enc_str(kv.0).is_prefix_of(s),
        enc_str(kv.1).is_prefix_of(s.skip(enc_str(kv.0).len() as int)),
{
    lemma_prefix_parts(enc_str(kv.0), enc_str(kv.1), s);
}

fn write_pair(x: &(String, String), out: &mut Vec<u8>)
    ensures
        final(out)@ == old(out)@ + enc_pair((x.0@, x.1@)),
{
    write_str(x.0.as_str(), out);
    write_str(x.1.as_str(), out);
    proof {
        assert(out@ =~= old(out)@ + enc_pair((x.0@, x.1@)));
    }
}

fn read_pair(bytes: &Vec<u8>, pos: usize) -> (r: Option<((String, String), usize)>)
    requires
        pos <= bytes@.len(),
    ensures
        r matches Some(p) ==> pos <= p.1 <= bytes@.len(),
        forall|kv: (Seq<char>, Seq<char>)| #[trigger] enc_pair(kv).is_prefix_of(
            bytes@.skip(pos as int),
        ) ==> (r matches Some(p) && (p.0.0@, p.0.1@) == kv && p.1 as int == pos + enc_pair(
            kv,
        ).len()),
{
    let ghost s = bytes@.skip(pos as int);
    let s0 = match read_str(bytes, pos) {
        Some(p) => p,
        None => {
            proof {
                assert forall|kv: (Seq<char>, Seq<char>)| #[trigger] enc_pair(kv).is_prefix_of(s)
                    implies false by {
                    lemma_pair_parts(kv, s);
                }
            }
            return None;
        },
    };
    let k = s0.0;
    let p1 = s0.1;
    let s1 = match read_str(bytes, p1) {
        Some(p) => p,
        None => {
            proof {
                assert forall|kv: (Seq<char>, Seq<char>)| #[trigger] enc_pair(kv).is_prefix_of(s)
                    implies false by {
                    lemma_pair_parts(kv, s);
                    assert(s.skip(enc_str(kv.0).len() as int) =~= bytes@.skip(p1 as int));
                }
            }
            return None;
        },
    };
    let v = s1.0;
    let p2 = s1.1;
    proof {
        assert forall|kv: (Seq<char>, Seq<char>)| #[trigger] enc_pair(kv).is_prefix_of(s) implies (
        k@ == kv.0 && v@ == kv.1 && p2 as int == pos + enc_pair(kv).len()) by {
            lemma_pair_parts(kv, s);
            assert(s.skip(enc_str(kv.0).len() as int) =~= bytes@.skip(p1 as int));
        }
    }
    Some(((k, v), p2))
}


/// The items of A list of strings, in order.
pub open spec fn enc_str_list_items(vs: Seq<Seq<char>>) -> Seq<u8>
    decreases vs.len(),
{
    if vs.len() == 0 {
        Seq::empty()
    } else {
        enc_str(vs[0]) + enc_str_list_items(vs.skip(1))
    }
}

/// A list of strings: the count, then each item.
pub open spec fn enc_str_list(vs: Seq<Seq<char>>) -> Seq<u8> {
    enc_u64(vs.len() as u64) + enc_str_list_items(vs)
}

proof fn lemma_str_list_items_snoc(a: Seq<Seq<char>>, x: Seq<char>)
    ensures
        enc_str_list_items(a.push(x)) == enc_str_list_items(a) + enc_str(x),
    decreases a.len(),
{
    if a.len() == 0 {
        assert(a.push(x)[0] == x);
        assert(a.push(x).skip(1) =~= Seq::<Seq<char>>::empty());
        assert(enc_str_list_items(a.push(x).skip(1)) == Seq::<u8>::empty());
        assert(enc_str_list_items(a.push(x)) == enc_str(x) + Seq::<u8>::empty());
        assert(enc_str_list_items(a) == Seq::<u8>::empty());
        assert(enc_str(x) + Seq::<u8>::empty() =~= Seq::<u8>::empty() + enc_str(x));
    } else {
        lemma_str_list_items_snoc(a.skip(1), x);
        assert(a.push(x).skip(1) =~= a.skip(1).push(x));
        assert(a.push(x)[0] == a[0]);
        assert(enc_str_list_items(a.push(x)) == enc_str(a[0]) + (enc_str_list_items(a.skip(1)) + enc_str(x)));
        assert(enc_str(a[0]) + (enc_str_list_items(a.skip(1)) + enc_str(x)) =~= (enc_str(a[0]) + enc_str_list_items(a.skip(1))) + enc_str(x));
        assert(enc_str_list_items(a) == enc_str(a[0]) + enc_str_list_items(a.skip(1)));
    }
}

proof fn lemma_str_list_items_count(vs: Seq<Seq<char>>)
    ensures
        enc_str_list_items(vs).len() >= vs.len(),
    decreases vs.len(),
{
    broadcast use lemma_enc_u64_len;

    if vs.len() != 0 {
        lemma_str_list_items_count(vs.skip(1));
    }
}

proof fn lemma_str_list_items_split(vs: Seq<Seq<char>>, i: int)
    requires
        0 <= i < vs.len(),
    ensures
        enc_str_list_items(vs.skip(i)) == enc_str(vs[i]) + enc_str_list_items(vs.skip(i + 1)),
{
    assert(vs.skip(i)[0] == vs[i]);
    assert(vs.skip(i).skip(1) =~= vs.skip(i + 1));
    assert(vs.skip(i).len() != 0);
}

fn write_str_list(x: &Vec<String>, out: &mut Vec<u8>)
    ensures
        final(out)@ == old(out)@ + enc_str_list(view_strings(x@)),
{
    let ghost vs = view_strings(x@);
    write_u64(x.len() as u64, out);
    let mut i: usize = 0;
    proof {
        assert(enc_str_list_items(vs.take(0)) =~= Seq::<u8>::empty());
        assert(out@ =~= old(out)@ + enc_u64(vs.len() as u64) + enc_str_list_items(vs.take(0)));
    }
    while i < x.len()
        invariant
            i <= x@.len(),
            vs == view_strings(x@),
            vs.len() == x@.len(),
            out@ == old(out)@ + enc_u64(vs.len() as u64) + enc_str_list_items(vs.take(i as int)),
        decreases x@.len() - i,
    {
        write_str(x[i].as_str(), out);
        proof {
            assert(vs[i as int] == x@[i as int]@);
            lemma_str_list_items_snoc(vs.take(i as int), vs[i as int]);
            assert(vs.take(i + 1) =~= vs.take(i as int).push(vs[i as int]));
            assert(out@ =~= old(out)@ + enc_u64(vs.len() as u64) + enc_str_list_items(vs.take(i + 1)));
        }
        i = i + 1;
    }
    proof {
        assert(vs.take(vs.len() as int) =~= vs);
        assert(out@ =~= old(out)@ + enc_str_list(vs));
    }
}

#[verifier::rlimit(100)]
fn read_str_list(bytes: &Vec<u8>, pos: usize) -> (r: Option<(Vec<String>, usize)>)
    requires
        pos <= bytes@.len(),
    ensures
        r matches Some(p) ==> pos <= p.1 <= bytes@.len(),
        forall|vs: Seq<Seq<char>>| #[trigger] enc_str_list(vs).is_prefix_of(bytes@.skip(pos as int)) ==> (
        r matches Some(p) && view_strings(p.0@) == vs && p.1 as int == pos + enc_str_list(vs).len()),
{
    broadcast use lemma_enc_u64_len;

    let ghost s = bytes@.skip(pos as int);
    let _total = bytes.len();
    let s0 = match read_u64(bytes, pos) {
        Some(p) => p,
        None => {
            proof {
                assert forall|vs: Seq<Seq<char>>| #[trigger] enc_str_list(vs).is_prefix_of(s) implies false by {
                    lemma_prefix_parts(enc_u64(vs.len() as u64), enc_str_list_items(vs), s);
                }
            }
            return None;
        },
    };
    let n = s0.0;
    let pos1 = s0.1;
    proof {
        assert forall|vs: Seq<Seq<char>>| #[trigger] enc_str_list(vs).is_prefix_of(s) implies ({
            &&& n == vs.len() as u64
            &&& vs.len() <= u64::MAX
            &&& enc_str_list_items(vs).is_prefix_of(bytes@.skip(pos1 as int))
            &&& vs.take(0) == Seq::<Seq<char>>::empty()
            &&& vs.skip(0) == vs
            &&& enc_str_list_items(vs.take(0)).len() == 0
        }) by {
            lemma_prefix_parts(enc_u64(vs.len() as u64), enc_str_list_items(vs), s);
            lemma_str_list_items_count(vs);
            assert(s.skip(8) =~= bytes@.skip(pos1 as int));
            assert(enc_u64((vs.len() as u64)).is_prefix_of(s));
            assert(vs.take(0) =~= Seq::<Seq<char>>::empty());
            assert(vs.skip(0) =~= vs);
            assert(enc_str_list_items(vs.take(0)) == Seq::<u8>::empty());
        }
    }
    let mut out: Vec<String> = Vec::new();
    let mut i: u64 = 0;
    let mut cur: usize = pos1;
    proof {
        assert(view_strings(out@) =~= Seq::<Seq<char>>::empty());
    }
    while i < n
        invariant
            pos1 <= cur <= bytes@.len(),
            pos <= bytes@.len(),
            i <= n,
            s == bytes@.skip(pos as int),
            pos1 as int == pos + 8,
            out@.len() == i,
            forall|vs: Seq<Seq<char>>| #[trigger] enc_str_list(vs).is_prefix_of(s) ==> (i <= vs.len()
                && vs.len() as u64 == n && view_strings(out@) == vs.take(i as int) && cur as int
                == pos1 + enc_str_list_items(vs.take(i as int)).len() && enc_str_list_items(vs.skip(i as int)).is_prefix_of(
                bytes@.skip(cur as int),
            )),
        decreases n - i,
    {
        let s1 = match read_str(bytes, cur) {
            Some(p) => p,
            None => {
                proof {
                    assert forall|vs: Seq<Seq<char>>| #[trigger] enc_str_list(vs).is_prefix_of(s)
                        implies false by {
                        lemma_str_list_items_split(vs, i as int);
                        lemma_prefix_parts(enc_str(vs[i as int]), enc_str_list_items(vs.skip(i as int + 1)),
                            bytes@.skip(cur as int));
                    }
                }
                return None;
            },
        };
        let st = s1.0;
        let cur2 = s1.1;
        let ghost pre = out@;
        out.push(st);
        proof {
            assert forall|vs: Seq<Seq<char>>| #[trigger] enc_str_list(vs).is_prefix_of(s) implies (i + 1
                <= vs.len() && view_strings(out@) == vs.take(i + 1) && cur2 as int == pos1 + enc_str_list_items(
                vs.take(i + 1),
            ).len() && enc_str_list_items(vs.skip(i + 1)).is_prefix_of(bytes@.skip(cur2 as int))) by {
                lemma_str_list_items_split(vs, i as int);
                lemma_prefix_parts(enc_str(vs[i as int]), enc_str_list_items(vs.skip(i as int + 1)),
                    bytes@.skip(cur as int));
                assert(enc_str(vs[i as int]).is_prefix_of(bytes@.skip(cur as int)));
                crate::snapshot::lemma_view_strings_push(pre, st);
                assert(st@ == vs[i as int]);
                assert(vs.take(i + 1) =~= vs.take(i as int).push(vs[i as int]));
                lemma_str_list_items_snoc(vs.take(i as int), vs[i as int]);
                assert(view_strings(out@) =~= vs.take(i + 1));
                assert(bytes@.skip(cur as int).skip(enc_str(vs[i as int]).len() as int) =~= bytes@.skip(
                    cur2 as int,
                ));
            }
        }
        i = i + 1;
        cur = cur2;
    }
    proof {
        assert forall|vs: Seq<Seq<char>>| #[trigger] enc_str_list(vs).is_prefix_of(s) implies (view_strings(
            out@,
        ) == vs && cur as int == pos + enc_str_list(vs).len()) by {
            assert(vs.len() == i);
            assert(vs.take(i as int) =~= vs);
        }
    }
    Some((out, cur))
}

/// The items of The container tags, in order.
pub open spec fn enc_pair_list_items(vs: Seq<(Seq<char>, Seq<char>)>) -> Seq<u8>
    decreases vs.len(),
{
    if vs.len() == 0 {
        Seq::empty()
    } else {
        enc_pair(vs[0]) + enc_pair_list_items(vs.skip(1))
    }
}

/// The container tags: the count, then each item.
pub open spec fn enc_pair_list(vs: Seq<(Seq<char>, Seq<char>)>) -> Seq<u8> {
    enc_u64(vs.len() as u64) + enc_pair_list_items(vs)
}

proof fn lemma_pair_list_items_snoc(a: Seq<(Seq<char>, Seq<char>)>, x: (Seq<char>, Seq<char>))
    ensures
        enc_pair_list_items(a.push(x)) == enc_pair_list_items(a) + enc_pair(x),
    decreases a.len(),
{
    if a.len() == 0 {
        assert(a.push(x)[0] == x);
        assert(a.push(x).skip(1) =~= Seq::<(Seq<char>, Seq<char>)>::empty());
        assert(enc_pair_list_items(a.push(x).skip(1)) == Seq::<u8>::empty());
        assert(enc_pair_list_items(a.push(x)) == enc_pair(x) + Seq::<u8>::empty());
        assert(enc_pair_list_items(a) == Seq::<u8>::empty());
        assert(enc_pair(x) + Seq::<u8>::empty() =~= Seq::<u8>::empty() + enc_pair(x));
    } else {
        lemma_pair_list_items_snoc(a.skip(1), x);
        assert(a.push(x).skip(1) =~= a.skip(1).push(x));
        assert(a.push(x)[0] == a[0]);
        assert(enc_pair_list_items(a.push(x)) == enc_pair(a[0]) + (enc_pair_list_items(a.skip(1)) + enc_pair(x)));
        assert(enc_pair(a[0]) + (enc_pair_list_items(a.skip(1)) + enc_pair(x)) =~= (enc_pair(a[0]) + enc_pair_list_items(a.skip(1))) + enc_pair(x));
        assert(enc_pair_list_items(a) == enc_pair(a[0]) + enc_pair_list_items(a.skip(1)));
    }
}

proof fn lemma_pair_list_items_count(vs: Seq<(Seq<char>, Seq<char>)>)
    ensures
        enc_pair_list_items(vs).len() >= vs.len(),
    decreases vs.len(),
{
    broadcast use lemma_enc_u64_len;

    if vs.len() != 0 {
        lemma_pair_list_items_count(vs.skip(1));
    }
}

proof fn lemma_pair_list_items_split(vs: Seq<(Seq<char>, Seq<char>)>, i: int)
    requires
        0 <= i < vs.len(),
    ensures
        enc_pair_list_items(vs.skip(i)) == enc_pair(vs[i]) + enc_pair_list_items(vs.skip(i + 1)),
{
    assert(vs.skip(i)[0] == vs[i]);
    assert(vs.skip(i).skip(1) =~= vs.skip(i + 1));
    assert(vs.skip(i).len() != 0);
}

fn write_pair_list(x: &Vec<(String, String)>, out: &mut Vec<u8>)
    ensures
        final(out)@ == old(out)@ + enc_pair_list(view_pairs(x@)),
{
    let ghost vs = view_pairs(x@);
    write_u64(x.len() as u64, out);
    let mut i: usize = 0;
    proof {
        assert(enc_pair_list_items(vs.take(0)) =~= Seq::<u8>::empty());
        assert(out@ =~= old(out)@ + enc_u64(vs.len() as u64) + enc_pair_list_items(vs.take(0)));
    }
    while i < x.len()
        invariant
            i <= x@.len(),
            vs == view_pairs(x@),
            vs.len() == x@.len(),
            out@ == old(out)@ + enc_u64(vs.len() as u64) + enc_pair_list_items(vs.take(i as int)),
        decreases x@.len() - i,
    {
        write_pair(&x[i], out);
        proof {
            assert(vs[i as int] == (x@[i as int].0@, x@[i as int].1@));
            lemma_pair_list_items_snoc(vs.take(i as int), vs[i as int]);
            assert(vs.take(i + 1) =~= vs.take(i as int).push(vs[i as int]));
            assert(out@ =~= old(out)@ + enc_u64(vs.len() as u64) + enc_pair_list_items(vs.take(i + 1)));
        }
        i = i + 1;
    }
    proof {
        assert(vs.take(vs.len() as int) =~= vs);
        assert(out@ =~= old(out)@ + enc_pair_list(vs));
    }
}

#[verifier::rlimit(100)]
fn read_pair_list(bytes: &Vec<u8>, pos: usize) -> (r: Option<(Vec<(String, String)>, usize)>)
    requires
        pos <= bytes@.len(),
    ensures
        r matches Some(p) ==> pos <= p.1 <= bytes@.len(),
        forall|vs: Seq<(Seq<char>, Seq<char>)>| #[trigger] enc_pair_list(vs).is_prefix_of(bytes@.skip(pos as int)) ==> (
        r matches Some(p) && view_pairs(p.0@) == vs && p.1 as int == pos + enc_pair_list(vs).len()),
{
    broadcast use lemma_enc_u64_len;

    let ghost s = bytes@.skip(pos as int);
    let _total = bytes.len();
    let s0 = match read_u64(bytes, pos) {
        Some(p) => p,
        None => {
            proof {
                assert forall|vs: Seq<(Seq<char>, Seq<char>)>| #[trigger] enc_pair_list(vs).is_prefix_of(s) implies false by {
                    lemma_prefix_parts(enc_u64(vs.len() as u64), enc_pair_list_items(vs), s);
                }
            }
            return None;
        },
    };
    let n = s0.0;
    let pos1 = s0.1;
    proof {
        assert forall|vs: Seq<(Seq<char>, Seq<char>)>| #[trigger] enc_pair_list(vs).is_prefix_of(s) implies ({
            &&& n == vs.len() as u64
            &&& vs.len() <= u64::MAX
            &&& enc_pair_list_items(vs).is_prefix_of(bytes@.skip(pos1 as int))
            &&& vs.take(0) == Seq::<(Seq<char>, Seq<char>)>::empty()
            &&& vs.skip(0) == vs
            &&& enc_pair_list_items(vs.take(0)).len() == 0
        }) by {
            lemma_prefix_parts(enc_u64(vs.len() as u64), enc_pair_list_items(vs), s);
            lemma_pair_list_items_count(vs);
            assert(s.skip(8) =~= bytes@.skip(pos1 as int));
            assert(enc_u64((vs.len() as u64)).is_prefix_of(s));
            assert(vs.take(0) =~= Seq::<(Seq<char>, Seq<char>)>::empty());
            assert(vs.skip(0) =~= vs);
            assert(enc_pair_list_items(vs.take(0)) == Seq::<u8>::empty());
        }
    }
    let mut out: Vec<(String, String)> = Vec::new();
    let mut i: u64 = 0;
    let mut cur: usize = pos1;
    proof {
        assert(view_pairs(out@) =~= Seq::<(Seq<char>, Seq<char>)>::empty());
    }
    while i < n
        invariant
            pos1 <= cur <= bytes@.len(),
            pos <= bytes@.len(),
            i <= n,
            s == bytes@.skip(pos as int),
            pos1 as int == pos + 8,
            out@.len() == i,
            forall|vs: Seq<(Seq<char>, Seq<char>)>| #[trigger] enc_pair_list(vs).is_prefix_of(s) ==> (i <= vs.len()
                && vs.len() as u64 == n && view_pairs(out@) == vs.take(i as int) && cur as int
                == pos1 + enc_pair_list_items(vs.take(i as int)).len() && enc_pair_list_items(vs.skip(i as int)).is_prefix_of(
                bytes@.skip(cur as int),
            )),
        decreases n - i,
    {
        let s1 = match read_pair(bytes, cur) {
            Some(p) => p,
            None => {
                proof {
                    assert forall|vs: Seq<(Seq<char>, Seq<char>)>| #[trigger] enc_pair_list(vs).is_prefix_of(s)
                        implies false by {
                        lemma_pair_list_items_split(vs, i as int);
                        lemma_prefix_parts(enc_pair(vs[i as int]), enc_pair_list_items(vs.skip(i as int + 1)),
                            bytes@.skip(cur as int));
                    }
                }
                return None;
            },
        };
        let st = s1.0;
        let cur2 = s1.1;
        let ghost pre = out@;
        out.push(st);
        proof {
            assert forall|vs: Seq<(Seq<char>, Seq<char>)>| #[trigger] enc_pair_list(vs).is_prefix_of(s) implies (i + 1
                <= vs.len() && view_pairs(out@) == vs.take(i + 1) && cur2 as int == pos1 + enc_pair_list_items(
                vs.take(i + 1),
            ).len() && enc_pair_list_items(vs.skip(i + 1)).is_prefix_of(bytes@.skip(cur2 as int))) by {
                lemma_pair_list_items_split(vs, i as int);
                lemma_prefix_parts(enc_pair(vs[i as int]), enc_pair_list_items(vs.skip(i as int + 1)),
                    bytes@.skip(cur as int));
                assert(enc_pair(vs[i as int]).is_prefix_of(bytes@.skip(cur as int)));
                crate::snapshot::lemma_view_pairs_push(pre, st);
                assert((st.0@, st.1@) == vs[i as int]);
                assert(vs.take(i + 1) =~= vs.take(i as int).push(vs[i as int]));
                lemma_pair_list_items_snoc(vs.take(i as int), vs[i as int]);
                assert(view_pairs(out@) =~= vs.take(i + 1));
                assert(bytes@.skip(cur as int).skip(enc_pair(vs[i as int]).len() as int) =~= bytes@.skip(
                    cur2 as int,
                ));
            }
        }
        i = i + 1;
        cur = cur2;
    }
    proof {
        assert forall|vs: Seq<(Seq<char>, Seq<char>)>| #[trigger] enc_pair_list(vs).is_prefix_of(s) implies (view_pairs(
            out@,
        ) == vs && cur as int == pos + enc_pair_list(vs).len()) by {
            assert(vs.len() == i);
            assert(vs.take(i as int) =~= vs);
        }
    }
    Some((out, cur))
}

/// The container descriptor: name, aliases, description, extensions, MIME types.
#[verifier::opaque]
pub open spec fn enc_format(v: FormatView) -> Seq<u8> {
    enc_str(v.name) + (enc_str_list(v.aliases) + (enc_str(v.description) + (enc_str_list(v.extensions) + (enc_str_list(v.mime_types)))))
}

#[verifier::rlimit(100)]
#[verifier::spinoff_prover]
proof fn lemma_format_parts(v: FormatView, s: Seq<u8>)
    requires
        enc_format(v).is_prefix_of(s),
    ensures
        enc_str(v.name).is_prefix_of(s),
        enc_str_list(v.aliases).is_prefix_of(s.skip((enc_str(v.name).len()) as int)),
        enc_str(v.description).is_prefix_of(s.skip((enc_str(v.name).len() + enc_str_list(v.aliases).len()) as int)),
        enc_str_list(v.extensions).is_prefix_of(s.skip((enc_str(v.name).len() + enc_str_list(v.aliases).len() + enc_str(v.description).len()) as int)),
        enc_str_list(v.mime_types).is_prefix_of(s.skip((enc_str(v.name).len() + enc_str_list(v.aliases).len() + enc_str(v.description).len() + enc_str_list(v.extensions).len()) as int)),
        enc_format(v).len() == enc_str(v.name).len() + enc_str_list(v.aliases).len() + enc_str(v.description).len() + enc_str_list(v.extensions).len() + enc_str_list(v.mime_types).len(),
{
    broadcast use lemma_enc_u64_len;

    reveal(enc_format);
    lemma_prefix_parts(enc_str(v.name), enc_str_list(v.aliases) + (enc_str(v.description) + (enc_str_list(v.extensions) + (enc_str_list(v.mime_types)))), s);
    assert(s.skip(enc_str(v.name).len() as int) =~= s.skip((enc_str(v.name).len()) as int));
    lemma_prefix_parts(enc_str_list(v.aliases), enc_str(v.description) + (enc_str_list(v.extensions) + (enc_str_list(v.mime_types))), s.skip((enc_str(v.name).len()) as int));
    assert(s.skip((enc_str(v.name).len()) as int).skip(enc_str_list(v.aliases).len() as int) =~= s.skip((enc_str(v.name).len() + enc_str_list(v.aliases).len()) as int));
    lemma_prefix_parts(enc_str(v.description), enc_str_list(v.extensions) + (enc_str_list(v.mime_types)), s.skip((enc_str(v.name).len() + enc_str_list(v.aliases).len()) as int));
    assert(s.skip((enc_str(v.name).len() + enc_str_list(v.aliases).len()) as int).skip(enc_str(v.description).len() as int) =~= s.skip((enc_str(v.name).len() + enc_str_list(v.aliases).len() + enc_str(v.description).len()) as int));
    lemma_prefix_parts(enc_str_list(v.extensions), enc_str_list(v.mime_types), s.skip((enc_str(v.name).len() + enc_str_list(v.aliases).len() + enc_str(v.description).len()) as int));
    assert(s.skip((enc_str(v.name).len() + enc_str_list(v.aliases).len() + enc_str(v.description).len()) as int).skip(enc_str_list(v.extensions).len() as int) =~= s.skip((enc_str(v.name).len() + enc_str_list(v.aliases).len() + enc_str(v.description).len() + enc_str_list(v.extensions).len()) as int));
}

proof fn lemma_format_len(v: FormatView)
    ensures
        enc_format(v).len() >= 8,
{
    broadcast use lemma_enc_u64_len;

    reveal(enc_format);
}

#[verifier::rlimit(100)]
#[verifier::spinoff_prover]
fn write_format(x: &Format, out: &mut Vec<u8>)
    ensures
        final(out)@ == old(out)@ + enc_format(x@),
{
    write_str(x.name.as_str(), out);
    write_str_list(&x.aliases, out);
    write_str(x.description.as_str(), out);
    write_str_list(&x.extensions, out);
    write_str_list(&x.mime_types, out);
    proof {
        reveal(enc_format);
        assert(out@ =~= old(out)@ + enc_format(x@));
    }
}

#[verifier::rlimit(100)]
#[verifier::spinoff_prover]
fn read_format(bytes: &Vec<u8>, pos: usize) -> (r: Option<(Format, usize)>)
    requires
        pos <= bytes@.len(),
    ensures
        r matches Some(p) ==> pos <= p.1 <= bytes@.len(),
        forall|v: FormatView| #[trigger] enc_format(v).is_prefix_of(bytes@.skip(pos as int)) ==> (
        r matches Some(p) && p.0@ == v && p.1 as int == pos + enc_format(v).len()),
{
    let ghost s = bytes@.skip(pos as int);
    let s0 = match read_str(bytes, pos) {
        Some(p) => p,
        None => {
            proof {
                assert forall|v: FormatView| #[trigger] enc_format(v).is_prefix_of(s) implies false by {
                    lemma_format_parts(v, s);
                    assert(enc_str(v.name).is_prefix_of(bytes@.skip(pos as int)));
                }
            }
            return None;
        },
    };
    let f0 = s0.0;
    let p1 = s0.1;
    proof {
        assert forall|v: FormatView| #[trigger] enc_format(v).is_prefix_of(s) implies ({
            &&& f0@ == v.name
            &&& p1 as int == pos + ((enc_str(v.name).len()) as int)
        }) by {
            lemma_format_parts(v, s);
            assert(enc_str(v.name).is_prefix_of(bytes@.skip(pos as int)));
        }
    }
    let s1 = match read_str_list(bytes, p1) {
        Some(p) => p,
        None => {
            proof {
                assert forall|v: FormatView| #[trigger] enc_format(v).is_prefix_of(s) implies false by {
                    lemma_format_parts(v, s);
                    assert(s.skip((enc_str(v.name).len()) as int) =~= bytes@.skip(p1 as int));
                    assert(enc_str_list(v.aliases).is_prefix_of(bytes@.skip(p1 as int)));
                }
            }
            return None;
        },
    };
    let f1 = s1.0;
    let p2 = s1.1;
    proof {
        assert forall|v: FormatView| #[trigger] enc_format(v).is_prefix_of(s) implies ({
            &&& view_strings(f1@) == v.aliases
            &&& p2 as int == pos + ((enc_str(v.name).len() + enc_str_list(v.aliases).len()) as int)
        }) by {
            lemma_format_parts(v, s);
            assert(s.skip((enc_str(v.name).len()) as int) =~= bytes@.skip(p1 as int));
            assert(enc_str_list(v.aliases).is_prefix_of(bytes@.skip(p1 as int)));
        }
    }
    let s2 = match read_str(bytes, p2) {
        Some(p) => p,
        None => {
            proof {
                assert forall|v: FormatView| #[trigger] enc_format(v).is_prefix_of(s) implies false by {
                    lemma_format_parts(v, s);
                    assert(s.skip((enc_str(v.name).len() + enc_str_list(v.aliases).len()) as int) =~= bytes@.skip(p2 as int));
                    assert(enc_str(v.description).is_prefix_of(bytes@.skip(p2 as int)));
                }
            }
            return None;
        },
    };
    let f2 = s2.0;
    let p3 = s2.1;
    proof {
        assert forall|v: FormatView| #[trigger] enc_format(v).is_prefix_of(s) implies ({
            &&& f2@ == v.description
            &&& p3 as int == pos + ((enc_str(v.name).len() + enc_str_list(v.aliases).len() + enc_str(v.description).len()) as int)
        }) by {
            lemma_format_parts(v, s);
            assert(s.skip((enc_str(v.name).len() + enc_str_list(v.aliases).len()) as int) =~= bytes@.skip(p2 as int));
            assert(enc_str(v.description).is_prefix_of(bytes@.skip(p2 as int)));
        }
    }
    let s3 = match read_str_list(bytes, p3) {
        Some(p) => p,
        None => {
            proof {
                assert forall|v: FormatView| #[trigger] enc_format(v).is_prefix_of(s) implies false by {
                    lemma_format_parts(v, s);
                    assert(s.skip((enc_str(v.name).len() + enc_str_list(v.aliases).len() + enc_str(v.description).len()) as int) =~= bytes@.skip(p3 as int));
                    assert(enc_str_list(v.extensions).is_prefix_of(bytes@.skip(p3 as int)));
                }
            }
            return None;
        },
    };
    let f3 = s3.0;
    let p4 = s3.1;
    proof {
        assert forall|v: FormatView| #[trigger] enc_format(v).is_prefix_of(s) implies ({
            &&& view_strings(f3@) == v.extensions
            &&& p4 as int == pos + ((enc_str(v.name).len() + enc_str_list(v.aliases).len() + enc_str(v.description).len() + enc_str_list(v.extensions).len()) as int)
        }) by {
            lemma_format_parts(v, s);
            assert(s.skip((enc_str(v.name).len() + enc_str_list(v.aliases).len() + enc_str(v.description).len()) as int) =~= bytes@.skip(p3 as int));
            assert(enc_str_list(v.extensions).is_prefix_of(bytes@.skip(p3 as int)));
        }
    }
    let s4 = match read_str_list(bytes, p4) {
        Some(p) => p,
        None => {
            proof {
                assert forall|v: FormatView| #[trigger] enc_format(v).is_prefix_of(s) implies false by {
                    lemma_format_parts(v, s);
                    assert(s.skip((enc_str(v.name).len() + enc_str_list(v.aliases).len() + enc_str(v.description).len() + enc_str_list(v.extensions).len()) as int) =~= bytes@.skip(p4 as int));
                    assert(enc_str_list(v.mime_types).is_prefix_of(bytes@.skip(p4 as int)));
                }
            }
            return None;
        },
    };
    let f4 = s4.0;
    let p5 = s4.1;
    proof {
        assert forall|v: FormatView| #[trigger] enc_format(v).is_prefix_of(s) implies ({
            &&& view_strings(f4@) == v.mime_types
            &&& p5 as int == pos + ((enc_str(v.name).len() + enc_str_list(v.aliases).len() + enc_str(v.description).len() + enc_str_list(v.extensions).len() + enc_str_list(v.mime_types).len()) as int)
        }) by {
            lemma_format_parts(v, s);
            assert(s.skip((enc_str(v.name).len() + enc_str_list(v.aliases).len() + enc_str(v.description).len() + enc_str_list(v.extensions).len()) as int) =~= bytes@.skip(p4 as int));
            assert(enc_str_list(v.mime_types).is_prefix_of(bytes@.skip(p4 as int)));
        }
    }
    let x = Format { name: f0, aliases: f1, description: f2, extensions: f3, mime_types: f4 };
    proof {
        assert forall|v: FormatView| #[trigger] enc_format(v).is_prefix_of(s) implies (x@ == v && p5 as int
            == pos + enc_format(v).len()) by {
            lemma_format_parts(v, s);
        }
    }
    Some((x, p5))
}

/// Encodes a container descriptor into its wire form.
pub fn encode_descriptor(f: &Format) -> (out: Vec<u8>)
    ensures
        out@ == enc_format(f@),
{
    let mut out: Vec<u8> = Vec::new();
    write_format(f, &mut out);
    proof {
        assert(out@ =~= enc_format(f@));
    }
    out
}

/// Decodes a container descriptor. On any byte string that is the encoding of
/// a descriptor image, the result is that descriptor: together with
/// `encode_descriptor` this is a round-trip law, the presence of every alias,
/// extension and MIME type included.
pub fn decode_descriptor(bytes: &Vec<u8>) -> (r: Option<Format>)
    ensures
        forall|fv: FormatView| bytes@ == #[trigger] enc_format(fv) ==> (r matches Some(f) && f@
            == fv),
{
    let r0 = read_format(bytes, 0);
    proof {
        assert(bytes@.skip(0) =~= bytes@);
        assert forall|fv: FormatView| bytes@ == #[trigger] enc_format(fv) implies (r0 matches Some(
            p,
        ) && p.0@ == fv && p.1 == bytes@.len()) by {
            assert(enc_format(fv).is_prefix_of(bytes@.skip(0)));
        }
    }
    match r0 {
        Some(p) => {
            if p.1 == bytes.len() {
                Some(p.0)
            } else {
                None
            }
        },
        None => None,
    }
}

/// Encodes a details map (the container tags) into its wire form.
pub fn encode_details(d: &Vec<(String, String)>) -> (out: Vec<u8>)
    ensures
        out@ == enc_pair_list(view_pairs(d@)),
{
    let mut out: Vec<u8> = Vec::new();
    write_pair_list(d, &mut out);
    proof {
        assert(out@ =~= enc_pair_list(view_pairs(d@)));
    }
    out
}

/// Decodes a details map; the round-trip counterpart of `encode_details`.
pub fn decode_details(bytes: &Vec<u8>) -> (r: Option<Vec<(String, String)>>)
    ensures
        forall|vs: Seq<(Seq<char>, Seq<char>)>| bytes@ == #[trigger] enc_pair_list(vs) ==> (
        r matches Some(d) && view_pairs(d@) == vs),
{
    let r0 = read_pair_list(bytes, 0);
    proof {
        assert(bytes@.skip(0) =~= bytes@);
        assert forall|vs: Seq<(Seq<char>, Seq<char>)>| bytes@ == #[trigger] enc_pair_list(vs)
            implies (r0 matches Some(p) && view_pairs(p.0@) == vs && p.1 == bytes@.len()) by {
            assert(enc_pair_list(vs).is_prefix_of(bytes@.skip(0)));
        }
    }
    match r0 {
        Some(p) => {
            if p.1 == bytes.len() {
                Some(p.0)
            } else {
                None
            }
        },
        None => None,
    }
}

} // verus!
