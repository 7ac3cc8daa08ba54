//! The standard wire encoding of a transaction, and its decoder.
//!
//! Little-endian fixed-width integers, variable-length counts, and per-item
//! encodings, exactly as external consumers expect them. Encoding and
//! parsing are each defined as spec functions; the round-trip lemma proves
//! that parsing an encoded transaction gives back the original.

use vstd::prelude::*;

use crate::chain;
use crate::chain::{OutPointV, TransactionInputV, TransactionOutputV, TransactionV};
use crate::seq_views;

verus! {

pub open spec fn le16(v: u16) -> Seq<u8> {
    seq![(v & 0xff) as u8, ((v >> 8) & 0xff) as u8]
}

pub open spec fn le32(v: u32) -> Seq<u8> {
    seq![
        (v & 0xff) as u8,
        ((v >> 8) & 0xff) as u8,
        ((v >> 16) & 0xff) as u8,
        ((v >> 24) & 0xff) as u8,
    ]
}

pub open spec fn le64(v: u64) -> Seq<u8> {
    seq![
        (v & 0xff) as u8,
        ((v >> 8) & 0xff) as u8,
        ((v >> 16) & 0xff) as u8,
        ((v >> 24) & 0xff) as u8,
        ((v >> 32) & 0xff) as u8,
        ((v >> 40) & 0xff) as u8,
        ((v >> 48) & 0xff) as u8,
        ((v >> 56) & 0xff) as u8,
    ]
}

pub open spec fn u16_from_le(b0: u8, b1: u8) -> u16 {
    (b0 as u16) | ((b1 as u16) << 8)
}

pub open spec fn u32_from_le(b0: u8, b1: u8, b2: u8, b3: u8) -> u32 {
    (b0 as u32) | ((b1 as u32) << 8) | ((b2 as u32) << 16) | ((b3 as u32) << 24)
}

pub open spec fn u64_from_le(b0: u8, b1: u8, b2: u8, b3: u8, b4: u8, b5: u8, b6: u8, b7: u8) -> u64 {
    (b0 as u64) | ((b1 as u64) << 8) | ((b2 as u64) << 16) | ((b3 as u64) << 24) | ((b4 as u64)
        << 32) | ((b5 as u64) << 40) | ((b6 as u64) << 48) | ((b7 as u64) << 56)
}

/// The variable-length count encoding: one byte below 0xfd, otherwise a tag
/// and a little-endian 16-, 32- or 64-bit value.
pub open spec fn varint(n: u64) -> Seq<u8> {
    if n < 0xfd {
        seq![n as u8]
    } else if n <= 0xffff {
        seq![0xfdu8] + le16(n as u16)
    } else if n <= 0xffff_ffff {
        seq![0xfeu8] + le32(n as u32)
    } else {
        seq![0xffu8] + le64(n)
    }
}

pub open spec fn ser_input(i: TransactionInputV) -> Seq<u8> {
    i.previous_output.hash + le32(i.previous_output.index) + varint(i.script_sig.len() as u64)
        + i.script_sig + le32(i.sequence)
}

pub open spec fn ser_output(o: TransactionOutputV) -> Seq<u8> {
    le64(o.value) + varint(o.script_pubkey.len() as u64) + o.script_pubkey
}

pub open spec fn ser_inputs(s: Seq<TransactionInputV>) -> Seq<u8>
    decreases s.len(),
{
    if s.len() == 0 {
        Seq::empty()
    } else {
        ser_input(s[0]) + ser_inputs(s.skip(1))
    }
}

pub open spec fn ser_outputs(s: Seq<TransactionOutputV>) -> Seq<u8>
    decreases s.len(),
{
    if s.len() == 0 {
        Seq::empty()
    } else {
        ser_output(s[0]) + ser_outputs(s.skip(1))
    }
}

/// The wire bytes of a transaction: version, counted inputs, counted
/// outputs, lock time.
pub open spec fn ser_tx(t: TransactionV) -> Seq<u8> {
    le32(t.version) + varint(t.inputs.len() as u64) + ser_inputs(t.inputs) + varint(
        t.outputs.len() as u64,
    ) + ser_outputs(t.outputs) + le32(t.lock_time)
}

pub open spec fn parse_u16(s: Seq<u8>) -> Option<(u16, Seq<u8>)> {
    if s.len() >= 2 {
        Some((u16_from_le(s[0], s[1]), s.skip(2)))
    } else {
        None
    }
}

pub open spec fn parse_u32(s: Seq<u8>) -> Option<(u32, Seq<u8>)> {
    if s.len() >= 4 {
        Some((u32_from_le(s[0], s[1], s[2], s[3]), s.skip(4)))
    } else {
        None
    }
}

pub open spec fn parse_u64(s: Seq<u8>) -> Option<(u64, Seq<u8>)> {
    if s.len() >= 8 {
        Some((u64_from_le(s[0], s[1], s[2], s[3], s[4], s[5], s[6], s[7]), s.skip(8)))
    } else {
        None
    }
}

pub open spec fn parse_varint(s: Seq<u8>) -> Option<(u64, Seq<u8>)> {
    if s.len() < 1 {
        None
    } else if s[0] < 0xfd {
        Some((s[0] as u64, s.skip(1)))
    } else if s[0] == 0xfd {
        match parse_u16(s.skip(1)) {
            Some((v, r)) => Some((v as u64, r)),
            None => None,
        }
    } else if s[0] == 0xfe {
        match parse_u32(s.skip(1)) {
            Some((v, r)) => Some((v as u64, r)),
            None => None,
        }
    } else {
        parse_u64(s.skip(1))
    }
}

pub open spec fn parse_bytes(s: Seq<u8>, n: int) -> Option<(Seq<u8>, Seq<u8>)> {
    if 0 <= n <= s.len() {
        Some((s.take(n), s.skip(n)))
    } else {
        None
    }
}

pub open spec fn parse_input(s: Seq<u8>) -> Option<(TransactionInputV, Seq<u8>)> {
    match parse_bytes(s, 32) {
        None => None,
        Some((hash, s1)) => match parse_u32(s1) {
            None => None,
            Some((index, s2)) => match parse_varint(s2) {
                None => None,
                Some((slen, s3)) => match parse_bytes(s3, slen as int) {
                    None => None,
                    Some((script, s4)) => match parse_u32(s4) {
                        None => None,
                        Some((sequence, s5)) => Some(
                            (
                                TransactionInputV {
                                    previous_output: OutPointV { hash, index },
                                    script_sig: script,
                                    sequence,
                                },
                                s5,
                            ),
                        ),
                    },
                },
            },
        },
    }
}

pub open spec fn parse_output(s: Seq<u8>) -> Option<(TransactionOutputV, Seq<u8>)> {
    match parse_u64(s) {
        None => None,
        Some((value, s1)) => match parse_varint(s1) {
            None => None,
            Some((slen, s2)) => match parse_bytes(s2, slen as int) {
                None => None,
                Some((script, s3)) => Some(
                    (TransactionOutputV { value, script_pubkey: script }, s3),
                ),
            },
        },
    }
}

pub open spec fn parse_inputs(s: Seq<u8>, n: u64) -> Option<(Seq<TransactionInputV>, Seq<u8>)>
    decreases n,
{
    if n == 0 {
        Some((Seq::empty(), s))
    } else {
        match parse_input(s) {
            None => None,
            Some((i, r)) => match parse_inputs(r, (n - 1) as u64) {
                None => None,
                Some((rest, r2)) => Some((seq![i] + rest, r2)),
            },
        }
    }
}

pub open spec fn parse_outputs(s: Seq<u8>, n: u64) -> Option<(Seq<TransactionOutputV>, Seq<u8>)>
    decreases n,
{
    if n == 0 {
        Some((Seq::empty(), s))
    } else {
        match parse_output(s) {
            None => None,
            Some((o, r)) => match parse_outputs(r, (n - 1) as u64) {
                None => None,
                Some((rest, r2)) => Some((seq![o] + rest, r2)),
            },
        }
    }
}

/// A whole transaction: every byte must be consumed.
pub open spec fn parse_tx(s: Seq<u8>) -> Option<TransactionV> {
    match parse_u32(s) {
        None => None,
        Some((version, s1)) => match parse_varint(s1) {
            None => None,
            Some((nin, s2)) => match parse_inputs(s2, nin) {
                None => None,
                Some((ins, s3)) => match parse_varint(s3) {
                    None => None,
                    Some((nout, s4)) => match parse_outputs(s4, nout) {
                        None => None,
                        Some((outs, s5)) => match parse_u32(s5) {
                            None => None,
                            Some((lock_time, s6)) => if s6.len() == 0 {
                                Some(
                                    TransactionV {
                                        version,
                                        inputs: ins,
                                        outputs: outs,
                                        lock_time,
                                    },
                                )
                            } else {
                                None
                            },
                        },
                    },
                },
            },
        },
    }
}

proof fn lemma_le16_rt(v: u16, rest: Seq<u8>)
    ensures
        parse_u16(le16(v) + rest) == Some((v, rest)),
{
    let s = le16(v) + rest;
    assert(u16_from_le((v & 0xff) as u8, ((v >> 8) & 0xff) as u8) == v) by (bit_vector);
    assert(s.skip(2) =~= rest);
}

proof fn lemma_le32_rt(v: u32, rest: Seq<u8>)
    ensures
        parse_u32(le32(v) + rest) == Some((v, rest)),
{
    let s = le32(v) + rest;
    assert(u32_from_le(
        (v & 0xff) as u8,
        ((v >> 8) & 0xff) as u8,
        ((v >> 16) & 0xff) as u8,
        ((v >> 24) & 0xff) as u8,
    ) == v) by (bit_vector);
    assert(s.skip(4) =~= rest);
}

proof fn lemma_le64_rt(v: u64, rest: Seq<u8>)
    ensures
        parse_u64(le64(v) + rest) == Some((v, rest)),
{
    let s = le64(v) + rest;
    assert(u64_from_le(
        (v & 0xff) as u8,
        ((v >> 8) & 0xff) as u8,
        ((v >> 16) & 0xff) as u8,
        ((v >> 24) & 0xff) as u8,
        ((v >> 32) & 0xff) as u8,
        ((v >> 40) & 0xff) as u8,
        ((v >> 48) & 0xff) as u8,
        ((v >> 56) & 0xff) as u8,
    ) == v) by (bit_vector);
    assert(s.skip(8) =~= rest);
}

proof fn lemma_bytes_rt(b: Seq<u8>, rest: Seq<u8>)
    ensures
        parse_bytes(b + rest, b.len() as int) == Some((b, rest)),
{
    let s = b + rest;
    assert(s.take(b.len() as int) =~= b);
    assert(s.skip(b.len() as int) =~= rest);
}

proof fn lemma_varint_rt(n: u64, rest: Seq<u8>)
    ensures
        parse_varint(varint(n) + rest) == Some((n, rest)),
{
    let s = varint(n) + rest;
    if n < 0xfd {
        assert(s[0] == n as u8);
        assert(n < 0xfd ==> (n as u8) < 0xfdu8 && (n as u8) as u64 == n) by (bit_vector);
        assert(s.skip(1) =~= rest);
    } else if n <= 0xffff {
        assert(s[0] == 0xfdu8);
        assert(s.skip(1) =~= le16(n as u16) + rest);
        lemma_le16_rt(n as u16, rest);
        assert(0xfd <= n <= 0xffff ==> (n as u16) as u64 == n) by (bit_vector);
    } else if n <= 0xffff_ffff {
        assert(s[0] == 0xfeu8);
        assert(s.skip(1) =~= le32(n as u32) + rest);
        lemma_le32_rt(n as u32, rest);
        assert(0xffff < n <= 0xffff_ffff ==> (n as u32) as u64 == n) by (bit_vector);
    } else {
        assert(s[0] == 0xffu8);
        assert(s.skip(1) =~= le64(n) + rest);
        lemma_le64_rt(n, rest);
    }
}

proof fn lemma_input_rt(i: TransactionInputV, rest: Seq<u8>)
    requires
        i.wf(),
    ensures
        parse_input(ser_input(i) + rest) == Some((i, rest)),
{
    let hash = i.previous_output.hash;
    let script = i.script_sig;
    let r4 = le32(i.sequence) + rest;
    let r3 = script + r4;
    let r2 = varint(script.len() as u64) + r3;
    let r1 = le32(i.previous_output.index) + r2;
    let s = ser_input(i) + rest;
    assert(s =~= hash + r1);
    lemma_bytes_rt(hash, r1);
    assert(parse_bytes(s, 32) == Some((hash, r1)));
    lemma_le32_rt(i.previous_output.index, r2);
    lemma_varint_rt(script.len() as u64, r3);
    assert((script.len() as u64) as int == script.len() as int);
    lemma_bytes_rt(script, r4);
    lemma_le32_rt(i.sequence, rest);
    assert(TransactionInputV {
        previous_output: OutPointV { hash, index: i.previous_output.index },
        script_sig: script,
        sequence: i.sequence,
    } =~= i);
}

proof fn lemma_output_rt(o: TransactionOutputV, rest: Seq<u8>)
    requires
        o.wf(),
    ensures
        parse_output(ser_output(o) + rest) == Some((o, rest)),
{
    let script = o.script_pubkey;
    let r2 = script + rest;
    let r1 = varint(script.len() as u64) + r2;
    let s = ser_output(o) + rest;
    assert(s =~= le64(o.value) + r1);
    lemma_le64_rt(o.value, r1);
    lemma_varint_rt(script.len() as u64, r2);
    assert((script.len() as u64) as int == script.len() as int);
    lemma_bytes_rt(script, rest);
    assert(TransactionOutputV { value: o.value, script_pubkey: script } =~= o);
}

proof fn lemma_seq_assoc<A>(a: Seq<A>, b: Seq<A>, c: Seq<A>)
    ensures
        a + b + c == a + (b + c),
{
    assert(a + b + c =~= a + (b + c));
}

#[verifier::spinoff_prover]
#[verifier::rlimit(100)]
proof fn lemma_inputs_rt(ss: Seq<TransactionInputV>, rest: Seq<u8>)
    requires
        ss.len() <= u64::MAX,
        forall|i: int| 0 <= i < ss.len() ==> (#[trigger] ss[i]).wf(),
    ensures
        parse_inputs(ser_inputs(ss) + rest, ss.len() as u64) == Some((ss, rest)),
    decreases ss.len(),
{
    if ss.len() == 0 {
        assert(ser_inputs(ss) + rest =~= rest);
        assert(Seq::<TransactionInputV>::empty() =~= ss);
    } else {
        let head = ss[0];
        let tail = ss.skip(1);
        assert forall|i: int| 0 <= i < tail.len() implies (#[trigger] tail[i]).wf() by {
            assert(tail[i] == ss[i + 1]);
        }
        lemma_inputs_rt(tail, rest);
        let inner = ser_inputs(tail) + rest;
        assert(ser_inputs(ss) == ser_input(head) + ser_inputs(tail));
        lemma_seq_assoc(ser_input(head), ser_inputs(tail), rest);
        let s = ser_inputs(ss) + rest;
        assert(s == ser_input(head) + inner);
        lemma_input_rt(head, inner);
        assert(parse_input(s) == Some((head, inner)));
        let n = ss.len() as u64;
        assert((n - 1) as u64 == tail.len() as u64);
        assert(parse_inputs(inner, (n - 1) as u64) == Some((tail, rest)));
        assert(parse_inputs(s, n) == Some((seq![head] + tail, rest)));
        assert(seq![head] + tail =~= ss);
    }
}

#[verifier::spinoff_prover]
#[verifier::rlimit(100)]
proof fn lemma_outputs_rt(ss: Seq<TransactionOutputV>, rest: Seq<u8>)
    requires
        ss.len() <= u64::MAX,
        forall|i: int| 0 <= i < ss.len() ==> (#[trigger] ss[i]).wf(),
    ensures
        parse_outputs(ser_outputs(ss) + rest, ss.len() as u64) == Some((ss, rest)),
    decreases ss.len(),
{
    if ss.len() == 0 {
        assert(ser_outputs(ss) + rest =~= rest);
        assert(Seq::<TransactionOutputV>::empty() =~= ss);
    } else {
        let head = ss[0];
        let tail = ss.skip(1);
        assert forall|i: int| 0 <= i < tail.len() implies (#[trigger] tail[i]).wf() by {
            assert(tail[i] == ss[i + 1]);
        }
        lemma_outputs_rt(tail, rest);
        let inner = ser_outputs(tail) + rest;
        assert(ser_outputs(ss) == ser_output(head) + ser_outputs(tail));
        lemma_seq_assoc(ser_output(head), ser_outputs(tail), rest);
        let s = ser_outputs(ss) + rest;
        assert(s == ser_output(head) + inner);
        lemma_output_rt(head, inner);
        assert(parse_output(s) == Some((head, inner)));
        let n = ss.len() as u64;
        assert((n - 1) as u64 == tail.len() as u64);
        assert(parse_outputs(inner, (n - 1) as u64) == Some((tail, rest)));
        assert(parse_outputs(s, n) == Some((seq![head] + tail, rest)));
        assert(seq![head] + tail =~= ss);
    }
}

/// Round trip: parsing the wire bytes of a well-formed transaction yields a
/// transaction equal in every field to the original.
#[verifier::spinoff_prover]
pub proof fn lemma_tx_round_trip(t: TransactionV)
    requires
        t.wf(),
    ensures
        parse_tx(ser_tx(t)) == Some(t),
{
    let empty = Seq::<u8>::empty();
    let a = le32(t.version);
    let b = varint(t.inputs.len() as u64);
    let c = ser_inputs(t.inputs);
    let d = varint(t.outputs.len() as u64);
    let e = ser_outputs(t.outputs);
    let f = le32(t.lock_time);
    let r5 = e + f;
    let r4 = d + r5;
    let r3 = c + r4;
    let r2 = b + r3;
    let s = ser_tx(t);
    assert(s == a + b + c + d + e + f);
    lemma_seq_assoc(a + b + c + d, e, f);
    lemma_seq_assoc(a + b + c, d, r5);
    lemma_seq_assoc(a + b, c, r4);
    lemma_seq_assoc(a, b, r3);
    assert(s == a + r2);
    lemma_le32_rt(t.version, r2);
    lemma_varint_rt(t.inputs.len() as u64, r3);
    lemma_inputs_rt(t.inputs, r4);
    lemma_varint_rt(t.outputs.len() as u64, r5);
    lemma_outputs_rt(t.outputs, f);
    assert(f + empty =~= f);
    lemma_le32_rt(t.lock_time, empty);
    assert(TransactionV {
        version: t.version,
        inputs: t.inputs,
        outputs: t.outputs,
        lock_time: t.lock_time,
    } =~= t);
}


proof fn lemma_ser_inputs_push(s: Seq<TransactionInputV>, x: TransactionInputV)
    ensures
        ser_inputs(s.push(x)) == ser_inputs(s) + ser_input(x),
    decreases s.len(),
{
    if s.len() == 0 {
        assert(s.push(x)[0] == x);
        assert(s.push(x).skip(1) =~= Seq::<TransactionInputV>::empty());
        assert(ser_inputs(Seq::<TransactionInputV>::empty()) == Seq::<u8>::empty());
        assert(ser_inputs(s) == Seq::<u8>::empty());
        assert(ser_input(x) + Seq::<u8>::empty() =~= ser_input(x));
        assert(Seq::<u8>::empty() + ser_input(x) =~= ser_input(x));
    } else {
        assert(s.push(x)[0] == s[0]);
        assert(s.push(x).skip(1) =~= s.skip(1).push(x));
        lemma_ser_inputs_push(s.skip(1), x);
        lemma_seq_assoc(ser_input(s[0]), ser_inputs(s.skip(1)), ser_input(x));
    }
}

proof fn lemma_ser_outputs_push(s: Seq<TransactionOutputV>, x: TransactionOutputV)
    ensures
        ser_outputs(s.push(x)) == ser_outputs(s) + ser_output(x),
    decreases s.len(),
{
    if s.len() == 0 {
        assert(s.push(x)[0] == x);
        assert(s.push(x).skip(1) =~= Seq::<TransactionOutputV>::empty());
        assert(ser_outputs(Seq::<TransactionOutputV>::empty()) == Seq::<u8>::empty());
        assert(ser_outputs(s) == Seq::<u8>::empty());
        assert(ser_output(x) + Seq::<u8>::empty() =~= ser_output(x));
        assert(Seq::<u8>::empty() + ser_output(x) =~= ser_output(x));
    } else {
        assert(s.push(x)[0] == s[0]);
        assert(s.push(x).skip(1) =~= s.skip(1).push(x));
        lemma_ser_outputs_push(s.skip(1), x);
        lemma_seq_assoc(ser_output(s[0]), ser_outputs(s.skip(1)), ser_output(x));
    }
}

/// A fresh copy of a byte vector.
fn copy_bytes(src: &Vec<u8>) -> (r: Vec<u8>)
    ensures
        r@ == src@,
{
    let mut out: Vec<u8> = Vec::new();
    let mut i: usize = 0;
    while i < src.len()
        invariant
            i <= src@.len(),
            out@ == src@.take(i as int),
        decreases src@.len() - i,
    {
        out.push(src[i]);
        i = i + 1;
        proof {
            assert(src@.take(i as int) =~= src@.take(i - 1).push(src@[i - 1]));
        }
    }
    proof {
        assert(src@.take(src@.len() as int) =~= src@);
    }
    out
}

fn le16_bytes(v: u16) -> (r: Vec<u8>)
    ensures
        r@ == le16(v),
{
    let mut out: Vec<u8> = Vec::new();
    out.push((v & 0xff) as u8);
    out.push(((v >> 8) & 0xff) as u8);
    proof {
        assert(out@ =~= le16(v));
    }
    out
}

fn le32_bytes(v: u32) -> (r: Vec<u8>)
    ensures
        r@ == le32(v),
{
    let mut out: Vec<u8> = Vec::new();
    out.push((v & 0xff) as u8);
    out.push(((v >> 8) & 0xff) as u8);
    out.push(((v >> 16) & 0xff) as u8);
    out.push(((v >> 24) & 0xff) as u8);
    proof {
        assert(out@ =~= le32(v));
    }
    out
}

fn le64_bytes(v: u64) -> (r: Vec<u8>)
    ensures
        r@ == le64(v),
{
    let mut out: Vec<u8> = Vec::new();
    out.push((v & 0xff) as u8);
    out.push(((v >> 8) & 0xff) as u8);
    out.push(((v >> 16) & 0xff) as u8);
    out.push(((v >> 24) & 0xff) as u8);
    out.push(((v >> 32) & 0xff) as u8);
    out.push(((v >> 40) & 0xff) as u8);
    out.push(((v >> 48) & 0xff) as u8);
    out.push(((v >> 56) & 0xff) as u8);
    proof {
        assert(out@ =~= le64(v));
    }
    out
}

fn varint_bytes(n: u64) -> (r: Vec<u8>)
    ensures
        r@ == varint(n),
{
    let mut out: Vec<u8> = Vec::new();
    if n < 0xfd {
        out.push(n as u8);
        proof {
            assert(out@ =~= varint(n));
        }
    } else if n <= 0xffff {
        out.push(0xfd);
        let mut tail = le16_bytes(n as u16);
        out.append(&mut tail);
        proof {
            assert(out@ =~= varint(n));
        }
    } else if n <= 0xffff_ffff {
        out.push(0xfe);
        let mut tail = le32_bytes(n as u32);
        out.append(&mut tail);
        proof {
            assert(out@ =~= varint(n));
        }
    } else {
        out.push(0xff);
        let mut tail = le64_bytes(n);
        out.append(&mut tail);
        proof {
            assert(out@ =~= varint(n));
        }
    }
    out
}

/// Serialize a transaction to its wire bytes.
pub fn serialize_transaction(t: &chain::Transaction) -> (r: Vec<u8>)
    ensures
        r@ == ser_tx(t@),
{
    let ghost ivs = t@.inputs;
    let ghost ovs = t@.outputs;
    let mut out: Vec<u8> = Vec::new();
    let mut piece = le32_bytes(t.version);
    out.append(&mut piece);
    let mut piece = varint_bytes(t.inputs.len() as u64);
    out.append(&mut piece);
    let ghost head = le32(t.version) + varint(ivs.len() as u64);

    let mut i: usize = 0;
    while i < t.inputs.len()
        invariant
            i <= t.inputs@.len(),
            ivs == t@.inputs,
            ovs == t@.outputs,
            ivs.len() == t.inputs@.len(),
            head == le32(t.version) + varint(ivs.len() as u64),
            out@ == head + ser_inputs(ivs.take(i as int)),
        decreases t.inputs@.len() - i,
    {
        let inp = &t.inputs[i];
        proof {
            assert(ivs[i as int] == t.inputs@[i as int]@);
        }
        let mut piece = copy_bytes(&inp.previous_output.hash);
        out.append(&mut piece);
        let mut piece = le32_bytes(inp.previous_output.index);
        out.append(&mut piece);
        let mut piece = varint_bytes(inp.script_sig.len() as u64);
        out.append(&mut piece);
        let mut piece = copy_bytes(&inp.script_sig);
        out.append(&mut piece);
        let mut piece = le32_bytes(inp.sequence);
        out.append(&mut piece);
        i = i + 1;
        proof {
            let prev = ivs.take(i - 1);
            let x = ivs[i - 1];
            assert(ivs.take(i as int) =~= prev.push(x));
            lemma_ser_inputs_push(prev, x);
            assert(out@ =~= head + ser_inputs(ivs.take(i as int)));
        }
    }
    proof {
        assert(ivs.take(ivs.len() as int) =~= ivs);
    }

    let mut piece = varint_bytes(t.outputs.len() as u64);
    out.append(&mut piece);
    let ghost head2 = head + ser_inputs(ivs) + varint(ovs.len() as u64);
    proof {
        assert(out@ =~= head2);
    }
    let mut j: usize = 0;
    while j < t.outputs.len()
        invariant
            j <= t.outputs@.len(),
            ovs == t@.outputs,
            ovs.len() == t.outputs@.len(),
            out@ == head2 + ser_outputs(ovs.take(j as int)),
        decreases t.outputs@.len() - j,
    {
        let o = &t.outputs[j];
        proof {
            assert(ovs[j as int] == t.outputs@[j as int]@);
        }
        let mut piece = le64_bytes(o.value);
        out.append(&mut piece);
        let mut piece = varint_bytes(o.script_pubkey.len() as u64);
        out.append(&mut piece);
        let mut piece = copy_bytes(&o.script_pubkey);
        out.append(&mut piece);
        j = j + 1;
        proof {
            let prev = ovs.take(j - 1);
            let x = ovs[j - 1];
            assert(ovs.take(j as int) =~= prev.push(x));
            lemma_ser_outputs_push(prev, x);
            assert(out@ =~= head2 + ser_outputs(ovs.take(j as int)));
        }
    }
    proof {
        assert(ovs.take(ovs.len() as int) =~= ovs);
    }
    let mut piece = le32_bytes(t.lock_time);
    out.append(&mut piece);
    proof {
        assert(out@ =~= ser_tx(t@));
    }
    out
}


fn read_u16(bytes: &Vec<u8>, pos: usize) -> (r: Option<(u16, usize)>)
    requires
        pos <= bytes@.len(),
    ensures
        match r {
            Some((v, p2)) => parse_u16(bytes@.skip(pos as int)) == Some(
                (v, bytes@.skip(p2 as int)),
            ) && pos <= p2 <= bytes@.len(),
            None => parse_u16(bytes@.skip(pos as int)) is None,
        },
{
    if bytes.len() - pos >= 2 {
        let b0 = bytes[pos];
        let b1 = bytes[pos + 1];
        let v: u16 = (b0 as u16) | ((b1 as u16) << 8);
        proof {
            let s = bytes@.skip(pos as int);
            assert(s[0] == bytes@[pos as int]);
            assert(s[1] == bytes@[pos as int + 1]);
            assert(s.skip(2) =~= bytes@.skip(pos as int + 2));
        }
        Some((v, pos + 2))
    } else {
        None
    }
}

fn read_u32(bytes: &Vec<u8>, pos: usize) -> (r: Option<(u32, usize)>)
    requires
        pos <= bytes@.len(),
    ensures
        match r {
            Some((v, p2)) => parse_u32(bytes@.skip(pos as int)) == Some(
                (v, bytes@.skip(p2 as int)),
            ) && pos <= p2 <= bytes@.len(),
            None => parse_u32(bytes@.skip(pos as int)) is None,
        },
{
    if bytes.len() - pos >= 4 {
        let b0 = bytes[pos];
        let b1 = bytes[pos + 1];
        let b2 = bytes[pos + 2];
        let b3 = bytes[pos + 3];
        let v: u32 = (b0 as u32) | ((b1 as u32) << 8) | ((b2 as u32) << 16) | ((b3 as u32) << 24);
        proof {
            let s = bytes@.skip(pos as int);
            assert(s[0] == bytes@[pos as int]);
            assert(s[1] == bytes@[pos as int + 1]);
            assert(s[2] == bytes@[pos as int + 2]);
            assert(s[3] == bytes@[pos as int + 3]);
            assert(s.skip(4) =~= bytes@.skip(pos as int + 4));
        }
        Some((v, pos + 4))
    } else {
        None
    }
}

fn read_u64(bytes: &Vec<u8>, pos: usize) -> (r: Option<(u64, usize)>)
    requires
        pos <= bytes@.len(),
    ensures
        match r {
            Some((v, p2)) => parse_u64(bytes@.skip(pos as int)) == Some(
                (v, bytes@.skip(p2 as int)),
            ) && pos <= p2 <= bytes@.len(),
            None => parse_u64(bytes@.skip(pos as int)) is None,
        },
{
    if bytes.len() - pos >= 8 {
        let b0 = bytes[pos];
        let b1 = bytes[pos + 1];
        let b2 = bytes[pos + 2];
        let b3 = bytes[pos + 3];
        let b4 = bytes[pos + 4];
        let b5 = bytes[pos + 5];
        let b6 = bytes[pos + 6];
        let b7 = bytes[pos + 7];
        let v: u64 = (b0 as u64) | ((b1 as u64) << 8) | ((b2 as u64) << 16) | ((b3 as u64) << 24)
            | ((b4 as u64) << 32) | ((b5 as u64) << 40) | ((b6 as u64) << 48) | ((b7 as u64)
            << 56);
        proof {
            let s = bytes@.skip(pos as int);
            assert(s[0] == bytes@[pos as int]);
            assert(s[1] == bytes@[pos as int + 1]);
            assert(s[2] == bytes@[pos as int + 2]);
            assert(s[3] == bytes@[pos as int + 3]);
            assert(s[4] == bytes@[pos as int + 4]);
            assert(s[5] == bytes@[pos as int + 5]);
            assert(s[6] == bytes@[pos as int + 6]);
            assert(s[7] == bytes@[pos as int + 7]);
            assert(s.skip(8) =~= bytes@.skip(pos as int + 8));
        }
        Some((v, pos + 8))
    } else {
        None
    }
}

fn read_varint(bytes: &Vec<u8>, pos: usize) -> (r: Option<(u64, usize)>)
    requires
        pos <= bytes@.len(),
    ensures
        match r {
            Some((v, p2)) => parse_varint(bytes@.skip(pos as int)) == Some(
                (v, bytes@.skip(p2 as int)),
            ) && pos <= p2 <= bytes@.len(),
            None => parse_varint(bytes@.skip(pos as int)) is None,
        },
{
    if bytes.len() - pos < 1 {
        return None;
    }
    let tag = bytes[pos];
    proof {
        let s = bytes@.skip(pos as int);
        assert(s[0] == bytes@[pos as int]);
        assert(s.skip(1) =~= bytes@.skip(pos as int + 1));
    }
    if tag < 0xfd {
        Some((tag as u64, pos + 1))
    } else if tag == 0xfd {
        match read_u16(bytes, pos + 1) {
            Some((v, p2)) => Some((v as u64, p2)),
            None => None,
        }
    } else if tag == 0xfe {
        match read_u32(bytes, pos + 1) {
            Some((v, p2)) => Some((v as u64, p2)),
            None => None,
        }
    } else {
        match read_u64(bytes, pos + 1) {
            Some((v, p2)) => Some((v, p2)),
            None => None,
        }
    }
}

fn read_bytes(bytes: &Vec<u8>, pos: usize, n: u64) -> (r: Option<(Vec<u8>, usize)>)
    requires
        pos <= bytes@.len(),
    ensures
        match r {
            Some(vp) => parse_bytes(bytes@.skip(pos as int), n as int) == Some(
                (vp.0@, bytes@.skip(vp.1 as int)),
            ) && pos <= vp.1 <= bytes@.len(),
            None => parse_bytes(bytes@.skip(pos as int), n as int) is None,
        },
{
    if n <= (bytes.len() - pos) as u64 {
        let n_us = n as usize;
        let mut v: Vec<u8> = Vec::new();
        let mut i: usize = 0;
        while i < n_us
            invariant
                i <= n_us,
                pos + n_us <= bytes@.len(),
                pos + n_us <= usize::MAX,
                v@ == bytes@.subrange(pos as int, pos as int + i),
            decreases n_us - i,
        {
            v.push(bytes[pos + i]);
            i = i + 1;
            proof {
                assert(bytes@.subrange(pos as int, pos as int + i) =~= bytes@.subrange(
                    pos as int,
                    pos as int + i - 1,
                ).push(bytes@[pos as int + i - 1]));
            }
        }
        proof {
            let s = bytes@.skip(pos as int);
            assert(s.take(n as int) =~= bytes@.subrange(pos as int, pos as int + n_us));
            assert(s.skip(n as int) =~= bytes@.skip(pos as int + n_us));
        }
        Some((v, pos + n_us))
    } else {
        proof {
            assert(bytes@.skip(pos as int).len() < n);
        }
        None
    }
}

fn read_input(bytes: &Vec<u8>, pos: usize) -> (r: Option<(chain::TransactionInput, usize)>)
    requires
        pos <= bytes@.len(),
    ensures
        match r {
            Some(vp) => parse_input(bytes@.skip(pos as int)) == Some(
                (vp.0@, bytes@.skip(vp.1 as int)),
            ) && pos <= vp.1 <= bytes@.len(),
            None => parse_input(bytes@.skip(pos as int)) is None,
        },
{
    let (hash, p1) = match read_bytes(bytes, pos, 32) {
        Some(vp) => vp,
        None => {
            return None;
        },
    };
    let (index, p2) = match read_u32(bytes, p1) {
        Some(vp) => vp,
        None => {
            return None;
        },
    };
    let (slen, p3) = match read_varint(bytes, p2) {
        Some(vp) => vp,
        None => {
            return None;
        },
    };
    let (script, p4) = match read_bytes(bytes, p3, slen) {
        Some(vp) => vp,
        None => {
            return None;
        },
    };
    let (sequence, p5) = match read_u32(bytes, p4) {
        Some(vp) => vp,
        None => {
            return None;
        },
    };
    let inp = chain::TransactionInput {
        previous_output: chain::OutPoint { hash, index },
        script_sig: script,
        sequence,
    };
    proof {
        assert(inp@ =~= TransactionInputV {
            previous_output: OutPointV { hash: inp.previous_output.hash@, index },
            script_sig: inp.script_sig@,
            sequence,
        });
    }
    Some((inp, p5))
}

fn read_output(bytes: &Vec<u8>, pos: usize) -> (r: Option<(chain::TransactionOutput, usize)>)
    requires
        pos <= bytes@.len(),
    ensures
        match r {
            Some(vp) => parse_output(bytes@.skip(pos as int)) == Some(
                (vp.0@, bytes@.skip(vp.1 as int)),
            ) && pos <= vp.1 <= bytes@.len(),
            None => parse_output(bytes@.skip(pos as int)) is None,
        },
{
    let (value, p1) = match read_u64(bytes, pos) {
        Some(vp) => vp,
        None => {
            return None;
        },
    };
    let (slen, p2) = match read_varint(bytes, p1) {
        Some(vp) => vp,
        None => {
            return None;
        },
    };
    let (script, p3) = match read_bytes(bytes, p2, slen) {
        Some(vp) => vp,
        None => {
            return None;
        },
    };
    let o = chain::TransactionOutput { value, script_pubkey: script };
    proof {
        assert(o@ =~= TransactionOutputV { value, script_pubkey: o.script_pubkey@ });
    }
    Some((o, p3))
}

spec fn prepend_inputs(
    done: Seq<TransactionInputV>,
    r: Option<(Seq<TransactionInputV>, Seq<u8>)>,
) -> Option<(Seq<TransactionInputV>, Seq<u8>)> {
    match r {
        None => None,
        Some(pr) => Some((done + pr.0, pr.1)),
    }
}

spec fn prepend_outputs(
    done: Seq<TransactionOutputV>,
    r: Option<(Seq<TransactionOutputV>, Seq<u8>)>,
) -> Option<(Seq<TransactionOutputV>, Seq<u8>)> {
    match r {
        None => None,
        Some(pr) => Some((done + pr.0, pr.1)),
    }
}

fn read_inputs(bytes: &Vec<u8>, pos: usize, n: u64) -> (r: Option<(
    Vec<chain::TransactionInput>,
    usize,
)>)
    requires
        pos <= bytes@.len(),
    ensures
        match r {
            Some(vp) => parse_inputs(bytes@.skip(pos as int), n) == Some(
                (seq_views(vp.0@), bytes@.skip(vp.1 as int)),
            ) && pos <= vp.1 <= bytes@.len(),
            None => parse_inputs(bytes@.skip(pos as int), n) is None,
        },
{
    let mut items: Vec<chain::TransactionInput> = Vec::new();
    let mut p = pos;
    let mut k: u64 = 0;
    proof {
        assert(seq_views(items@) =~= Seq::<TransactionInputV>::empty());
        assert(Seq::<TransactionInputV>::empty() + parse_inputs(
            bytes@.skip(pos as int),
            n,
        )->Some_0.0 =~= parse_inputs(bytes@.skip(pos as int), n)->Some_0.0);
    }
    while k < n
        invariant
            pos <= p <= bytes@.len(),
            k <= n,
            seq_views(items@).len() == k as int,
            prepend_inputs(seq_views(items@), parse_inputs(bytes@.skip(p as int), (n - k) as u64))
                == parse_inputs(bytes@.skip(pos as int), n),
        decreases n - k,
    {
        let ghost done_old = seq_views(items@);
        let ghost p_old = p;
        match read_input(bytes, p) {
            None => {
                proof {
                    assert((n - k) as u64 != 0);
                    assert(parse_inputs(bytes@.skip(p as int), (n - k) as u64) is None);
                }
                return None;
            },
            Some((inp, p2)) => {
                items.push(inp);
                proof {
                    let m = (n - k) as u64;
                    let cur = bytes@.skip(p_old as int);
                    let cur2 = bytes@.skip(p2 as int);
                    assert(seq_views(items@) =~= done_old.push(inp@));
                    let rec = parse_inputs(cur2, (m - 1) as u64);
                    assert(parse_input(cur) == Some((inp@, cur2)));
                    if rec is Some {
                        let tl = rec->Some_0.0;
                        let rst = rec->Some_0.1;
                        assert(parse_inputs(cur, m) == Some((seq![inp@] + tl, rst)));
                        assert(done_old + (seq![inp@] + tl) =~= done_old.push(inp@) + tl);
                    } else {
                        assert(parse_inputs(cur, m) is None);
                    }
                    assert((m - 1) as u64 == (n - (k + 1)) as u64);
                }
                p = p2;
                k = k + 1;
            },
        }
    }
    proof {
        assert(parse_inputs(bytes@.skip(p as int), 0) == Some(
            (Seq::<TransactionInputV>::empty(), bytes@.skip(p as int)),
        ));
        assert(seq_views(items@) + Seq::<TransactionInputV>::empty() =~= seq_views(items@));
    }
    Some((items, p))
}

fn read_outputs(bytes: &Vec<u8>, pos: usize, n: u64) -> (r: Option<(
    Vec<chain::TransactionOutput>,
    usize,
)>)
    requires
        pos <= bytes@.len(),
    ensures
        match r {
            Some(vp) => parse_outputs(bytes@.skip(pos as int), n) == Some(
                (seq_views(vp.0@), bytes@.skip(vp.1 as int)),
            ) && pos <= vp.1 <= bytes@.len(),
            None => parse_outputs(bytes@.skip(pos as int), n) is None,
        },
{
    let mut items: Vec<chain::TransactionOutput> = Vec::new();
    let mut p = pos;
    let mut k: u64 = 0;
    proof {
        assert(seq_views(items@) =~= Seq::<TransactionOutputV>::empty());
        assert(Seq::<TransactionOutputV>::empty() + parse_outputs(
            bytes@.skip(pos as int),
            n,
        )->Some_0.0 =~= parse_outputs(bytes@.skip(pos as int), n)->Some_0.0);
    }
    while k < n
        invariant
            pos <= p <= bytes@.len(),
            k <= n,
            seq_views(items@).len() == k as int,
            prepend_outputs(seq_views(items@), parse_outputs(bytes@.skip(p as int), (n - k) as u64))
                == parse_outputs(bytes@.skip(pos as int), n),
        decreases n - k,
    {
        let ghost done_old = seq_views(items@);
        let ghost p_old = p;
        match read_output(bytes, p) {
            None => {
                proof {
                    assert((n - k) as u64 != 0);
                    assert(parse_outputs(bytes@.skip(p as int), (n - k) as u64) is None);
                }
                return None;
            },
            Some((o, p2)) => {
                items.push(o);
                proof {
                    let m = (n - k) as u64;
                    let cur = bytes@.skip(p_old as int);
                    let cur2 = bytes@.skip(p2 as int);
                    assert(seq_views(items@) =~= done_old.push(o@));
                    let rec = parse_outputs(cur2, (m - 1) as u64);
                    assert(parse_output(cur) == Some((o@, cur2)));
                    if rec is Some {
                        let tl = rec->Some_0.0;
                        let rst = rec->Some_0.1;
                        assert(parse_outputs(cur, m) == Some((seq![o@] + tl, rst)));
                        assert(done_old + (seq![o@] + tl) =~= done_old.push(o@) + tl);
                    } else {
                        assert(parse_outputs(cur, m) is None);
                    }
                    assert((m - 1) as u64 == (n - (k + 1)) as u64);
                }
                p = p2;
                k = k + 1;
            },
        }
    }
    proof {
        assert(parse_outputs(bytes@.skip(p as int), 0) == Some(
            (Seq::<TransactionOutputV>::empty(), bytes@.skip(p as int)),
        ));
        assert(seq_views(items@) + Seq::<TransactionOutputV>::empty() =~= seq_views(items@));
    }
    Some((items, p))
}

/// Decode wire bytes into a transaction. Succeeds exactly on byte sequences
/// that are the complete wire encoding of some transaction, and returns that
/// transaction.
pub fn decode_transaction(bytes: &Vec<u8>) -> (r: Option<chain::Transaction>)
    ensures
        match r {
            Some(t) => parse_tx(bytes@) == Some(t@),
            None => parse_tx(bytes@) is None,
        },
{
    proof {
        assert(bytes@.skip(0) =~= bytes@);
    }
    let (version, p1) = match read_u32(bytes, 0) {
        Some(vp) => vp,
        None => {
            return None;
        },
    };
    let (nin, p2) = match read_varint(bytes, p1) {
        Some(vp) => vp,
        None => {
            return None;
        },
    };
    let (ins, p3) = match read_inputs(bytes, p2, nin) {
        Some(vp) => vp,
        None => {
            return None;
        },
    };
    let (nout, p4) = match read_varint(bytes, p3) {
        Some(vp) => vp,
        None => {
            return None;
        },
    };
    let (outs, p5) = match read_outputs(bytes, p4, nout) {
        Some(vp) => vp,
        None => {
            return None;
        },
    };
    let (lock_time, p6) = match read_u32(bytes, p5) {
        Some(vp) => vp,
        None => {
            return None;
        },
    };
    if p6 == bytes.len() {
        let t = chain::Transaction { version, inputs: ins, outputs: outs, lock_time };
        proof {
            assert(bytes@.skip(p6 as int).len() == 0);
            assert(t@.inputs =~= seq_views(ins@));
            assert(t@.outputs =~= seq_views(outs@));
            assert(t@ =~= TransactionV {
                version,
                inputs: seq_views(ins@),
                outputs: seq_views(outs@),
                lock_time,
            });
        }
        Some(t)
    } else {
        proof {
            assert(bytes@.skip(p6 as int).len() > 0);
        }
        None
    }
}

} // verus!


