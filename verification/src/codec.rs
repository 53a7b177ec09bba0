//! Canonical binary encoding, in the CBOR style, for every persistent entity.
//!
//! Encoding is a pure function of the value; decoding rejects every byte
//! string that no encoder produces, so `decode(encode(x)) == x` and two values
//! share a CID exactly when they share an encoding.

use vstd::prelude::*;
use crate::workflow::{
    Argument, ArgumentV, Instruction, InstructionV, Resources, RunInstruction, RunInstructionV,
    Selector, Task, TaskV, Value, ValueV,
};

verus! {

/// 256 to the power `n`: the number of values `n` bytes can carry.
pub open spec fn pow256(n: nat) -> int
    decreases n,
{
    if n == 0 {
        1
    } else {
        256 * pow256((n - 1) as nat)
    }
}

/// The big-endian bytes of `v`, exactly `n` of them.
pub open spec fn be_bytes(v: int, n: nat) -> Seq<u8>
    decreases n,
{
    if n == 0 {
        Seq::empty()
    } else {
        be_bytes(v / 256, (n - 1) as nat) + seq![(v % 256) as u8]
    }
}

/// The value read back from big-endian bytes.
pub open spec fn from_be(s: Seq<u8>) -> int
    decreases s.len(),
{
    if s.len() == 0 {
        0
    } else {
        from_be(s.drop_last()) * 256 + s.last()
    }
}

pub proof fn lemma_from_be_bound(s: Seq<u8>)
    ensures
        0 <= from_be(s) < pow256(s.len()),
    decreases s.len(),
{
    if s.len() == 0 {
    } else {
        lemma_from_be_bound(s.drop_last());
        let p = pow256((s.len() - 1) as nat);
        assert(from_be(s.drop_last()) <= p - 1);
        assert(from_be(s.drop_last()) * 256 <= (p - 1) * 256) by (nonlinear_arith)
            requires
                from_be(s.drop_last()) <= p - 1,
        ;
    }
}

pub proof fn lemma_be_bytes_from_be(v: int, n: nat)
    requires
        0 <= v < pow256(n),
    ensures
        be_bytes(v, n).len() == n,
        from_be(be_bytes(v, n)) == v,
    decreases n,
{
    if n == 0 {
    } else {
        let p = pow256((n - 1) as nat);
        assert(pow256(n) == 256 * p);
        assert(p >= 1) by {
            lemma_pow256_pos((n - 1) as nat);
        }
        assert(v / 256 < p) by (nonlinear_arith)
            requires
                v < 256 * p,
                0 <= v,
                p >= 1,
        ;
        lemma_be_bytes_from_be(v / 256, (n - 1) as nat);
        let s = be_bytes(v, n);
        assert(s.drop_last() =~= be_bytes(v / 256, (n - 1) as nat));
        assert(s.last() == (v % 256) as u8);
        assert(from_be(s) == (v / 256) * 256 + v % 256);
    }
}

pub proof fn lemma_pow256_vals()
    ensures
        pow256(1) == 256,
        pow256(2) == 65536,
        pow256(4) == 4294967296,
        pow256(8) == 0x1_0000_0000_0000_0000,
{
    assert(pow256(0) == 1);
    assert(pow256(1) == 256);
    assert(pow256(2) == 65536);
    assert(pow256(3) == 0x100_0000);
    assert(pow256(4) == 4294967296);
    assert(pow256(5) == 0x100_0000_0000);
    assert(pow256(6) == 0x1_0000_0000_0000);
    assert(pow256(7) == 0x100_0000_0000_0000);
    assert(pow256(8) == 0x1_0000_0000_0000_0000);
}

pub proof fn lemma_pow256_pos(n: nat)
    ensures
        pow256(n) >= 1,
    decreases n,
{
    if n > 0 {
        lemma_pow256_pos((n - 1) as nat);
    }
}

/// The first byte of a header item: eight major-type values times 32, plus
/// the additional-information bits.
pub open spec fn head_byte(major: int, info: int) -> u8 {
    (major * 32 + info) as u8
}

/// Canonical header for major type `major` carrying the value `v`: the
/// shortest of the five forms that holds `v`.
pub open spec fn enc_head(major: int, v: int) -> Seq<u8> {
    if v < 24 {
        seq![head_byte(major, v)]
    } else if v < 256 {
        seq![head_byte(major, 24)] + be_bytes(v, 1)
    } else if v < 65536 {
        seq![head_byte(major, 25)] + be_bytes(v, 2)
    } else if v < 4294967296 {
        seq![head_byte(major, 26)] + be_bytes(v, 4)
    } else {
        seq![head_byte(major, 27)] + be_bytes(v, 8)
    }
}

/// Reading a header at `i`: the major type, the value, and the index just
/// past the header.  `None` on truncation, a reserved form, or a value not in
/// its shortest form.
pub open spec fn dec_head(s: Seq<u8>, i: int) -> Option<(int, int, int)> {
    if i < 0 || i >= s.len() {
        None
    } else {
        let b = s[i] as int;
        let major = b / 32;
        let info = b % 32;
        if info < 24 {
            Some((major, info, i + 1))
        } else if info == 24 {
            if s.len() - i >= 2 {
                let v = from_be(s.subrange(i + 1, i + 2));
                if v >= 24 {
                    Some((major, v, i + 2))
                } else {
                    None
                }
            } else {
                None
            }
        } else if info == 25 {
            if s.len() - i >= 3 {
                let v = from_be(s.subrange(i + 1, i + 3));
                if v >= 256 {
                    Some((major, v, i + 3))
                } else {
                    None
                }
            } else {
                None
            }
        } else if info == 26 {
            if s.len() - i >= 5 {
                let v = from_be(s.subrange(i + 1, i + 5));
                if v >= 65536 {
                    Some((major, v, i + 5))
                } else {
                    None
                }
            } else {
                None
            }
        } else if info == 27 {
            if s.len() - i >= 9 {
                let v = from_be(s.subrange(i + 1, i + 9));
                if v >= 4294967296 {
                    Some((major, v, i + 9))
                } else {
                    None
                }
            } else {
                None
            }
        } else {
            None
        }
    }
}

/// A slice of `s` that holds an encoding splits into the encoding's parts.
pub proof fn lemma_concat_subrange(s: Seq<u8>, i: int, a: Seq<u8>, b: Seq<u8>)
    requires
        0 <= i,
        i + a.len() + b.len() <= s.len(),
        s.subrange(i, i + a.len() + b.len()) == a + b,
    ensures
        s.subrange(i, i + a.len() as int) == a,
        s.subrange(i + a.len() as int, i + a.len() + b.len()) == b,
{
    let ab = s.subrange(i, i + a.len() + b.len());
    assert forall|k: int| 0 <= k < a.len() implies s[i + k] == a[k] by {
        assert(ab[k] == s[i + k]);
        assert((a + b)[k] == a[k]);
    }
    assert forall|k: int| 0 <= k < b.len() implies s[i + a.len() + k] == b[k] by {
        assert(ab[a.len() + k] == s[i + a.len() + k]);
        assert((a + b)[a.len() + k] == b[k]);
    }
    assert(s.subrange(i, i + a.len() as int) =~= a);
    assert(s.subrange(i + a.len() as int, i + a.len() + b.len()) =~= b);
}

/// Reading back a canonical header finds the major type and value written.
pub proof fn lemma_dec_enc_head(s: Seq<u8>, i: int, major: int, v: int)
    requires
        0 <= major < 8,
        0 <= v < pow256(8),
        0 <= i,
        i + enc_head(major, v).len() <= s.len(),
        s.subrange(i, i + enc_head(major, v).len() as int) == enc_head(major, v),
    ensures
        dec_head(s, i) == Some((major, v, i + enc_head(major, v).len() as int)),
{
    let e = enc_head(major, v);
    assert(s[i] == e[0]);
    if v < 24 {
        assert(e[0] == head_byte(major, v));
        assert((major * 32 + v) / 32 == major && (major * 32 + v) % 32 == v) by (nonlinear_arith)
            requires
                0 <= major < 8,
                0 <= v < 24,
        ;
    } else {
        let n: nat = if v < 256 { 1nat } else if v < 65536 { 2nat } else if v < 4294967296 { 4nat } else { 8nat };
        let info: int = if v < 256 { 24 } else if v < 65536 { 25 } else if v < 4294967296 { 26 } else { 27 };
        lemma_pow256_vals();
        assert(v < pow256(n));
        lemma_be_bytes_from_be(v, n);
        assert((major * 32 + info) / 32 == major && (major * 32 + info) % 32 == info) by (nonlinear_arith)
            requires
                0 <= major < 8,
                24 <= info < 28,
        ;
        assert(e =~= seq![head_byte(major, info)] + be_bytes(v, n));
        lemma_concat_subrange(s, i, seq![head_byte(major, info)], be_bytes(v, n));
        assert(s.subrange(i + 1, i + 1 + n) =~= be_bytes(v, n));
    }
}

/// A byte string: a header with the length, then the bytes themselves.
pub open spec fn enc_bytes(b: Seq<u8>) -> Seq<u8> {
    enc_head(2, b.len() as int) + b
}

/// Reading a byte string at `i`.
pub open spec fn dec_bytes(s: Seq<u8>, i: int) -> Option<(Seq<u8>, int)> {
    match dec_head(s, i) {
        Some((major, len, j)) => {
            if major == 2 && j + len <= s.len() {
                Some((s.subrange(j, j + len), j + len))
            } else {
                None
            }
        },
        None => None,
    }
}

pub proof fn lemma_dec_enc_bytes(s: Seq<u8>, i: int, b: Seq<u8>)
    requires
        b.len() < pow256(8),
        0 <= i,
        i + enc_bytes(b).len() <= s.len(),
        s.subrange(i, i + enc_bytes(b).len() as int) == enc_bytes(b),
    ensures
        dec_bytes(s, i) == Some((b, i + enc_bytes(b).len() as int)),
{
    let h = enc_head(2, b.len() as int);
    lemma_concat_subrange(s, i, h, b);
    lemma_dec_enc_head(s, i, 2, b.len() as int);
    assert(s.subrange(i + h.len() as int, i + h.len() + b.len()) =~= b);
}

/// An unsigned integer: a header of major type zero.
pub open spec fn enc_u64(v: u64) -> Seq<u8> {
    enc_head(0, v as int)
}

/// Reading an unsigned integer at `i`.
pub open spec fn dec_u64(s: Seq<u8>, i: int) -> Option<(int, int)> {
    match dec_head(s, i) {
        Some((major, v, j)) => if major == 0 {
            Some((v, j))
        } else {
            None
        },
        None => None,
    }
}

pub proof fn lemma_dec_enc_u64(s: Seq<u8>, i: int, v: u64)
    requires
        0 <= i,
        i + enc_u64(v).len() <= s.len(),
        s.subrange(i, i + enc_u64(v).len() as int) == enc_u64(v),
    ensures
        dec_u64(s, i) == Some((v as int, i + enc_u64(v).len() as int)),
{
    lemma_pow256_vals();
    lemma_dec_enc_head(s, i, 0, v as int);
}

/// Copy a byte vector element by element.
pub fn clone_bytes(v: &Vec<u8>) -> (r: Vec<u8>)
    ensures
        r@ == v@,
{
    let mut out: Vec<u8> = Vec::new();
    let mut i: usize = 0;
    while i < v.len()
        invariant
            i <= v.len(),
            out@ == v@.take(i as int),
        decreases v.len() - i,
    {
        out.push(v[i]);
        i = i + 1;
        proof {
            assert(out@ =~= v@.take(i as int));
        }
    }
    proof {
        assert(v@.take(v@.len() as int) =~= v@);
    }
    out
}

/// Append the `n` big-endian bytes of `v`.
pub(crate) fn push_be(buf: &mut Vec<u8>, v: u64, n: u8)
    ensures
        final(buf)@ == old(buf)@ + be_bytes(v as int, n as nat),
    decreases n,
{
    if n == 0 {
        proof {
            assert(buf@ =~= buf@ + be_bytes(v as int, 0));
        }
    } else {
        push_be(buf, v / 256, n - 1);
        buf.push((v % 256) as u8);
        proof {
            assert(buf@ =~= old(buf)@ + be_bytes(v as int, n as nat));
        }
    }
}

/// Append the canonical header for major type `major` and value `v`.
pub(crate) fn push_head(buf: &mut Vec<u8>, major: u8, v: u64)
    requires
        major < 8,
    ensures
        final(buf)@ == old(buf)@ + enc_head(major as int, v as int),
{
    if v < 24 {
        buf.push(major * 32 + v as u8);
        proof {
            assert(buf@ =~= old(buf)@ + enc_head(major as int, v as int));
        }
    } else if v < 256 {
        buf.push(major * 32 + 24);
        push_be(buf, v, 1);
        proof {
            assert(buf@ =~= old(buf)@ + enc_head(major as int, v as int));
        }
    } else if v < 65536 {
        buf.push(major * 32 + 25);
        push_be(buf, v, 2);
        proof {
            assert(buf@ =~= old(buf)@ + enc_head(major as int, v as int));
        }
    } else if v < 4294967296 {
        buf.push(major * 32 + 26);
        push_be(buf, v, 4);
        proof {
            assert(buf@ =~= old(buf)@ + enc_head(major as int, v as int));
        }
    } else {
        buf.push(major * 32 + 27);
        push_be(buf, v, 8);
        proof {
            assert(buf@ =~= old(buf)@ + enc_head(major as int, v as int));
        }
    }
}

/// Append a byte string: its length header, then the bytes.
pub(crate) fn push_bytes(buf: &mut Vec<u8>, b: &Vec<u8>)
    ensures
        final(buf)@ == old(buf)@ + enc_bytes(b@),
{
    push_head(buf, 2, b.len() as u64);
    let mut i: usize = 0;
    while i < b.len()
        invariant
            i <= b.len(),
            buf@ == old(buf)@ + enc_head(2, b@.len() as int) + b@.take(i as int),
        decreases b.len() - i,
    {
        buf.push(b[i]);
        i = i + 1;
        proof {
            assert(buf@ =~= old(buf)@ + enc_head(2, b@.len() as int) + b@.take(i as int));
        }
    }
    proof {
        assert(b@.take(b@.len() as int) =~= b@);
        assert(buf@ =~= old(buf)@ + enc_bytes(b@));
    }
}

/// Read `n` big-endian bytes at `i`.
pub(crate) fn read_be(s: &Vec<u8>, i: usize, n: u8) -> (r: u64)
    requires
        i + n as usize <= s@.len(),
        n <= 8,
    ensures
        r as int == from_be(s@.subrange(i as int, i as int + n as int)),
{
    let slen = s.len();
    let mut acc: u64 = 0;
    let mut j: usize = 0;
    proof {
        lemma_pow256_vals();
        assert(s@.subrange(i as int, i as int) =~= Seq::<u8>::empty());
    }
    while j < n as usize
        invariant
            j <= n as usize,
            n <= 8,
            i + n as usize <= s@.len(),
            s@.len() == slen,
            acc as int == from_be(s@.subrange(i as int, i as int + j as int)),
            (acc as int) < pow256(j as nat),
            pow256(8) == 0x1_0000_0000_0000_0000,
        decreases n as usize - j,
    {
        proof {
            assert(s@.len() == slen);
            assert(i + j < s@.len());
            let sub = s@.subrange(i as int, i as int + j + 1);
            assert(sub.drop_last() =~= s@.subrange(i as int, i as int + j as int));
            assert(sub.last() == s@[i as int + j]);
            lemma_pow256_step(j as nat);
            lemma_pow256_mono(j as nat + 1, 8);
            assert((acc as int) * 256 + s@[i as int + j] < pow256(j as nat + 1)) by (nonlinear_arith)
                requires
                    (acc as int) < pow256(j as nat),
                    s@[i as int + j] < 256,
                    pow256(j as nat + 1) == 256 * pow256(j as nat),
            ;
        }
        acc = acc * 256 + s[i + j] as u64;
        j = j + 1;
    }
    acc
}

/// One step of `pow256`.
proof fn lemma_pow256_step(n: nat)
    ensures
        pow256(n + 1) == 256 * pow256(n),
{
}

/// `pow256` grows with its argument.
proof fn lemma_pow256_mono(a: nat, b: nat)
    requires
        a <= b,
    ensures
        pow256(a) <= pow256(b),
    decreases b,
{
    if a < b {
        lemma_pow256_mono(a, (b - 1) as nat);
        lemma_pow256_pos((b - 1) as nat);
        assert(pow256(b) == 256 * pow256((b - 1) as nat));
    }
}

/// Read a canonical header at `i`.
pub(crate) fn decode_head(s: &Vec<u8>, i: usize) -> (r: Option<(u8, u64, usize)>)
    ensures
        match r {
            Some((major, v, j)) => dec_head(s@, i as int) == Some((major as int, v as int, j as int))
                && i < j <= s@.len() && major < 8,
            None => dec_head(s@, i as int) is None,
        },
{
    if i >= s.len() {
        return None;
    }
    let b = s[i];
    let major = b / 32;
    let info = b % 32;
    if info < 24 {
        Some((major, info as u64, i + 1))
    } else if info == 24 {
        if s.len() - i >= 2 {
            let v = read_be(s, i + 1, 1);
            proof {
                lemma_from_be_bound(s@.subrange(i as int + 1, i as int + 2));
                lemma_pow256_vals();
            }
            if v >= 24 {
                Some((major, v, i + 2))
            } else {
                None
            }
        } else {
            None
        }
    } else if info == 25 {
        if s.len() - i >= 3 {
            let v = read_be(s, i + 1, 2);
            proof {
                lemma_from_be_bound(s@.subrange(i as int + 1, i as int + 3));
                lemma_pow256_vals();
            }
            if v >= 256 {
                Some((major, v, i + 3))
            } else {
                None
            }
        } else {
            None
        }
    } else if info == 26 {
        if s.len() - i >= 5 {
            let v = read_be(s, i + 1, 5 - 1);
            proof {
                lemma_from_be_bound(s@.subrange(i as int + 1, i as int + 5));
                lemma_pow256_vals();
            }
            if v >= 65536 {
                Some((major, v, i + 5))
            } else {
                None
            }
        } else {
            None
        }
    } else if info == 27 {
        if s.len() - i >= 9 {
            let v = read_be(s, i + 1, 8);
            proof {
                lemma_from_be_bound(s@.subrange(i as int + 1, i as int + 9));
                lemma_pow256_vals();
            }
            if v >= 4294967296 {
                Some((major, v, i + 9))
            } else {
                None
            }
        } else {
            None
        }
    } else {
        None
    }
}


// === Entity encodings ===

/// A literal value: an integer header, or a byte string.
pub open spec fn enc_value(v: ValueV) -> Seq<u8> {
    match v {
        ValueV::Int(u) => enc_head(0, u as int),
        ValueV::Bytes(b) => enc_bytes(b),
    }
}

/// Reading a literal value at `i`.
pub open spec fn dec_value(s: Seq<u8>, i: int) -> Option<(ValueV, int)> {
    match dec_head(s, i) {
        Some((major, v, j)) => if major == 0 {
            Some((ValueV::Int(v as u64), j))
        } else if major == 2 {
            if j + v <= s.len() {
                Some((ValueV::Bytes(s.subrange(j, j + v)), j + v))
            } else {
                None
            }
        } else {
            None
        },
        None => None,
    }
}

/// Lengths small enough for a canonical header.
pub open spec fn wf_value(v: ValueV) -> bool {
    match v {
        ValueV::Int(_) => true,
        ValueV::Bytes(b) => b.len() < pow256(8),
    }
}

pub proof fn lemma_dec_enc_value(s: Seq<u8>, i: int, v: ValueV)
    requires
        wf_value(v),
        0 <= i,
        i + enc_value(v).len() <= s.len(),
        s.subrange(i, i + enc_value(v).len() as int) == enc_value(v),
    ensures
        dec_value(s, i) == Some((v, i + enc_value(v).len() as int)),
{
    lemma_pow256_vals();
    match v {
        ValueV::Int(u) => {
            lemma_dec_enc_head(s, i, 0, u as int);
        },
        ValueV::Bytes(b) => {
            let h = enc_head(2, b.len() as int);
            lemma_concat_subrange(s, i, h, b);
            lemma_dec_enc_head(s, i, 2, b.len() as int);
            assert(s.subrange(i + h.len() as int, i + h.len() + b.len()) =~= b);
        },
    }
}

/// The variant tag of an argument: a literal, or a promise with its selector.
pub open spec fn arg_tag(a: ArgumentV) -> int {
    match a {
        ArgumentV::Literal(_) => 0,
        ArgumentV::Promise { selector: Selector::AwaitOk, .. } => 1,
        ArgumentV::Promise { selector: Selector::AwaitErr, .. } => 2,
        ArgumentV::Promise { selector: Selector::AwaitAny, .. } => 3,
    }
}

/// An argument: a tagged literal, or a tagged promise CID.
pub open spec fn enc_argument(a: ArgumentV) -> Seq<u8> {
    match a {
        ArgumentV::Literal(v) => enc_head(6, 0) + enc_value(v),
        ArgumentV::Promise { task, .. } => enc_head(6, arg_tag(a)) + enc_bytes(task),
    }
}

/// Reading an argument at `i`.
pub open spec fn dec_argument(s: Seq<u8>, i: int) -> Option<(ArgumentV, int)> {
    match dec_head(s, i) {
        Some((major, tag, j)) => if major != 6 {
            None
        } else if tag == 0 {
            match dec_value(s, j) {
                Some((v, k)) => Some((ArgumentV::Literal(v), k)),
                None => None,
            }
        } else if 1 <= tag <= 3 {
            match dec_bytes(s, j) {
                Some((task, k)) => if task.len() == 32 {
                    let selector = if tag == 1 {
                        Selector::AwaitOk
                    } else if tag == 2 {
                        Selector::AwaitErr
                    } else {
                        Selector::AwaitAny
                    };
                    Some((ArgumentV::Promise { task, selector }, k))
                } else {
                    None
                },
                None => None,
            }
        } else {
            None
        },
        None => None,
    }
}

/// Every argument in the list is well-formed.
pub open spec fn wf_args(items: Seq<ArgumentV>) -> bool {
    forall|k: int| 0 <= k < items.len() ==> wf_argument(#[trigger] items[k])
}

/// A promise names a 32-byte digest; a literal is well-formed as a value.
pub open spec fn wf_argument(a: ArgumentV) -> bool {
    match a {
        ArgumentV::Literal(v) => wf_value(v),
        ArgumentV::Promise { task, .. } => task.len() == 32,
    }
}

pub proof fn lemma_dec_enc_argument(s: Seq<u8>, i: int, a: ArgumentV)
    requires
        wf_argument(a),
        0 <= i,
        i + enc_argument(a).len() <= s.len(),
        s.subrange(i, i + enc_argument(a).len() as int) == enc_argument(a),
    ensures
        dec_argument(s, i) == Some((a, i + enc_argument(a).len() as int)),
{
    lemma_pow256_vals();
    match a {
        ArgumentV::Literal(v) => {
            let h = enc_head(6, 0);
            lemma_concat_subrange(s, i, h, enc_value(v));
            lemma_dec_enc_head(s, i, 6, 0);
            lemma_dec_enc_value(s, i + h.len() as int, v);
        },
        ArgumentV::Promise { task, .. } => {
            let t = arg_tag(a);
            let h = enc_head(6, t);
            lemma_concat_subrange(s, i, h, enc_bytes(task));
            lemma_dec_enc_head(s, i, 6, t);
            lemma_dec_enc_bytes(s, i + h.len() as int, task);
        },
    }
}

/// The arguments one after another, without a header.
pub open spec fn enc_args_items(items: Seq<ArgumentV>) -> Seq<u8>
    decreases items.len(),
{
    if items.len() == 0 {
        Seq::empty()
    } else {
        enc_argument(items[0]) + enc_args_items(items.drop_first())
    }
}

/// Reading `n` arguments one after another.
pub open spec fn dec_args_items(s: Seq<u8>, i: int, n: nat) -> Option<(Seq<ArgumentV>, int)>
    decreases n,
{
    if n == 0 {
        Some((Seq::empty(), i))
    } else {
        match dec_argument(s, i) {
            Some((a, j)) => match dec_args_items(s, j, (n - 1) as nat) {
                Some((rest, k)) => Some((seq![a] + rest, k)),
                None => None,
            },
            None => None,
        }
    }
}

pub proof fn lemma_dec_enc_args_items(s: Seq<u8>, i: int, items: Seq<ArgumentV>)
    requires
        wf_args(items),
        0 <= i,
        i + enc_args_items(items).len() <= s.len(),
        s.subrange(i, i + enc_args_items(items).len() as int) == enc_args_items(items),
    ensures
        dec_args_items(s, i, items.len()) == Some((items, i + enc_args_items(items).len() as int)),
    decreases items.len(),
{
    if items.len() == 0 {
        assert(items =~= Seq::<ArgumentV>::empty());
    } else {
        let a0 = items[0];
        let rest = items.drop_first();
        lemma_concat_subrange(s, i, enc_argument(a0), enc_args_items(rest));
        lemma_dec_enc_argument(s, i, a0);
        let j = i + enc_argument(a0).len() as int;
        assert(wf_args(rest));
        lemma_dec_enc_args_items(s, j, rest);
        assert(seq![a0] + rest =~= items);
    }
}

/// An instruction: a four-field record — module CID, function name,
/// argument list, nonce.
pub open spec fn enc_instruction(ins: InstructionV) -> Seq<u8> {
    enc_head(4, 4) + enc_bytes(ins.resource) + enc_bytes(ins.fun)
        + (enc_head(4, ins.args.len() as int) + enc_args_items(ins.args)) + enc_u64(ins.nonce)
}

/// Reading an instruction at `i`.
pub open spec fn dec_instruction(s: Seq<u8>, i: int) -> Option<(InstructionV, int)> {
    match dec_head(s, i) {
        Some((m0, a0, i0)) => if m0 != 4 || a0 != 4 {
            None
        } else {
            match dec_bytes(s, i0) {
                Some((resource, i1)) => if resource.len() != 32 {
                    None
                } else {
                    match dec_bytes(s, i1) {
                        Some((fun, i2)) => match dec_head(s, i2) {
                            Some((m1, n, i3)) => if m1 != 4 {
                                None
                            } else {
                                match dec_args_items(s, i3, n as nat) {
                                    Some((args, i4)) => match dec_u64(s, i4) {
                                        Some((nonce, i5)) => Some((
                                            InstructionV {
                                                resource,
                                                fun,
                                                args,
                                                nonce: nonce as u64,
                                            },
                                            i5,
                                        )),
                                        None => None,
                                    },
                                    None => None,
                                }
                            },
                            None => None,
                        },
                        None => None,
                    }
                },
                None => None,
            }
        },
        None => None,
    }
}

/// Field lengths small enough to head, CID of the module 32 bytes.
pub open spec fn wf_instruction(ins: InstructionV) -> bool {
    &&& ins.resource.len() == 32
    &&& ins.fun.len() < pow256(8)
    &&& ins.args.len() < pow256(8)
    &&& wf_args(ins.args)
}

pub proof fn lemma_dec_enc_instruction(s: Seq<u8>, i: int, ins: InstructionV)
    requires
        wf_instruction(ins),
        0 <= i,
        i + enc_instruction(ins).len() <= s.len(),
        s.subrange(i, i + enc_instruction(ins).len() as int) == enc_instruction(ins),
    ensures
        dec_instruction(s, i) == Some((ins, i + enc_instruction(ins).len() as int)),
{
    lemma_pow256_vals();
    let h = enc_head(4, 4);
    let e1 = enc_bytes(ins.resource);
    let e2 = enc_bytes(ins.fun);
    let e3 = enc_head(4, ins.args.len() as int) + enc_args_items(ins.args);
    let e4 = enc_u64(ins.nonce);
    let tail1 = e1 + (e2 + (e3 + e4));
    assert(enc_instruction(ins) =~= h + tail1);
    lemma_concat_subrange(s, i, h, tail1);
    lemma_dec_enc_head(s, i, 4, 4);
    let i0 = i + h.len() as int;
    let tail2 = e2 + (e3 + e4);
    assert(tail1 =~= e1 + tail2);
    assert(s.subrange(i0, i0 + tail1.len() as int) == tail1);
    lemma_concat_subrange(s, i0, e1, tail2);
    lemma_dec_enc_bytes(s, i0, ins.resource);
    let i1 = i0 + e1.len() as int;
    let tail3 = e3 + e4;
    assert(tail2 =~= e2 + tail3);
    lemma_concat_subrange(s, i1, e2, tail3);
    lemma_dec_enc_bytes(s, i1, ins.fun);
    let i2 = i1 + e2.len() as int;
    let hn = enc_head(4, ins.args.len() as int);
    let tail4 = enc_args_items(ins.args) + e4;
    assert(tail3 =~= hn + tail4);
    lemma_concat_subrange(s, i2, hn, tail4);
    lemma_dec_enc_head(s, i2, 4, ins.args.len() as int);
    let i3 = i2 + hn.len() as int;
    lemma_concat_subrange(s, i3, enc_args_items(ins.args), e4);
    lemma_dec_enc_args_items(s, i3, ins.args);
    let i4 = i3 + enc_args_items(ins.args).len() as int;
    lemma_dec_enc_u64(s, i4, ins.nonce);
}

/// A task: a five-field record — the instruction (inline or by reference),
/// the three budgets, and the UCAN proof bytes.
pub open spec fn enc_task(t: TaskV) -> Seq<u8> {
    enc_head(4, 5) + enc_run(t.run) + enc_u64(t.resources.fuel) + enc_u64(t.resources.memory)
        + enc_u64(t.resources.time_ms) + enc_bytes(t.prf)
}

/// The instruction position of a task.
pub open spec fn enc_run(r: RunInstructionV) -> Seq<u8> {
    match r {
        RunInstructionV::Expanded(ins) => enc_head(6, 0) + enc_instruction(ins),
        RunInstructionV::Ref(c) => enc_head(6, 1) + enc_bytes(c),
    }
}

/// Reading the instruction position at `i`.
pub open spec fn dec_run(s: Seq<u8>, i: int) -> Option<(RunInstructionV, int)> {
    match dec_head(s, i) {
        Some((major, tag, j)) => if major != 6 {
            None
        } else if tag == 0 {
            match dec_instruction(s, j) {
                Some((ins, k)) => Some((RunInstructionV::Expanded(ins), k)),
                None => None,
            }
        } else if tag == 1 {
            match dec_bytes(s, j) {
                Some((c, k)) => if c.len() == 32 {
                    Some((RunInstructionV::Ref(c), k))
                } else {
                    None
                },
                None => None,
            }
        } else {
            None
        },
        None => None,
    }
}

/// Reading a task at `i`.
pub open spec fn dec_task(s: Seq<u8>, i: int) -> Option<(TaskV, int)> {
    match dec_head(s, i) {
        Some((m0, a0, i0)) => if m0 != 4 || a0 != 5 {
            None
        } else {
            match dec_run(s, i0) {
                Some((run, i1)) => match dec_u64(s, i1) {
                    Some((fuel, i2)) => match dec_u64(s, i2) {
                        Some((memory, i3)) => match dec_u64(s, i3) {
                            Some((time_ms, i4)) => match dec_bytes(s, i4) {
                                Some((prf, i5)) => Some((
                                    TaskV {
                                        run,
                                        resources: Resources {
                                            fuel: fuel as u64,
                                            memory: memory as u64,
                                            time_ms: time_ms as u64,
                                        },
                                        prf,
                                    },
                                    i5,
                                )),
                                None => None,
                            },
                            None => None,
                        },
                        None => None,
                    },
                    None => None,
                },
                None => None,
            }
        },
        None => None,
    }
}

/// A task's parts are well-formed for encoding.
pub open spec fn wf_task(t: TaskV) -> bool {
    &&& match t.run {
        RunInstructionV::Expanded(ins) => wf_instruction(ins),
        RunInstructionV::Ref(c) => c.len() == 32,
    }
    &&& t.prf.len() < pow256(8)
}

pub proof fn lemma_dec_enc_run(s: Seq<u8>, i: int, r: RunInstructionV)
    requires
        match r {
            RunInstructionV::Expanded(ins) => wf_instruction(ins),
            RunInstructionV::Ref(c) => c.len() == 32,
        },
        0 <= i,
        i + enc_run(r).len() <= s.len(),
        s.subrange(i, i + enc_run(r).len() as int) == enc_run(r),
    ensures
        dec_run(s, i) == Some((r, i + enc_run(r).len() as int)),
{
    lemma_pow256_vals();
    match r {
        RunInstructionV::Expanded(ins) => {
            let h = enc_head(6, 0);
            lemma_concat_subrange(s, i, h, enc_instruction(ins));
            lemma_dec_enc_head(s, i, 6, 0);
            lemma_dec_enc_instruction(s, i + h.len() as int, ins);
        },
        RunInstructionV::Ref(c) => {
            let h = enc_head(6, 1);
            lemma_concat_subrange(s, i, h, enc_bytes(c));
            lemma_dec_enc_head(s, i, 6, 1);
            lemma_dec_enc_bytes(s, i + h.len() as int, c);
        },
    }
}

#[verifier::rlimit(60)]
pub proof fn lemma_dec_enc_task(s: Seq<u8>, i: int, t: TaskV)
    requires
        wf_task(t),
        0 <= i,
        i + enc_task(t).len() <= s.len(),
        s.subrange(i, i + enc_task(t).len() as int) == enc_task(t),
    ensures
        dec_task(s, i) == Some((t, i + enc_task(t).len() as int)),
{
    lemma_pow256_vals();
    let h = enc_head(4, 5);
    let e1 = enc_run(t.run);
    let e2 = enc_u64(t.resources.fuel);
    let e3 = enc_u64(t.resources.memory);
    let e4 = enc_u64(t.resources.time_ms);
    let e5 = enc_bytes(t.prf);
    let tail1 = e1 + (e2 + (e3 + (e4 + e5)));
    assert(enc_task(t) =~= h + tail1);
    lemma_concat_subrange(s, i, h, tail1);
    lemma_dec_enc_head(s, i, 4, 5);
    let i0 = i + h.len() as int;
    let tail2 = e2 + (e3 + (e4 + e5));
    assert(tail1 =~= e1 + tail2);
    lemma_concat_subrange(s, i0, e1, tail2);
    lemma_dec_enc_run(s, i0, t.run);
    let i1 = i0 + e1.len() as int;
    let tail3 = e3 + (e4 + e5);
    assert(tail2 =~= e2 + tail3);
    lemma_concat_subrange(s, i1, e2, tail3);
    lemma_dec_enc_u64(s, i1, t.resources.fuel);
    let i2 = i1 + e2.len() as int;
    let tail4 = e4 + e5;
    assert(tail3 =~= e3 + tail4);
    lemma_concat_subrange(s, i2, e3, tail4);
    lemma_dec_enc_u64(s, i2, t.resources.memory);
    let i3 = i2 + e3.len() as int;
    lemma_concat_subrange(s, i3, e4, e5);
    lemma_dec_enc_u64(s, i3, t.resources.time_ms);
    let i4 = i3 + e4.len() as int;
    lemma_dec_enc_bytes(s, i4, t.prf);
}

/// The tasks one after another, without a header.
pub open spec fn enc_tasks_items(items: Seq<TaskV>) -> Seq<u8>
    decreases items.len(),
{
    if items.len() == 0 {
        Seq::empty()
    } else {
        enc_task(items[0]) + enc_tasks_items(items.drop_first())
    }
}

/// Reading `n` tasks one after another.
pub open spec fn dec_tasks_items(s: Seq<u8>, i: int, n: nat) -> Option<(Seq<TaskV>, int)>
    decreases n,
{
    if n == 0 {
        Some((Seq::empty(), i))
    } else {
        match dec_task(s, i) {
            Some((t, j)) => match dec_tasks_items(s, j, (n - 1) as nat) {
                Some((rest, k)) => Some((seq![t] + rest, k)),
                None => None,
            },
            None => None,
        }
    }
}

#[verifier::rlimit(100)]
#[verifier::spinoff_prover]
pub proof fn lemma_dec_enc_tasks_items(s: Seq<u8>, i: int, items: Seq<TaskV>)
    requires
        forall|k: int| 0 <= k < items.len() ==> wf_task(#[trigger] items[k]),
        0 <= i,
        i + enc_tasks_items(items).len() <= s.len(),
        s.subrange(i, i + enc_tasks_items(items).len() as int) == enc_tasks_items(items),
    ensures
        dec_tasks_items(s, i, items.len()) == Some(
            (items, i + enc_tasks_items(items).len() as int),
        ),
    decreases items.len(),
{
    if items.len() == 0 {
        assert(items =~= Seq::<TaskV>::empty());
    } else {
        let t0 = items[0];
        let rest = items.drop_first();
        lemma_concat_subrange(s, i, enc_task(t0), enc_tasks_items(rest));
        lemma_dec_enc_task(s, i, t0);
        let j = i + enc_task(t0).len() as int;
        assert(forall|k: int| 0 <= k < rest.len() ==> wf_task(#[trigger] rest[k]));
        lemma_dec_enc_tasks_items(s, j, rest);
        assert(seq![t0] + rest =~= items);
    }
}

/// A workflow: the task list under one header.
pub open spec fn enc_workflow(ts: Seq<TaskV>) -> Seq<u8> {
    enc_head(4, ts.len() as int) + enc_tasks_items(ts)
}

/// Reading a whole workflow at `i`.
pub open spec fn dec_workflow(s: Seq<u8>, i: int) -> Option<(Seq<TaskV>, int)> {
    match dec_head(s, i) {
        Some((major, n, j)) => if major != 4 {
            None
        } else {
            dec_tasks_items(s, j, n as nat)
        },
        None => None,
    }
}

/// Every task is well-formed and the list fits under one header.
pub open spec fn wf_tasks(ts: Seq<TaskV>) -> bool {
    &&& ts.len() < pow256(8)
    &&& forall|k: int| 0 <= k < ts.len() ==> wf_task(#[trigger] ts[k])
}

/// Decoding a workflow's canonical encoding gives back the workflow: the
/// round trip on which content addressing rests.
pub proof fn lemma_dec_enc_workflow(ts: Seq<TaskV>)
    requires
        wf_tasks(ts),
    ensures
        dec_workflow(enc_workflow(ts), 0) == Some((ts, enc_workflow(ts).len() as int)),
{
    lemma_pow256_vals();
    let s = enc_workflow(ts);
    let h = enc_head(4, ts.len() as int);
    assert(s.subrange(0, s.len() as int) =~= s);
    lemma_concat_subrange(s, 0, h, enc_tasks_items(ts));
    lemma_dec_enc_head(s, 0, 4, ts.len() as int);
    lemma_dec_enc_tasks_items(s, h.len() as int, ts);
}


// === Executable encoders ===

/// Appending one more item extends the encoding of the items before it.
pub proof fn lemma_enc_args_items_snoc(items: Seq<ArgumentV>, a: ArgumentV)
    ensures
        enc_args_items(items.push(a)) == enc_args_items(items) + enc_argument(a),
    decreases items.len(),
{
    reveal_with_fuel(enc_args_items, 3);
    if items.len() == 0 {
        assert(items.push(a)[0] == a);
        assert(items.push(a).drop_first() =~= Seq::<ArgumentV>::empty());
        assert(enc_args_items(items.push(a)) =~= enc_args_items(items) + enc_argument(a));
    } else {
        assert(items.push(a).drop_first() =~= items.drop_first().push(a));
        lemma_enc_args_items_snoc(items.drop_first(), a);
        assert(items.push(a)[0] == items[0]);
        assert(enc_args_items(items.push(a)) == enc_argument(items[0]) + enc_args_items(
            items.drop_first().push(a),
        ));
        assert(enc_args_items(items) == enc_argument(items[0]) + enc_args_items(
            items.drop_first(),
        ));
        assert(enc_args_items(items.push(a)) =~= enc_args_items(items) + enc_argument(a));
    }
}

/// Appending one more task extends the encoding of the tasks before it.
pub proof fn lemma_enc_tasks_items_snoc(items: Seq<TaskV>, t: TaskV)
    ensures
        enc_tasks_items(items.push(t)) == enc_tasks_items(items) + enc_task(t),
    decreases items.len(),
{
    reveal_with_fuel(enc_tasks_items, 3);
    if items.len() == 0 {
        assert(items.push(t)[0] == t);
        assert(items.push(t).drop_first() =~= Seq::<TaskV>::empty());
        assert(enc_tasks_items(items.push(t)) =~= enc_tasks_items(items) + enc_task(t));
    } else {
        assert(items.push(t).drop_first() =~= items.drop_first().push(t));
        lemma_enc_tasks_items_snoc(items.drop_first(), t);
        assert(items.push(t)[0] == items[0]);
        assert(enc_tasks_items(items.push(t)) == enc_task(items[0]) + enc_tasks_items(
            items.drop_first().push(t),
        ));
        assert(enc_tasks_items(items) == enc_task(items[0]) + enc_tasks_items(
            items.drop_first(),
        ));
        assert(enc_tasks_items(items.push(t)) =~= enc_tasks_items(items) + enc_task(t));
    }
}

/// Append the encoding of a literal value.
pub(crate) fn encode_value_into(buf: &mut Vec<u8>, v: &Value)
    ensures
        final(buf)@ == old(buf)@ + enc_value(v@),
        wf_value(v@),
{
    proof {
        lemma_pow256_vals();
    }
    match v {
        Value::Int(u) => push_head(buf, 0, *u),
        Value::Bytes(b) => {
            let l = b.len();
            assert(b@.len() == l);
            push_bytes(buf, b);
        },
    }
}

/// Append the encoding of an argument.
pub(crate) fn encode_argument_into(buf: &mut Vec<u8>, a: &Argument)
    ensures
        final(buf)@ == old(buf)@ + enc_argument(a@),
        wf_argument(a@),
{
    match a {
        Argument::Literal(v) => {
            push_head(buf, 6, 0);
            encode_value_into(buf, v);
            proof {
                assert(buf@ =~= old(buf)@ + enc_argument(a@));
            }
        },
        Argument::Promise { task, selector } => {
            let tag: u64 = match selector {
                Selector::AwaitOk => 1,
                Selector::AwaitErr => 2,
                Selector::AwaitAny => 3,
            };
            proof {
                use_type_invariant(task);
            }
            push_head(buf, 6, tag);
            push_bytes(buf, task.digest_bytes());
            proof {
                assert(buf@ =~= old(buf)@ + enc_argument(a@));
            }
        },
    }
}

/// Append the encoding of an argument list, header first.
pub(crate) fn encode_args_into(buf: &mut Vec<u8>, args: &Vec<Argument>)
    ensures
        final(buf)@ == old(buf)@ + enc_head(4, args@.len() as int) + enc_args_items(
            args@.map_values(|a: Argument| a@),
        ),
        args@.len() < pow256(8),
        wf_args(args@.map_values(|a: Argument| a@)),
{
    let ghost vs = args@.map_values(|a: Argument| a@);
    proof {
        lemma_pow256_vals();
    }
    let la = args.len();
    assert(args@.len() == la);
    push_head(buf, 4, la as u64);
    let mut i: usize = 0;
    while i < args.len()
        invariant
            i <= args.len(),
            vs == args@.map_values(|a: Argument| a@),
            buf@ == old(buf)@ + enc_head(4, args@.len() as int) + enc_args_items(
                vs.take(i as int),
            ),
            forall|k: int| 0 <= k < i ==> wf_argument(#[trigger] vs[k]),
        decreases args.len() - i,
    {
        encode_argument_into(buf, &args[i]);
        proof {
            assert(vs.take(i as int).push(vs[i as int]) =~= vs.take(i as int + 1));
            lemma_enc_args_items_snoc(vs.take(i as int), vs[i as int]);
            assert(buf@ =~= old(buf)@ + enc_head(4, args@.len() as int) + enc_args_items(
                vs.take(i as int + 1),
            ));
        }
        i = i + 1;
    }
    proof {
        assert(vs.take(vs.len() as int) =~= vs);
    }
}

/// Append the encoding of an instruction.
pub(crate) fn encode_instruction_into(buf: &mut Vec<u8>, ins: &Instruction)
    ensures
        final(buf)@ == old(buf)@ + enc_instruction(ins@),
        wf_instruction(ins@),
{
    proof {
        lemma_pow256_vals();
        use_type_invariant(&ins.resource);
    }
    let lf = ins.fun.len();
    assert(ins.fun@.len() == lf);
    push_head(buf, 4, 4);
    push_bytes(buf, ins.resource.digest_bytes());
    push_bytes(buf, &ins.fun);
    encode_args_into(buf, &ins.args);
    push_head(buf, 0, ins.nonce);
    proof {
        assert(buf@ =~= old(buf)@ + enc_instruction(ins@));
    }
}

/// The canonical encoding of an instruction.
pub fn encode_instruction(ins: &Instruction) -> (r: Vec<u8>)
    ensures
        r@ == enc_instruction(ins@),
        wf_instruction(ins@),
{
    let mut buf: Vec<u8> = Vec::new();
    encode_instruction_into(&mut buf, ins);
    proof {
        assert(buf@ =~= enc_instruction(ins@));
    }
    buf
}

/// Append the encoding of a task.
pub(crate) fn encode_task_into(buf: &mut Vec<u8>, t: &Task)
    ensures
        final(buf)@ == old(buf)@ + enc_task(t@),
        wf_task(t@),
{
    proof {
        lemma_pow256_vals();
    }
    let lp = t.prf.len();
    assert(t.prf@.len() == lp);
    push_head(buf, 4, 5);
    match &t.run {
        RunInstruction::Expanded(ins) => {
            push_head(buf, 6, 0);
            encode_instruction_into(buf, ins);
        },
        RunInstruction::Ref(c) => {
            proof {
                use_type_invariant(c);
            }
            push_head(buf, 6, 1);
            push_bytes(buf, c.digest_bytes());
        },
    }
    push_head(buf, 0, t.resources.fuel);
    push_head(buf, 0, t.resources.memory);
    push_head(buf, 0, t.resources.time_ms);
    push_bytes(buf, &t.prf);
    proof {
        assert(buf@ =~= old(buf)@ + enc_task(t@));
    }
}

/// The canonical encoding of a task list, header first.
pub fn encode_tasks(tasks: &Vec<Task>) -> (r: Vec<u8>)
    ensures
        r@ == enc_workflow(tasks@.map_values(|t: Task| t@)),
        wf_tasks(tasks@.map_values(|t: Task| t@)),
{
    let ghost vs = tasks@.map_values(|t: Task| t@);
    proof {
        lemma_pow256_vals();
    }
    let lt = tasks.len();
    assert(tasks@.len() == lt);
    let mut buf: Vec<u8> = Vec::new();
    push_head(&mut buf, 4, tasks.len() as u64);
    let mut i: usize = 0;
    while i < tasks.len()
        invariant
            i <= tasks.len(),
            vs == tasks@.map_values(|t: Task| t@),
            buf@ == enc_head(4, tasks@.len() as int) + enc_tasks_items(vs.take(i as int)),
            forall|k: int| 0 <= k < i ==> wf_task(#[trigger] vs[k]),
        decreases tasks.len() - i,
    {
        encode_task_into(&mut buf, &tasks[i]);
        proof {
            assert(vs.take(i as int).push(vs[i as int]) =~= vs.take(i as int + 1));
            lemma_enc_tasks_items_snoc(vs.take(i as int), vs[i as int]);
            assert(buf@ =~= enc_head(4, tasks@.len() as int) + enc_tasks_items(
                vs.take(i as int + 1),
            ));
        }
        i = i + 1;
    }
    proof {
        assert(vs.take(vs.len() as int) =~= vs);
        assert(buf@ =~= enc_workflow(vs));
    }
    buf
}


// === Executable decoders ===

/// Copy `s[from..to]` into a fresh vector.
pub(crate) fn copy_range(s: &Vec<u8>, from: usize, to: usize) -> (r: Vec<u8>)
    requires
        from <= to <= s@.len(),
    ensures
        r@ == s@.subrange(from as int, to as int),
{
    let mut out: Vec<u8> = Vec::new();
    let mut i: usize = from;
    while i < to
        invariant
            from <= i <= to <= s@.len(),
            out@ == s@.subrange(from as int, i as int),
        decreases to - i,
    {
        out.push(s[i]);
        i = i + 1;
        proof {
            assert(out@ =~= s@.subrange(from as int, i as int));
        }
    }
    out
}

/// Read a byte string at `i`.
pub(crate) fn decode_bytes(s: &Vec<u8>, i: usize) -> (r: Option<(Vec<u8>, usize)>)
    ensures
        match r {
            Some((b, j)) => dec_bytes(s@, i as int) == Some((b@, j as int)) && j <= s@.len(),
            None => dec_bytes(s@, i as int) is None,
        },
{
    match decode_head(s, i) {
        Some((major, len, j)) => {
            if major == 2 && len <= (s.len() - j) as u64 {
                let end = j + len as usize;
                let b = copy_range(s, j, end);
                Some((b, end))
            } else {
                None
            }
        },
        None => None,
    }
}

/// Read an unsigned integer at `i`.
pub(crate) fn decode_u64(s: &Vec<u8>, i: usize) -> (r: Option<(u64, usize)>)
    ensures
        match r {
            Some((v, j)) => dec_u64(s@, i as int) == Some((v as int, j as int)) && j <= s@.len(),
            None => dec_u64(s@, i as int) is None,
        },
{
    match decode_head(s, i) {
        Some((major, v, j)) => {
            if major == 0 {
                Some((v, j))
            } else {
                None
            }
        },
        None => None,
    }
}

/// Read a literal value at `i`.
pub(crate) fn decode_value(s: &Vec<u8>, i: usize) -> (r: Option<(Value, usize)>)
    ensures
        match r {
            Some((v, j)) => dec_value(s@, i as int) == Some((v@, j as int)) && j <= s@.len(),
            None => dec_value(s@, i as int) is None,
        },
{
    match decode_head(s, i) {
        Some((major, v, j)) => {
            if major == 0 {
                Some((Value::Int(v), j))
            } else if major == 2 {
                if v <= (s.len() - j) as u64 {
                    let end = j + v as usize;
                    let b = copy_range(s, j, end);
                    Some((Value::Bytes(b), end))
                } else {
                    None
                }
            } else {
                None
            }
        },
        None => None,
    }
}

/// Read an argument at `i`.
pub(crate) fn decode_argument(s: &Vec<u8>, i: usize) -> (r: Option<(Argument, usize)>)
    ensures
        match r {
            Some((a, j)) => dec_argument(s@, i as int) == Some((a@, j as int)) && j <= s@.len(),
            None => dec_argument(s@, i as int) is None,
        },
{
    match decode_head(s, i) {
        Some((major, tag, j)) => {
            if major != 6 {
                None
            } else if tag == 0 {
                match decode_value(s, j) {
                    Some((v, k)) => Some((Argument::Literal(v), k)),
                    None => None,
                }
            } else if 1 <= tag && tag <= 3 {
                match decode_bytes(s, j) {
                    Some((task, k)) => {
                        if task.len() == 32 {
                            let selector = if tag == 1 {
                                Selector::AwaitOk
                            } else if tag == 2 {
                                Selector::AwaitErr
                            } else {
                                Selector::AwaitAny
                            };
                            match crate::cid::Cid::from_digest(task) {
                                Ok(c) => Some((Argument::Promise { task: c, selector }, k)),
                                Err(_) => None,
                            }
                        } else {
                            None
                        }
                    },
                    None => None,
                }
            } else {
                None
            }
        },
        None => None,
    }
}

/// Read `n` arguments one after another.
pub(crate) fn decode_args_items(s: &Vec<u8>, i: usize, n: u64) -> (r: Option<(Vec<Argument>, usize)>)
    ensures
        match r {
            Some((items, j)) => dec_args_items(s@, i as int, n as nat) == Some(
                (items@.map_values(|a: Argument| a@), j as int),
            ),
            None => dec_args_items(s@, i as int, n as nat) is None,
        },
    decreases n,
{
    if n == 0 {
        let out: Vec<Argument> = Vec::new();
        proof {
            assert(out@.map_values(|a: Argument| a@) =~= Seq::<ArgumentV>::empty());
        }
        Some((out, i))
    } else {
        match decode_argument(s, i) {
            Some((a, j)) => {
                match decode_args_items(s, j, n - 1) {
                    Some((rest, k)) => {
                        let mut out: Vec<Argument> = Vec::new();
                        out.push(a);
                        let mut rest = rest;
                        let ghost resta = rest@;
                        out.append(&mut rest);
                        proof {
                            assert(out@ =~= seq![a] + resta);
                            assert(out@.map_values(|x: Argument| x@) =~= seq![a@]
                                + resta.map_values(|x: Argument| x@));
                        }
                        Some((out, k))
                    },
                    None => None,
                }
            },
            None => None,
        }
    }
}

/// Read an instruction at `i`.
pub fn decode_instruction(s: &Vec<u8>, i: usize) -> (r: Option<(Instruction, usize)>)
    ensures
        match r {
            Some((ins, j)) => dec_instruction(s@, i as int) == Some((ins@, j as int)) && j
                <= s@.len(),
            None => dec_instruction(s@, i as int) is None,
        },
{
    match decode_head(s, i) {
        Some((m0, a0, i0)) => {
            if m0 != 4 || a0 != 4 {
                return None;
            }
            match decode_bytes(s, i0) {
                Some((resource, i1)) => {
                    if resource.len() != 32 {
                        return None;
                    }
                    let resource = match crate::cid::Cid::from_digest(resource) {
                        Ok(c) => c,
                        Err(_) => {
                            return None;
                        },
                    };
                    match decode_bytes(s, i1) {
                        Some((fun, i2)) => {
                            match decode_head(s, i2) {
                                Some((m1, n, i3)) => {
                                    if m1 != 4 {
                                        return None;
                                    }
                                    match decode_args_items(s, i3, n) {
                                        Some((args, i4)) => {
                                            match decode_u64(s, i4) {
                                                Some((nonce, i5)) => Some((
                                                    Instruction { resource, fun, args, nonce },
                                                    i5,
                                                )),
                                                None => None,
                                            }
                                        },
                                        None => None,
                                    }
                                },
                                None => None,
                            }
                        },
                        None => None,
                    }
                },
                None => None,
            }
        },
        None => None,
    }
}

/// Read a task at `i`.
pub(crate) fn decode_task(s: &Vec<u8>, i: usize) -> (r: Option<(Task, usize)>)
    ensures
        match r {
            Some((t, j)) => dec_task(s@, i as int) == Some((t@, j as int)) && j <= s@.len(),
            None => dec_task(s@, i as int) is None,
        },
{
    match decode_head(s, i) {
        Some((m0, a0, i0)) => {
            if m0 != 4 || a0 != 5 {
                return None;
            }
            let (run, i1) = match decode_head(s, i0) {
                Some((m1, tag, j)) => {
                    if m1 != 6 {
                        return None;
                    }
                    if tag == 0 {
                        match decode_instruction(s, j) {
                            Some((ins, k)) => (RunInstruction::Expanded(ins), k),
                            None => {
                                return None;
                            },
                        }
                    } else if tag == 1 {
                        match decode_bytes(s, j) {
                            Some((c, k)) => {
                                if c.len() != 32 {
                                    return None;
                                }
                                match crate::cid::Cid::from_digest(c) {
                                    Ok(c) => (RunInstruction::Ref(c), k),
                                    Err(_) => {
                                        return None;
                                    },
                                }
                            },
                            None => {
                                return None;
                            },
                        }
                    } else {
                        return None;
                    }
                },
                None => {
                    return None;
                },
            };
            match decode_u64(s, i1) {
                Some((fuel, i2)) => {
                    match decode_u64(s, i2) {
                        Some((memory, i3)) => {
                            match decode_u64(s, i3) {
                                Some((time_ms, i4)) => {
                                    match decode_bytes(s, i4) {
                                        Some((prf, i5)) => Some((
                                            Task {
                                                run,
                                                resources: Resources { fuel, memory, time_ms },
                                                prf,
                                            },
                                            i5,
                                        )),
                                        None => None,
                                    }
                                },
                                None => None,
                            }
                        },
                        None => None,
                    }
                },
                None => None,
            }
        },
        None => None,
    }
}

/// Read `n` tasks one after another.
pub(crate) fn decode_tasks_items(s: &Vec<u8>, i: usize, n: u64) -> (r: Option<(Vec<Task>, usize)>)
    ensures
        match r {
            Some((items, j)) => dec_tasks_items(s@, i as int, n as nat) == Some(
                (items@.map_values(|t: Task| t@), j as int),
            ),
            None => dec_tasks_items(s@, i as int, n as nat) is None,
        },
    decreases n,
{
    if n == 0 {
        let out: Vec<Task> = Vec::new();
        proof {
            assert(out@.map_values(|t: Task| t@) =~= Seq::<TaskV>::empty());
        }
        Some((out, i))
    } else {
        match decode_task(s, i) {
            Some((t, j)) => {
                match decode_tasks_items(s, j, n - 1) {
                    Some((rest, k)) => {
                        let mut out: Vec<Task> = Vec::new();
                        out.push(t);
                        let mut rest = rest;
                        let ghost resta = rest@;
                        out.append(&mut rest);
                        proof {
                            assert(out@ =~= seq![t] + resta);
                            assert(out@.map_values(|x: Task| x@) =~= seq![t@] + resta.map_values(
                                |x: Task| x@,
                            ));
                        }
                        Some((out, k))
                    },
                    None => None,
                }
            },
            None => None,
        }
    }
}

/// Read a whole task list at the start of `s`.
pub fn decode_tasks(s: &Vec<u8>) -> (r: Option<(Vec<Task>, usize)>)
    ensures
        match r {
            Some((tasks, j)) => dec_workflow(s@, 0) == Some(
                (tasks@.map_values(|t: Task| t@), j as int),
            ),
            None => dec_workflow(s@, 0) is None,
        },
{
    match decode_head(s, 0) {
        Some((major, n, j)) => {
            if major != 4 {
                return None;
            }
            decode_tasks_items(s, j, n)
        },
        None => None,
    }
}

} // verus!
