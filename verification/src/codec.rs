//! Binary persistence of the Q-table: an explicit, versioned, reproducible
//! layout, so persisted tables stay valid across runs.
//!
//! Layout: a four-byte tag, the entry count as eight little-endian bytes,
//! then per entry (keys strictly ascending): the state key as eight bytes
//! and thirteen slots of nine bytes each — a presence byte (one or zero)
//! followed by the value as eight bytes (zero when absent).

use vstd::prelude::*;
use vstd::arithmetic::div_mod::lemma_fundamental_div_mod;
use crate::trainer::{entry_wf, QEntry, QTable, COMMAND_COUNT, QVALUE_CAP};

verus! {

/// Reading the persisted table failed: the bytes are not a table this
/// version wrote.
#[derive(Clone, Copy, PartialEq, Eq, Structural, Debug)]
pub enum PersistenceError {
    Malformed,
}

/// What a table holds, abstractly: key/slots pairs in storage order.
pub open spec fn table_view(t: QTable) -> Seq<(u64, Seq<Option<i64>>)> {
    t.entries@.map_values(|p: (u64, QEntry)| (p.0, p.1.vals@))
}

/// The well-formedness of an abstract table: thirteen slots per entry,
/// values within range, keys strictly ascending.
pub open spec fn view_wf(v: Seq<(u64, Seq<Option<i64>>)>) -> bool {
    &&& forall|i: int| 0 <= i < v.len() ==> {
        &&& (#[trigger] v[i]).1.len() == COMMAND_COUNT
        &&& forall|a: int| 0 <= a < COMMAND_COUNT ==> match #[trigger] v[i].1[a] {
            Some(x) => 0 <= x <= QVALUE_CAP,
            None => true,
        }
    }
    &&& forall|i: int, j: int| 0 <= i < j < v.len()
        ==> (#[trigger] v[i]).0 < (#[trigger] v[j]).0
}

// ------------------------------------------------------ little-endian

pub open spec fn pow256(n: nat) -> nat
    decreases n,
{
    if n == 0 {
        1
    } else {
        256 * pow256((n - 1) as nat)
    }
}

/// `v` written as `n` little-endian bytes.
pub open spec fn le_bytes(v: nat, n: nat) -> Seq<u8>
    decreases n,
{
    if n == 0 {
        Seq::empty()
    } else {
        seq![(v % 256) as u8] + le_bytes(v / 256, (n - 1) as nat)
    }
}

/// The value of a little-endian byte string.
pub open spec fn from_le(s: Seq<u8>) -> nat
    decreases s.len(),
{
    if s.len() == 0 {
        0
    } else {
        (s[0] as nat) + 256 * from_le(s.drop_first())
    }
}

pub proof fn lemma_le_bytes_len(v: nat, n: nat)
    ensures
        le_bytes(v, n).len() == n,
    decreases n,
{
    if n > 0 {
        lemma_le_bytes_len(v / 256, (n - 1) as nat);
    }
}

/// Writing then reading little-endian bytes gives the value back.
pub proof fn lemma_le_roundtrip(v: nat, n: nat)
    requires
        v < pow256(n),
    ensures
        from_le(le_bytes(v, n)) == v,
    decreases n,
{
    if n > 0 {
        let s = le_bytes(v, n);
        let rest = le_bytes(v / 256, (n - 1) as nat);
        assert(s.drop_first() =~= rest);
        lemma_fundamental_div_mod(v as int, 256);
        if v / 256 >= pow256((n - 1) as nat) {
            assert(v >= 256 * pow256((n - 1) as nat)) by {
                lemma_fundamental_div_mod(v as int, 256);
            }
        }
        lemma_le_roundtrip(v / 256, (n - 1) as nat);
    }
}

// ------------------------------------------------------ spec encoder

pub open spec fn spec_magic() -> Seq<u8> {
    seq![113u8, 116u8, 98u8, 49u8]
}

pub open spec fn spec_slot_bytes(o: Option<i64>) -> Seq<u8> {
    match o {
        Some(v) => seq![1u8] + le_bytes(v as nat, 8),
        None => seq![0u8] + le_bytes(0, 8),
    }
}

pub open spec fn spec_slots_from(vals: Seq<Option<i64>>, i: int) -> Seq<u8>
    decreases vals.len() - i,
{
    if i < 0 || i >= vals.len() {
        Seq::empty()
    } else {
        spec_slot_bytes(vals[i]) + spec_slots_from(vals, i + 1)
    }
}

pub open spec fn spec_entry_bytes(key: u64, vals: Seq<Option<i64>>) -> Seq<u8> {
    le_bytes(key as nat, 8) + spec_slots_from(vals, 0)
}

pub open spec fn spec_entries_bytes(v: Seq<(u64, Seq<Option<i64>>)>, i: int) -> Seq<u8>
    decreases v.len() - i,
{
    if i < 0 || i >= v.len() {
        Seq::empty()
    } else {
        spec_entry_bytes(v[i].0, v[i].1) + spec_entries_bytes(v, i + 1)
    }
}

/// The bytes a table persists to.
pub open spec fn spec_encode(v: Seq<(u64, Seq<Option<i64>>)>) -> Seq<u8> {
    spec_magic() + le_bytes(v.len(), 8) + spec_entries_bytes(v, 0)
}

// ------------------------------------------------------ spec decoder

pub open spec fn spec_decode_slots(bytes: Seq<u8>, n: nat) -> Option<Seq<Option<i64>>>
    decreases n,
{
    if n == 0 {
        if bytes.len() == 0 {
            Some(Seq::empty())
        } else {
            None
        }
    } else if bytes.len() < 9 {
        None
    } else {
        let tag = bytes[0];
        let v = from_le(bytes.subrange(1, 9));
        match spec_decode_slots(bytes.skip(9), (n - 1) as nat) {
            None => None,
            Some(rest) => if tag == 1 && v <= QVALUE_CAP {
                Some(seq![Some(v as i64)] + rest)
            } else if tag == 0 && v == 0 {
                Some(seq![Option::<i64>::None] + rest)
            } else {
                None
            },
        }
    }
}

pub open spec fn spec_decode_entries(bytes: Seq<u8>, n: nat, lo: int) -> Option<
    Seq<(u64, Seq<Option<i64>>)>,
>
    decreases n,
{
    if n == 0 {
        if bytes.len() == 0 {
            Some(Seq::empty())
        } else {
            None
        }
    } else if bytes.len() < 125 {
        None
    } else {
        let key = from_le(bytes.subrange(0, 8));
        if key <= lo {
            None
        } else {
            match spec_decode_slots(bytes.subrange(8, 125), COMMAND_COUNT as nat) {
                None => None,
                Some(vals) => match spec_decode_entries(
                    bytes.skip(125),
                    (n - 1) as nat,
                    key as int,
                ) {
                    None => None,
                    Some(rest) => Some(seq![(key as u64, vals)] + rest),
                },
            }
        }
    }
}

/// What a byte string decodes to, if it is a persisted table.
pub open spec fn spec_decode(bytes: Seq<u8>) -> Option<Seq<(u64, Seq<Option<i64>>)>> {
    if bytes.len() < 12 {
        None
    } else if bytes.subrange(0, 4) != spec_magic() {
        None
    } else {
        spec_decode_entries(bytes.skip(12), from_le(bytes.subrange(4, 12)), -1)
    }
}

/// A successful entry decode consumes exactly 125 bytes per entry and
/// yields one view entry per encoded entry.
pub proof fn lemma_decode_entries_len(bytes: Seq<u8>, n: nat, lo: int)
    requires
        spec_decode_entries(bytes, n, lo) is Some,
    ensures
        bytes.len() == 125 * n,
        spec_decode_entries(bytes, n, lo).unwrap().len() == n,
    decreases n,
{
    if n > 0 {
        let key = from_le(bytes.subrange(0, 8));
        lemma_decode_entries_len(bytes.skip(125), (n - 1) as nat, key as int);
    }
}

} // verus!

verus! {

/// Appends `v` as eight little-endian bytes.
fn write_u64(out: &mut Vec<u8>, v: u64)
    ensures
        final(out)@ == old(out)@ + le_bytes(v as nat, 8),
{
    let ghost base = old(out)@;
    let mut x = v;
    let mut k: usize = 0;
    while k < 8
        invariant
            0 <= k <= 8,
            out@.len() == base.len() + k,
            out@.subrange(0, base.len() as int) == base,
            le_bytes(v as nat, 8) == out@.skip(base.len() as int) + le_bytes(
                x as nat,
                (8 - k) as nat,
            ),
        decreases 8 - k,
    {
        let ghost pre = out@;
        let b = (x % 256) as u8;
        out.push(b);
        proof {
            assert(out@.subrange(0, base.len() as int) =~= base);
            assert(out@.skip(base.len() as int) =~= pre.skip(base.len() as int) + seq![b]);
            assert(le_bytes(x as nat, (8 - k) as nat) == seq![b] + le_bytes(
                (x as nat) / 256,
                (7 - k) as nat,
            ));
            assert(pre.skip(base.len() as int) + (seq![b] + le_bytes(
                (x as nat) / 256,
                (7 - k) as nat,
            )) =~= out@.skip(base.len() as int) + le_bytes((x as nat) / 256, (7 - k) as nat));
        }
        x = x / 256;
        k += 1;
    }
    proof {
        assert(le_bytes(x as nat, 0) =~= Seq::<u8>::empty());
        assert(out@.skip(base.len() as int) + Seq::<u8>::empty() =~= out@.skip(
            base.len() as int,
        ));
        assert(out@ =~= base + out@.skip(base.len() as int));
    }
}

/// Reads eight little-endian bytes at `pos`.
fn read_u64(bytes: &Vec<u8>, pos: usize) -> (r: u64)
    requires
        pos + 8 <= bytes@.len(),
    ensures
        r as nat == from_le(bytes@.subrange(pos as int, pos as int + 8)),
{
    let blen = bytes.len();
    let mut v: u64 = 0;
    let mut j: usize = 8;
    while j > 0
        invariant
            blen == bytes@.len(),
            pos + 8 <= blen,
            0 <= j <= 8,
            v as nat == from_le(bytes@.subrange(pos as int + j, pos as int + 8)),
            (v as nat) < pow256((8 - j) as nat),
        decreases j,
    {
        proof {
            reveal_with_fuel(pow256, 10);
            let s = bytes@.subrange(pos as int + j - 1, pos as int + 8);
            assert(s.drop_first() =~= bytes@.subrange(pos as int + j, pos as int + 8));
            assert(s[0] == bytes@[pos as int + j - 1]);
            assert(pow256((8 - j) as nat) <= pow256(7)) by {
                if j >= 2 {
                    assert forall|m: nat, n: nat| m <= n implies pow256(m) <= pow256(n) by {
                        lemma_pow256_increases(m, n);
                    }
                }
            }
            assert(pow256(7) == 0x100000000000000) by {
                reveal_with_fuel(pow256, 10);
            }
        }
        v = v * 256 + (bytes[pos + j - 1] as u64);
        j -= 1;
    }
    proof {
        assert(bytes@.subrange(pos as int, pos as int + 8) == bytes@.subrange(
            pos as int + 0,
            pos as int + 8,
        ));
    }
    v
}

proof fn lemma_pow256_increases(m: nat, n: nat)
    requires
        m <= n,
    ensures
        pow256(m) <= pow256(n),
    decreases n,
{
    if m < n {
        lemma_pow256_increases(m, (n - 1) as nat);
        assert(pow256(n) == 256 * pow256((n - 1) as nat));
        assert(pow256((n - 1) as nat) >= 1) by {
            lemma_pow256_pos((n - 1) as nat);
        }
    }
}

proof fn lemma_pow256_pos(n: nat)
    ensures
        pow256(n) >= 1,
    decreases n,
{
    if n > 0 {
        lemma_pow256_pos((n - 1) as nat);
    }
}

/// Persists the table: the exact byte image of [`spec_encode`].
pub fn encode(t: &QTable) -> (out: Vec<u8>)
    requires
        t.wf(),
    ensures
        out@ == spec_encode(table_view(*t)),
        view_wf(table_view(*t)),
{
    let ghost v = table_view(*t);
    proof {
        assert forall|i: int| 0 <= i < v.len() implies {
            &&& (#[trigger] v[i]).1.len() == COMMAND_COUNT
            &&& forall|a: int| 0 <= a < COMMAND_COUNT ==> match #[trigger] v[i].1[a] {
                Some(x) => 0 <= x <= QVALUE_CAP,
                None => true,
            }
        } by {
            assert(v[i] == (t.entries@[i].0, t.entries@[i].1.vals@));
            assert(entry_wf(t.entries@[i].1));
        }
        assert forall|i: int, j: int| 0 <= i < j < v.len() implies (#[trigger] v[i]).0 < (
        #[trigger] v[j]).0 by {
            assert(v[i] == (t.entries@[i].0, t.entries@[i].1.vals@));
            assert(v[j] == (t.entries@[j].0, t.entries@[j].1.vals@));
        }
    }
    let mut out: Vec<u8> = Vec::new();
    out.push(113);
    out.push(116);
    out.push(98);
    out.push(49);
    proof {
        assert(out@ =~= spec_magic());
    }
    let n = t.entries.len();
    write_u64(&mut out, n as u64);
    let ghost header = spec_magic() + le_bytes(n as nat, 8);
    proof {
        assert(out@ == header);
        assert(v.len() == n);
        assert(out@ + spec_entries_bytes(v, n as int) =~= header + spec_entries_bytes(
            v,
            n as int,
        ));
    }
    let mut i: usize = 0;
    while i < n
        invariant
            t.wf(),
            n == t.entries@.len(),
            v == table_view(*t),
            v.len() == n,
            0 <= i <= n,
            out@ + spec_entries_bytes(v, i as int) == header + spec_entries_bytes(v, 0int),
        decreases n - i,
    {
        let ghost pre = out@;
        let key = t.entries[i].0;
        write_u64(&mut out, key);
        let e = &t.entries[i].1;
        let mut j: usize = 0;
        while j < COMMAND_COUNT
            invariant
                t.wf(),
                (i as int) < t.entries@.len(),
                e == &t.entries@[i as int].1,
                e.vals@.len() == COMMAND_COUNT,
                key == t.entries@[i as int].0,
                0 <= j <= COMMAND_COUNT,
                out@ + spec_slots_from(e.vals@, j as int) == pre + le_bytes(key as nat, 8)
                    + spec_slots_from(e.vals@, 0int),
            decreases COMMAND_COUNT - j,
        {
            let ghost mid = out@;
            match e.vals[j] {
                Some(val) => {
                    proof {
                        assert(entry_wf(t.entries@[i as int].1));
                        assert(e.vals@[j as int] matches Some(x) ==> 0 <= x <= QVALUE_CAP);
                    }
                    out.push(1);
                    write_u64(&mut out, val as u64);
                    proof {
                        assert((val as u64) as nat == val as nat);
                        assert(out@ =~= mid + spec_slot_bytes(e.vals@[j as int]));
                    }
                },
                None => {
                    out.push(0);
                    write_u64(&mut out, 0);
                    proof {
                        assert(out@ =~= mid + spec_slot_bytes(e.vals@[j as int]));
                    }
                },
            }
            proof {
                assert(spec_slots_from(e.vals@, j as int) == spec_slot_bytes(
                    e.vals@[j as int],
                ) + spec_slots_from(e.vals@, j + 1));
                assert(out@ + spec_slots_from(e.vals@, j + 1) =~= mid + spec_slots_from(
                    e.vals@,
                    j as int,
                ));
            }
            j += 1;
        }
        proof {
            assert(spec_slots_from(e.vals@, COMMAND_COUNT as int) =~= Seq::<u8>::empty());
            assert(out@ =~= out@ + Seq::<u8>::empty());
            assert(v[i as int] == (t.entries@[i as int].0, t.entries@[i as int].1.vals@));
            assert(out@ =~= pre + spec_entry_bytes(v[i as int].0, v[i as int].1));
            assert(spec_entries_bytes(v, i as int) == spec_entry_bytes(
                v[i as int].0,
                v[i as int].1,
            ) + spec_entries_bytes(v, i + 1));
            assert(out@ + spec_entries_bytes(v, i + 1) =~= pre + spec_entries_bytes(
                v,
                i as int,
            ));
        }
        i += 1;
    }
    proof {
        assert(spec_entries_bytes(v, n as int) =~= Seq::<u8>::empty());
        assert(out@ =~= out@ + Seq::<u8>::empty());
        assert(out@ =~= spec_encode(v));
    }
    out
}

} // verus!

verus! {

/// Reads a persisted table back. `Ok` exactly on the byte strings this
/// version's encoder can produce, each yielding its unique table.
pub fn decode(bytes: &Vec<u8>) -> (r: Result<QTable, PersistenceError>)
    ensures
        match r {
            Ok(t) => t.wf() && spec_decode(bytes@) == Some(table_view(t)),
            Err(_) => spec_decode(bytes@) is None,
        },
{
    let len = bytes.len();
    if len < 12 {
        return Err(PersistenceError::Malformed);
    }
    if !(bytes[0] == 113 && bytes[1] == 116 && bytes[2] == 98 && bytes[3] == 49) {
        proof {
            assert(bytes@.subrange(0, 4) != spec_magic()) by {
                if bytes@.subrange(0, 4) == spec_magic() {
                    assert(bytes@[0] == bytes@.subrange(0, 4)[0]);
                    assert(bytes@[1] == bytes@.subrange(0, 4)[1]);
                    assert(bytes@[2] == bytes@.subrange(0, 4)[2]);
                    assert(bytes@[3] == bytes@.subrange(0, 4)[3]);
                }
            }
        }
        return Err(PersistenceError::Malformed);
    }
    proof {
        assert(bytes@.subrange(0, 4) =~= spec_magic());
    }
    let cnt64 = read_u64(bytes, 4);
    let ghost count = from_le(bytes@.subrange(4, 12));
    let body = len - 12;
    if cnt64 > (body as u64) / 125 || cnt64 * 125 != body as u64 {
        proof {
            if spec_decode_entries(bytes@.skip(12), count, -1) is Some {
                lemma_decode_entries_len(bytes@.skip(12), count, -1);
            }
        }
        return Err(PersistenceError::Malformed);
    }
    let n = cnt64 as usize;
    proof {
        assert(n == count);
        assert(125 * count == body);
    }
    let mut entries: Vec<(u64, QEntry)> = Vec::new();
    let mut i: usize = 0;
    while i < n
        invariant
            len == bytes@.len(),
            12 <= len,
            bytes@.subrange(0, 4) == spec_magic(),
            count == from_le(bytes@.subrange(4, 12)),
            body == len - 12,
            n == count,
            125 * count == body,
            0 <= i <= n,
            entries@.len() == i,
            forall|a: int, b: int| 0 <= a < b < i ==> (#[trigger] entries@[a]).0 < (
            #[trigger] entries@[b]).0,
            forall|a: int| 0 <= a < i ==> entry_wf((#[trigger] entries@[a]).1),
            ({
                let lo: int = if i == 0 {
                    -1
                } else {
                    entries@[i - 1].0 as int
                };
                spec_decode_entries(bytes@.skip(12), count, -1) == (
                match spec_decode_entries(
                    bytes@.skip(12 + 125 * i),
                    (count - i) as nat,
                    lo,
                ) {
                    Some(rest) => Some(
                        entries@.map_values(|p: (u64, QEntry)| (p.0, p.1.vals@)) + rest,
                    ),
                    None => None::<Seq<(u64, Seq<Option<i64>>)>>,
                })
            }),
        decreases n - i,
    {
        let ghost lo: int = if i == 0 {
            -1
        } else {
            entries@[i - 1].0 as int
        };
        let ghost tail = bytes@.skip(12 + 125 * i);
        proof {
            assert(tail.len() == 125 * (count - i)) by {
                assert(bytes@.len() - (12 + 125 * i) == 125 * count - 125 * i);
            }
            assert(tail.len() >= 125);
        }
        let pos = 12 + i * 125;
        let key = read_u64(bytes, pos);
        proof {
            assert(tail.subrange(0, 8) =~= bytes@.subrange(pos as int, pos as int + 8));
            assert(key as nat == from_le(tail.subrange(0, 8)));
        }
        if i > 0 && entries[i - 1].0 >= key {
            proof {
                assert(key as int <= lo);
                assert(spec_decode_entries(tail, (count - i) as nat, lo) is None);
            }
            return Err(PersistenceError::Malformed);
        }
        let mut vals: Vec<Option<i64>> = Vec::new();
        let ghost slotbytes = tail.subrange(8, 125);
        proof {
            assert(slotbytes.skip(0) =~= slotbytes);
        }
        let mut j: usize = 0;
        while j < COMMAND_COUNT
            invariant
                len == bytes@.len(),
                12 <= len,
                bytes@.subrange(0, 4) == spec_magic(),
                count == from_le(bytes@.subrange(4, 12)),
                body == len - 12,
                n == count,
                125 * count == body,
                0 <= i < n,
                entries@.len() == i,
                lo == (if i == 0 {
                    -1int
                } else {
                    entries@[i - 1].0 as int
                }),
                spec_decode_entries(bytes@.skip(12), count, -1) == (
                match spec_decode_entries(
                    bytes@.skip(12 + 125 * i),
                    (count - i) as nat,
                    lo,
                ) {
                    Some(rest) => Some(
                        entries@.map_values(|p: (u64, QEntry)| (p.0, p.1.vals@)) + rest,
                    ),
                    None => None::<Seq<(u64, Seq<Option<i64>>)>>,
                }),
                key as nat == from_le(tail.subrange(0, 8)),
                lo < key as int,
                pos == 12 + i * 125,
                tail == bytes@.skip(12 + 125 * i),
                tail.len() == 125 * (count - i),
                slotbytes == tail.subrange(8, 125),
                0 <= j <= COMMAND_COUNT,
                vals@.len() == j,
                forall|a: int| 0 <= a < j ==> match #[trigger] vals@[a] {
                    Some(x) => 0 <= x <= QVALUE_CAP,
                    None => true,
                },
                ({
                    spec_decode_slots(slotbytes, COMMAND_COUNT as nat) == (
                    match spec_decode_slots(
                        slotbytes.skip(9 * j),
                        (COMMAND_COUNT - j) as nat,
                    ) {
                        Some(rest) => Some(vals@ + rest),
                        None => None::<Seq<Option<i64>>>,
                    })
                }),
            decreases COMMAND_COUNT - j,
        {
            let spos = pos + 8 + j * 9;
            let ghost srest = slotbytes.skip(9 * j);
            proof {
                assert(srest.len() == 117 - 9 * j);
                assert(srest[0] == bytes@[spos as int]);
                assert(srest.subrange(1, 9) =~= bytes@.subrange(
                    spos as int + 1,
                    spos as int + 9,
                ));
                assert(srest.skip(9) =~= slotbytes.skip(9 * (j + 1)));
            }
            let tag = bytes[spos];
            let v64 = read_u64(bytes, spos + 1);
            if tag == 1 && v64 <= QVALUE_CAP as u64 {
                vals.push(Some(v64 as i64));
                proof {
                    assert(vals@ =~= vals@.subrange(0, j as int).push(Some(v64 as i64)));
                    assert((v64 as i64) as nat == v64 as nat);
                    if spec_decode_slots(srest.skip(9), (COMMAND_COUNT - j - 1) as nat)
                        is Some {
                        let rest = spec_decode_slots(
                            srest.skip(9),
                            (COMMAND_COUNT - j - 1) as nat,
                        ).unwrap();
                        assert(vals@ + rest =~= vals@.subrange(0, j as int) + (seq![
                            Some(v64 as i64),
                        ] + rest));
                    }
                }
            } else if tag == 0 && v64 == 0 {
                vals.push(None);
                proof {
                    if spec_decode_slots(srest.skip(9), (COMMAND_COUNT - j - 1) as nat)
                        is Some {
                        let rest = spec_decode_slots(
                            srest.skip(9),
                            (COMMAND_COUNT - j - 1) as nat,
                        ).unwrap();
                        assert(vals@ + rest =~= vals@.subrange(0, j as int) + (seq![
                            Option::<i64>::None,
                        ] + rest));
                    }
                }
            } else {
                proof {
                    assert(spec_decode_slots(srest, (COMMAND_COUNT - j) as nat) is None);
                    assert(spec_decode_slots(slotbytes, COMMAND_COUNT as nat) is None);
                    assert(spec_decode_entries(tail, (count - i) as nat, lo) is None);
                }
                return Err(PersistenceError::Malformed);
            }
            j += 1;
        }
        proof {
            assert(slotbytes.skip(9 * COMMAND_COUNT).len() == 0);
            assert(spec_decode_slots(
                slotbytes.skip(9 * COMMAND_COUNT),
                0nat,
            ) == Some(Seq::<Option<i64>>::empty()));
            assert(vals@ + Seq::<Option<i64>>::empty() =~= vals@);
            assert(spec_decode_slots(slotbytes, COMMAND_COUNT as nat) == Some(vals@));
        }
        let ghost pre_entries = entries@;
        entries.push((key, QEntry { vals }));
        proof {
            assert(spec_decode_entries(tail, (count - i) as nat, lo) == (
            match spec_decode_entries(tail.skip(125), (count - i - 1) as nat, key as int) {
                Some(rest) => Some(seq![(key, vals@)] + rest),
                None => None::<Seq<(u64, Seq<Option<i64>>)>>,
            })) by {
                assert(key as nat > lo ==> true);
            }
            assert(tail.skip(125) =~= bytes@.skip(12 + 125 * (i + 1)));
            let newview = entries@.map_values(|p: (u64, QEntry)| (p.0, p.1.vals@));
            let preview = pre_entries.map_values(|p: (u64, QEntry)| (p.0, p.1.vals@));
            assert(newview =~= preview + seq![(key, vals@)]);
            if spec_decode_entries(
                bytes@.skip(12 + 125 * (i + 1)),
                (count - i - 1) as nat,
                key as int,
            ) is Some {
                let rest = spec_decode_entries(
                    bytes@.skip(12 + 125 * (i + 1)),
                    (count - i - 1) as nat,
                    key as int,
                ).unwrap();
                assert(preview + (seq![(key, vals@)] + rest) =~= newview + rest);
            }
        }
        i += 1;
    }
    proof {
        assert(bytes@.skip(12 + 125 * (n as int)).len() == 0);
        assert(spec_decode_entries(bytes@.skip(12 + 125 * (n as int)), 0nat, ({
            if n == 0 {
                -1int
            } else {
                entries@[n - 1].0 as int
            }
        })) == Some(Seq::<(u64, Seq<Option<i64>>)>::empty()));
        let view = entries@.map_values(|p: (u64, QEntry)| (p.0, p.1.vals@));
        assert(view + Seq::<(u64, Seq<Option<i64>>)>::empty() =~= view);
        assert(spec_decode_entries(bytes@.skip(12), count, -1) == Some(view));
    }
    let t = QTable { entries };
    proof {
        assert(t.wf());
    }
    Ok(t)
}

} // verus!

verus! {

proof fn lemma_slot_bytes_len(o: Option<i64>)
    ensures
        spec_slot_bytes(o).len() == 9,
{
    match o {
        Some(v) => {
            lemma_le_bytes_len(v as nat, 8);
        },
        None => {
            lemma_le_bytes_len(0, 8);
        },
    }
}

proof fn lemma_slots_from_len(vals: Seq<Option<i64>>, i: int)
    requires
        0 <= i <= vals.len(),
    ensures
        spec_slots_from(vals, i).len() == 9 * (vals.len() - i),
    decreases vals.len() - i,
{
    if i < vals.len() {
        lemma_slot_bytes_len(vals[i]);
        lemma_slots_from_len(vals, i + 1);
    }
}

proof fn lemma_entries_bytes_len(v: Seq<(u64, Seq<Option<i64>>)>, i: int)
    requires
        0 <= i <= v.len(),
        forall|k: int| 0 <= k < v.len() ==> (#[trigger] v[k]).1.len() == COMMAND_COUNT,
    ensures
        spec_entries_bytes(v, i).len() == 125 * (v.len() - i),
    decreases v.len() - i,
{
    if i < v.len() {
        lemma_le_bytes_len(v[i].0 as nat, 8);
        lemma_slots_from_len(v[i].1, 0);
        lemma_entries_bytes_len(v, i + 1);
    }
}

/// Decoding the slot bytes of a well-formed row gives the row back.
proof fn lemma_slots_roundtrip(vals: Seq<Option<i64>>, i: int)
    requires
        0 <= i <= vals.len(),
        vals.len() == COMMAND_COUNT,
        forall|a: int| 0 <= a < vals.len() ==> match #[trigger] vals[a] {
            Some(x) => 0 <= x <= QVALUE_CAP,
            None => true,
        },
    ensures
        spec_decode_slots(spec_slots_from(vals, i), (vals.len() - i) as nat) == Some(
            vals.skip(i),
        ),
    decreases vals.len() - i,
{
    reveal_with_fuel(pow256, 10);
    let bytes = spec_slots_from(vals, i);
    if i == vals.len() {
        assert(bytes =~= Seq::<u8>::empty());
        assert(vals.skip(i) =~= Seq::<Option<i64>>::empty());
    } else {
        let slot = spec_slot_bytes(vals[i]);
        let rest = spec_slots_from(vals, i + 1);
        lemma_slot_bytes_len(vals[i]);
        lemma_slots_from_len(vals, i + 1);
        assert(bytes.len() == 9 + rest.len());
        assert(bytes.skip(9) =~= rest);
        lemma_slots_roundtrip(vals, i + 1);
        match vals[i] {
            Some(x) => {
                lemma_le_bytes_len(x as nat, 8);
                assert(bytes[0] == 1u8);
                assert(bytes.subrange(1, 9) =~= le_bytes(x as nat, 8));
                lemma_le_roundtrip(x as nat, 8);
                assert(from_le(bytes.subrange(1, 9)) == x as nat);
                assert(seq![Some(x)] + vals.skip(i + 1) =~= vals.skip(i));
            },
            None => {
                lemma_le_bytes_len(0, 8);
                assert(bytes[0] == 0u8);
                assert(bytes.subrange(1, 9) =~= le_bytes(0, 8));
                lemma_le_roundtrip(0, 8);
                assert(from_le(bytes.subrange(1, 9)) == 0);
                assert(seq![Option::<i64>::None] + vals.skip(i + 1) =~= vals.skip(i));
            },
        }
    }
}

/// Decoding the entry bytes of a well-formed view gives the view back.
proof fn lemma_entries_roundtrip(v: Seq<(u64, Seq<Option<i64>>)>, i: int, lo: int)
    requires
        0 <= i <= v.len(),
        view_wf(v),
        forall|k: int| i <= k < v.len() ==> lo < (#[trigger] v[k]).0 as int,
    ensures
        spec_decode_entries(spec_entries_bytes(v, i), (v.len() - i) as nat, lo) == Some(
            v.skip(i),
        ),
    decreases v.len() - i,
{
    reveal_with_fuel(pow256, 10);
    let bytes = spec_entries_bytes(v, i);
    if i == v.len() {
        assert(bytes =~= Seq::<u8>::empty());
        assert(v.skip(i) =~= Seq::<(u64, Seq<Option<i64>>)>::empty());
    } else {
        let key = v[i].0;
        let vals = v[i].1;
        let rest = spec_entries_bytes(v, i + 1);
        lemma_le_bytes_len(key as nat, 8);
        lemma_slots_from_len(vals, 0);
        lemma_entries_bytes_len(v, i + 1);
        assert(bytes.len() == 125 + rest.len());
        assert(bytes.subrange(0, 8) =~= le_bytes(key as nat, 8));
        lemma_le_roundtrip(key as nat, 8);
        assert(from_le(bytes.subrange(0, 8)) == key as nat);
        assert(bytes.subrange(8, 125) =~= spec_slots_from(vals, 0));
        lemma_slots_roundtrip(vals, 0);
        assert(vals.skip(0) =~= vals);
        assert(bytes.skip(125) =~= rest);
        assert forall|k: int| i + 1 <= k < v.len() implies (key as int) < (
        #[trigger] v[k]).0 as int by {}
        lemma_entries_roundtrip(v, i + 1, key as int);
        assert(seq![(key, vals)] + v.skip(i + 1) =~= v.skip(i));
    }
}

/// Persisting then reloading reproduces the table: decoding what a
/// well-formed table encodes to yields exactly that table's action-value
/// mapping, entry for entry and slot for slot.
pub proof fn lemma_codec_roundtrip(v: Seq<(u64, Seq<Option<i64>>)>)
    requires
        view_wf(v),
        v.len() < pow256(8),
    ensures
        spec_decode(spec_encode(v)) == Some(v),
{
    reveal_with_fuel(pow256, 10);
    let bytes = spec_encode(v);
    lemma_le_bytes_len(v.len(), 8);
    lemma_entries_bytes_len(v, 0);
    assert(bytes.len() == 12 + 125 * v.len());
    assert(bytes.subrange(0, 4) =~= spec_magic());
    assert(bytes.subrange(4, 12) =~= le_bytes(v.len(), 8));
    lemma_le_roundtrip(v.len(), 8);
    assert(from_le(bytes.subrange(4, 12)) == v.len());
    assert(bytes.skip(12) =~= spec_entries_bytes(v, 0));
    assert forall|k: int| 0 <= k < v.len() implies -1 < (#[trigger] v[k]).0 as int by {}
    lemma_entries_roundtrip(v, 0, -1);
    assert(v.skip(0) =~= v);
}

} // verus!
