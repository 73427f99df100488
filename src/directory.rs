use vstd::prelude::*;

use crate::error::ParseError;
use crate::tile_id::TileId;
use crate::varint::{decode_varint, varint_decode};

verus! {

/// One directory entry: `run_length` consecutive tile ids from `id` on share the
/// bytes at `offset` (relative to the tile-data region) of length `length`.
#[derive(Debug, Clone, Copy, PartialEq, Eq, Structural)]
pub struct TileEntry {
    pub id: u64,
    pub offset: u64,
    pub length: u64,
    pub run_length: u64,
}

/// A decoded directory, ascending by tile id.
pub struct TileEntries {
    pub entries: Vec<TileEntry>,
}

/// Whether `e` covers tile `id`: `id` lies in `[e.id, e.id + e.run_length)`.
pub open spec fn covers(e: TileEntry, id: u64) -> bool {
    e.id <= id && id < e.id + e.run_length
}

/// Reads `n` varints one after another from the start of `s`: their values and
/// the number of bytes they span, or the first failure.
pub open spec fn varint_column(s: Seq<u8>, n: nat) -> Result<(Seq<u64>, nat), ParseError>
    decreases n,
{
    if n == 0 {
        Ok((Seq::empty(), 0))
    } else {
        match varint_column(s, (n - 1) as nat) {
            Err(e) => Err(e),
            Ok((vs, k)) => match varint_decode(s.skip(k as int)) {
                Err(e) => Err(e),
                Ok((v, k2)) => Ok((vs.push(v), k + k2)),
            },
        }
    }
}

/// Sum of the first `n` deltas: the id of entry `n - 1`.
pub open spec fn delta_sum(d: Seq<u64>, n: nat) -> int
    decreases n,
{
    if n == 0 {
        0
    } else {
        delta_sum(d, (n - 1) as nat) + d[n - 1]
    }
}

/// Offset of entry `i`: an offset code of 0 after the first entry continues the
/// previous entry's bytes; any other code (and every code of the first entry)
/// is the offset plus one.
pub open spec fn resolved_offset(codes: Seq<u64>, lengths: Seq<u64>, i: nat) -> int
    decreases i,
{
    if i == 0 || codes[i as int] != 0 {
        codes[i as int] - 1
    } else {
        resolved_offset(codes, lengths, (i - 1) as nat) + lengths[i - 1]
    }
}

/// Whether every offset of the first `n` entries fits in 64 bits.
pub open spec fn offsets_fit(codes: Seq<u64>, lengths: Seq<u64>, n: nat) -> bool {
    forall|i: nat| i < n ==> 0 <= #[trigger] resolved_offset(codes, lengths, i) <= u64::MAX
}

/// The entries that the four columns describe.
pub open spec fn entries_of(
    n: nat,
    deltas: Seq<u64>,
    runs: Seq<u64>,
    lengths: Seq<u64>,
    codes: Seq<u64>,
) -> Seq<TileEntry> {
    Seq::new(
        n,
        |i: int|
            TileEntry {
                id: delta_sum(deltas, (i + 1) as nat) as u64,
                offset: resolved_offset(codes, lengths, i as nat) as u64,
                length: lengths[i],
                run_length: runs[i],
            },
    )
}

/// Outcome of decoding a directory from the decompressed bytes `s`: an entry
/// count, then the id deltas, run lengths, lengths and offset codes, one column
/// after the other. Each column is checked as soon as it has been read.
pub open spec fn directory_spec(s: Seq<u8>) -> Result<Seq<TileEntry>, ParseError> {
    match varint_decode(s) {
        Err(e) => Err(e),
        Ok((n, p0)) => match varint_column(s.skip(p0 as int), n as nat) {
            Err(e) => Err(e),
            Ok((deltas, p1)) => if !deltas_valid(deltas, n as nat) {
                Err(ParseError::InvalidValue)
            } else {
                match varint_column(s.skip((p0 + p1) as int), n as nat) {
                    Err(e) => Err(e),
                    Ok((runs, p2)) => if exists|i: int| 0 <= i < n && runs[i] == 0 {
                        Err(ParseError::LeafDirectoryUnsupported)
                    } else {
                        match varint_column(s.skip((p0 + p1 + p2) as int), n as nat) {
                            Err(e) => Err(e),
                            Ok((lengths, p3)) => match varint_column(
                                s.skip((p0 + p1 + p2 + p3) as int),
                                n as nat,
                            ) {
                                Err(e) => Err(e),
                                Ok((codes, _)) => if !offsets_fit(codes, lengths, n as nat) {
                                    Err(ParseError::InvalidValue)
                                } else {
                                    Ok(entries_of(n as nat, deltas, runs, lengths, codes))
                                },
                            },
                        }
                    },
                }
            },
        },
    }
}

/// The offset codes of the directory in `s` (its fifth column), where the columns
/// can be read.
pub open spec fn directory_offset_codes(s: Seq<u8>) -> Seq<u64> {
    match varint_decode(s) {
        Ok((n, p0)) => match varint_column(s.skip(p0 as int), n as nat) {
            Ok((_, p1)) => match varint_column(s.skip((p0 + p1) as int), n as nat) {
                Ok((_, p2)) => match varint_column(s.skip((p0 + p1 + p2) as int), n as nat) {
                    Ok((_, p3)) => match varint_column(
                        s.skip((p0 + p1 + p2 + p3) as int),
                        n as nat,
                    ) {
                        Ok((codes, _)) => codes,
                        Err(_) => Seq::empty(),
                    },
                    Err(_) => Seq::empty(),
                },
                Err(_) => Seq::empty(),
            },
            Err(_) => Seq::empty(),
        },
        Err(_) => Seq::empty(),
    }
}

/// Whether `r` is what decoding the directory bytes `s` gives.
pub open spec fn decodes_to(s: Seq<u8>, r: Result<TileEntries, ParseError>) -> bool {
    match directory_spec(s) {
        Ok(es) => r is Ok && r->Ok_0.entries@ == es,
        Err(e) => r is Err && r->Err_0 == e,
    }
}

proof fn lemma_column_err_persists(s: Seq<u8>, m: nat, n: nat)
    requires
        m <= n,
        varint_column(s, m) is Err,
    ensures
        varint_column(s, n) == varint_column(s, m),
    decreases n - m,
{
    if m < n {
        lemma_column_err_persists(s, m, (n - 1) as nat);
    }
}

/// Reads `n` varints one after another from `pos` on.
fn read_column(data: &[u8], pos: usize, n: u64) -> (r: Result<(Vec<u64>, usize), ParseError>)
    requires
        pos <= data@.len(),
    ensures
        match varint_column(data@.skip(pos as int), n as nat) {
            Ok((vs, k)) => r is Ok && r->Ok_0.0@ == vs && r->Ok_0.1 == pos + k && pos + k
                <= data@.len(),
            Err(e) => r is Err && r->Err_0 == e,
        },
{
    let ghost s = data@.skip(pos as int);
    let mut out: Vec<u64> = Vec::new();
    let mut cur: usize = pos;
    let mut i: u64 = 0;
    while i < n
        invariant
            i <= n,
            pos <= cur <= data@.len(),
            s == data@.skip(pos as int),
            varint_column(s, i as nat) == Ok::<(Seq<u64>, nat), ParseError>(
                (out@, (cur - pos) as nat),
            ),
        decreases n - i,
    {
        assert(s.skip(cur - pos) =~= data@.skip(cur as int));
        match decode_varint(data, cur) {
            Ok((v, next)) => {
                out.push(v);
                cur = next;
            },
            Err(e) => {
                proof {
                    lemma_column_err_persists(s, i as nat + 1, n as nat);
                }
                return Err(e);
            },
        }
        i = i + 1;
    }
    Ok((out, cur))
}

/// Whether the id deltas give strictly ascending ids that fit in 64 bits: every
/// delta after the first is non-zero and their sum fits.
pub open spec fn deltas_valid(d: Seq<u64>, n: nat) -> bool {
    (forall|i: int| 0 < i < n ==> d[i] > 0) && delta_sum(d, n) <= u64::MAX
}

/// Turns id deltas into absolute ids; fails with `InvalidValue` where a delta
/// after the first is 0 or an id would not fit in 64 bits.
fn accumulate_ids(deltas: &Vec<u64>) -> (r: Result<Vec<u64>, ParseError>)
    ensures
        !deltas_valid(deltas@, deltas@.len()) ==> r == Err::<Vec<u64>, ParseError>(
            ParseError::InvalidValue,
        ),
        deltas_valid(deltas@, deltas@.len()) ==> r is Ok && r->Ok_0@.len() == deltas@.len()
            && forall|i: int|
            0 <= i < deltas@.len() ==> r->Ok_0@[i] == delta_sum(deltas@, (i + 1) as nat),
{
    let mut ids: Vec<u64> = Vec::new();
    let mut last: u64 = 0;
    let mut i: usize = 0;
    while i < deltas.len()
        invariant
            i <= deltas@.len(),
            last == delta_sum(deltas@, i as nat),
            ids@.len() == i,
            forall|j: int| 0 < j < i ==> deltas@[j] > 0,
            forall|j: int| 0 <= j < i ==> ids@[j] == delta_sum(deltas@, (j + 1) as nat),
        decreases deltas@.len() - i,
    {
        if i > 0 && deltas[i] == 0 {
            return Err(ParseError::InvalidValue);
        }
        if deltas[i] > u64::MAX - last {
            proof {
                lemma_delta_sum_monotonic(deltas@, i as nat + 1, deltas@.len());
            }
            return Err(ParseError::InvalidValue);
        }
        last = last + deltas[i];
        ids.push(last);
        i = i + 1;
    }
    Ok(ids)
}

proof fn lemma_delta_sum_monotonic(d: Seq<u64>, a: nat, b: nat)
    requires
        a <= b,
    ensures
        delta_sum(d, a) <= delta_sum(d, b),
    decreases b - a,
{
    if a < b {
        lemma_delta_sum_monotonic(d, a, (b - 1) as nat);
    }
}

/// Resolves offset codes into offsets: a code of 0 after the first entry means
/// the entry's bytes follow the previous entry's; any other code is the offset
/// plus one. Fails with `InvalidValue` where an offset is negative or does not
/// fit in 64 bits.
pub fn resolve_offsets(codes: &Vec<u64>, lengths: &Vec<u64>) -> (r: Result<Vec<u64>, ParseError>)
    requires
        lengths@.len() == codes@.len(),
    ensures
        !offsets_fit(codes@, lengths@, codes@.len()) ==> r == Err::<Vec<u64>, ParseError>(
            ParseError::InvalidValue,
        ),
        offsets_fit(codes@, lengths@, codes@.len()) ==> r is Ok && r->Ok_0@.len() == codes@.len()
            && forall|i: int|
            0 <= i < codes@.len() ==> r->Ok_0@[i] == resolved_offset(codes@, lengths@, i as nat),
{
    let mut offsets: Vec<u64> = Vec::new();
    let mut i: usize = 0;
    while i < codes.len()
        invariant
            i <= codes@.len() == lengths@.len(),
            offsets@.len() == i,
            forall|j: int| 0 <= j < i ==> offsets@[j] == resolved_offset(codes@, lengths@, j as nat),
        decreases codes@.len() - i,
    {
        let code = codes[i];
        let offset: u64;
        if code == 0 && i > 0 {
            let prev = offsets[i - 1];
            if lengths[i - 1] > u64::MAX - prev {
                proof {
                    assert(resolved_offset(codes@, lengths@, i as nat) > u64::MAX);
                }
                return Err(ParseError::InvalidValue);
            }
            offset = prev + lengths[i - 1];
        } else {
            if code == 0 {
                proof {
                    assert(resolved_offset(codes@, lengths@, i as nat) < 0);
                }
                return Err(ParseError::InvalidValue);
            }
            offset = code - 1;
        }
        offsets.push(offset);
        i = i + 1;
    }
    proof {
        assert forall|j: nat| j < codes@.len() implies 0 <= #[trigger] resolved_offset(
            codes@,
            lengths@,
            j,
        ) <= u64::MAX by {
            assert(offsets@[j as int] == resolved_offset(codes@, lengths@, j));
        }
    }
    Ok(offsets)
}

proof fn lemma_column_len(s: Seq<u8>, n: nat)
    requires
        varint_column(s, n) is Ok,
    ensures
        varint_column(s, n)->Ok_0.0.len() == n,
    decreases n,
{
    if n > 0 {
        lemma_column_len(s, (n - 1) as nat);
    }
}

proof fn lemma_ids_ascending(d: Seq<u64>, n: nat)
    requires
        deltas_valid(d, n),
    ensures
        forall|a: nat, b: nat|
            a <= b <= n ==> 0 <= #[trigger] delta_sum(d, a) <= #[trigger] delta_sum(d, b)
                <= u64::MAX,
        forall|a: nat, b: nat| 1 <= a < b <= n ==> #[trigger] delta_sum(d, a) < #[trigger] delta_sum(d, b),
{
    assert forall|a: nat, b: nat| a <= b <= n implies 0 <= #[trigger] delta_sum(d, a)
        <= #[trigger] delta_sum(d, b) <= u64::MAX by {
        lemma_delta_sum_monotonic(d, 0, a);
        lemma_delta_sum_monotonic(d, a, b);
        lemma_delta_sum_monotonic(d, b, n);
    }
    assert forall|a: nat, b: nat| 1 <= a < b <= n implies #[trigger] delta_sum(d, a)
        < #[trigger] delta_sum(d, b) by {
        lemma_delta_sum_monotonic(d, a + 1, b);
        assert(delta_sum(d, a + 1) == delta_sum(d, a) + d[a as int]);
    }
}

/// The entries that valid columns describe ascend strictly by id.
proof fn lemma_entries_strict(
    n: nat,
    deltas: Seq<u64>,
    runs: Seq<u64>,
    lengths: Seq<u64>,
    codes: Seq<u64>,
)
    requires
        deltas_valid(deltas, n),
    ensures
        forall|i: int, j: int|
            0 <= i < j < n ==> entries_of(n, deltas, runs, lengths, codes)[i].id < entries_of(
                n,
                deltas,
                runs,
                lengths,
                codes,
            )[j].id,
{
    let es = entries_of(n, deltas, runs, lengths, codes);
    lemma_ids_ascending(deltas, n);
    assert forall|i: int, j: int| 0 <= i < j < n implies es[i].id < es[j].id by {
        assert(delta_sum(deltas, (i + 1) as nat) < delta_sum(deltas, (j + 1) as nat));
        assert(delta_sum(deltas, (j + 1) as nat) <= u64::MAX);
    }
}

impl TileEntries {
    /// Entries are strictly ascending by id.
    pub open spec fn ids_ascending(&self) -> bool {
        forall|i: int, j: int|
            0 <= i < j < self.entries@.len() ==> self.entries@[i].id < self.entries@[j].id
    }

    /// Each entry's range ends before the next entry starts.
    pub open spec fn non_overlapping(&self) -> bool {
        forall|i: int, j: int|
            0 <= i < j < self.entries@.len() ==> self.entries@[i].id + self.entries@[i].run_length
                <= self.entries@[j].id
    }

    /// Finds the entry that covers tile `id`: the last entry whose id is at most
    /// `id`, where `id` lies within its run. Ids past every entry's range give `None`.
    pub fn find_tile(&self, id: TileId) -> (r: Option<&TileEntry>)
        requires
            self.ids_ascending(),
        ensures
            match r {
                Some(e) => exists|i: int|
                    0 <= i < self.entries@.len() && *e == self.entries@[i] && covers(
                        self.entries@[i],
                        id.0,
                    ) && forall|j: int| i < j < self.entries@.len() ==> self.entries@[j].id > id.0,
                None => forall|i: int|
                    0 <= i < self.entries@.len() && self.entries@[i].id <= id.0 && (forall|j: int|
                        i < j < self.entries@.len() ==> self.entries@[j].id > id.0) ==> !covers(
                        self.entries@[i],
                        id.0,
                    ),
            },
            (forall|i: int|
                0 <= i < self.entries@.len() ==> id.0 >= self.entries@[i].id
                    + self.entries@[i].run_length) ==> r is None,
            self.non_overlapping() && (exists|i: int|
                0 <= i < self.entries@.len() && covers(self.entries@[i], id.0)) ==> r is Some,
    {
        let mut lo: usize = 0;
        let mut hi: usize = self.entries.len();
        while lo < hi
            invariant
                self.ids_ascending(),
                lo <= hi <= self.entries@.len(),
                forall|i: int| 0 <= i < lo ==> self.entries@[i].id <= id.0,
                forall|i: int| hi <= i < self.entries@.len() ==> self.entries@[i].id > id.0,
            decreases hi - lo,
        {
            let mid = lo + (hi - lo) / 2;
            if self.entries[mid].id <= id.0 {
                lo = mid + 1;
            } else {
                hi = mid;
            }
        }
        if lo == 0 {
            return None;
        }
        let e = &self.entries[lo - 1];
        if id.0 - e.id < e.run_length {
            Some(e)
        } else {
            None
        }
    }
}

/// Whether some run length is 0, which marks a reference into a leaf directory.
fn has_leaf_reference(runs: &Vec<u64>) -> (r: bool)
    ensures
        r == exists|j: int| 0 <= j < runs@.len() && runs@[j] == 0,
{
    let mut i: usize = 0;
    while i < runs.len()
        invariant
            i <= runs@.len(),
            forall|j: int| 0 <= j < i ==> runs@[j] != 0,
        decreases runs@.len() - i,
    {
        if runs[i] == 0 {
            return true;
        }
        i = i + 1;
    }
    false
}

/// Decodes a directory from its decompressed bytes.
pub fn decode_directory(data: &[u8]) -> (r: Result<TileEntries, ParseError>)
    ensures
        decodes_to(data@, r),
        r is Ok ==> r->Ok_0.ids_ascending(),
{
    proof {
        assert(data@.skip(0) =~= data@);
    }
    let (n, p0) = match decode_varint(data, 0) {
        Ok(p) => p,
        Err(e) => return Err(e),
    };
    let (deltas, p1) = match read_column(data, p0, n) {
        Ok(p) => p,
        Err(e) => return Err(e),
    };
    proof {
        lemma_column_len(data@.skip(p0 as int), n as nat);
    }
    let ids = match accumulate_ids(&deltas) {
        Ok(v) => v,
        Err(e) => return Err(e),
    };
    let (runs, p2) = match read_column(data, p1, n) {
        Ok(p) => p,
        Err(e) => return Err(e),
    };
    proof {
        lemma_column_len(data@.skip(p1 as int), n as nat);
    }
    if has_leaf_reference(&runs) {
        return Err(ParseError::LeafDirectoryUnsupported);
    }
    let (lengths, p3) = match read_column(data, p2, n) {
        Ok(p) => p,
        Err(e) => return Err(e),
    };
    proof {
        lemma_column_len(data@.skip(p2 as int), n as nat);
    }
    let (codes, _) = match read_column(data, p3, n) {
        Ok(p) => p,
        Err(e) => return Err(e),
    };
    proof {
        lemma_column_len(data@.skip(p3 as int), n as nat);
    }
    let offsets = match resolve_offsets(&codes, &lengths) {
        Ok(v) => v,
        Err(e) => return Err(e),
    };
    let ghost spec_entries = entries_of(n as nat, deltas@, runs@, lengths@, codes@);
    proof {
        lemma_ids_ascending(deltas@, n as nat);
    }
    let mut entries: Vec<TileEntry> = Vec::new();
    let mut k: usize = 0;
    while k < runs.len()
        invariant
            k <= runs@.len() == n,
            ids@.len() == n,
            offsets@.len() == n,
            lengths@.len() == n,
            deltas@.len() == n,
            codes@.len() == n,
            spec_entries == entries_of(n as nat, deltas@, runs@, lengths@, codes@),
            deltas_valid(deltas@, n as nat),
            forall|a: nat, b: nat|
                a <= b <= n ==> 0 <= #[trigger] delta_sum(deltas@, a) <= #[trigger] delta_sum(
                    deltas@,
                    b,
                ) <= u64::MAX,
            forall|j: int| 0 <= j < n ==> ids@[j] == delta_sum(deltas@, (j + 1) as nat),
            forall|j: int| 0 <= j < n ==> offsets@[j] == resolved_offset(codes@, lengths@, j as nat),
            entries@ =~= spec_entries.take(k as int),
        decreases runs@.len() - k,
    {
        let e = TileEntry { id: ids[k], offset: offsets[k], length: lengths[k], run_length: runs[k] };
        proof {
            assert(delta_sum(deltas@, (k + 1) as nat) <= u64::MAX);
            assert(e == spec_entries[k as int]);
        }
        entries.push(e);
        k = k + 1;
    }
    proof {
        assert(entries@ =~= spec_entries);
        lemma_entries_strict(n as nat, deltas@, runs@, lengths@, codes@);
    }
    Ok(TileEntries { entries })
}

/// In every decoded directory, entries are strictly ascending by id.
pub proof fn directory_ids_strictly_ascending(s: Seq<u8>)
    requires
        directory_spec(s) is Ok,
    ensures
        forall|i: int, j: int|
            0 <= i < j < directory_spec(s)->Ok_0.len() ==> directory_spec(s)->Ok_0[i].id
                < directory_spec(s)->Ok_0[j].id,
{
    let (n, p0) = varint_decode(s)->Ok_0;
    let (deltas, p1) = varint_column(s.skip(p0 as int), n as nat)->Ok_0;
    let (runs, p2) = varint_column(s.skip((p0 + p1) as int), n as nat)->Ok_0;
    let (lengths, p3) = varint_column(s.skip((p0 + p1 + p2) as int), n as nat)->Ok_0;
    let (codes, _) = varint_column(s.skip((p0 + p1 + p2 + p3) as int), n as nat)->Ok_0;
    assert(directory_spec(s)->Ok_0 == entries_of(n as nat, deltas, runs, lengths, codes));
    lemma_entries_strict(n as nat, deltas, runs, lengths, codes);
}

/// In every decoded directory, the first entry's offset is its offset code minus
/// one; a later entry whose code is 0 starts where the previous entry's bytes
/// end, and any other code is the entry's offset plus one.
pub proof fn directory_offsets_follow_codes(s: Seq<u8>)
    requires
        directory_spec(s) is Ok,
    ensures
        directory_offset_codes(s).len() == directory_spec(s)->Ok_0.len(),
        directory_spec(s)->Ok_0.len() > 0 ==> directory_spec(s)->Ok_0[0].offset
            == directory_offset_codes(s)[0] - 1,
        forall|i: int|
            0 < i < directory_spec(s)->Ok_0.len() ==> (#[trigger] directory_spec(s)->Ok_0[i]).offset
                == if directory_offset_codes(s)[i] == 0 {
                directory_spec(s)->Ok_0[i - 1].offset + directory_spec(s)->Ok_0[i - 1].length
            } else {
                directory_offset_codes(s)[i] - 1
            },
{
    let (n, p0) = varint_decode(s)->Ok_0;
    let (deltas, p1) = varint_column(s.skip(p0 as int), n as nat)->Ok_0;
    let (runs, p2) = varint_column(s.skip((p0 + p1) as int), n as nat)->Ok_0;
    let (lengths, p3) = varint_column(s.skip((p0 + p1 + p2) as int), n as nat)->Ok_0;
    let (codes, _) = varint_column(s.skip((p0 + p1 + p2 + p3) as int), n as nat)->Ok_0;
    let es = entries_of(n as nat, deltas, runs, lengths, codes);
    assert(directory_spec(s)->Ok_0 == es);
    assert(directory_offset_codes(s) == codes);
    lemma_column_len(s.skip((p0 + p1 + p2) as int), n as nat);
    lemma_column_len(s.skip((p0 + p1 + p2 + p3) as int), n as nat);
    if n > 0 {
        assert(0 <= resolved_offset(codes, lengths, 0) <= u64::MAX);
    }
    assert forall|i: int| 0 < i < es.len() implies (#[trigger] es[i]).offset == if codes[i] == 0 {
        es[i - 1].offset + es[i - 1].length
    } else {
        codes[i] - 1
    } by {
        assert(0 <= resolved_offset(codes, lengths, i as nat) <= u64::MAX);
        assert(0 <= resolved_offset(codes, lengths, (i - 1) as nat) <= u64::MAX);
    }
}

} // verus!
