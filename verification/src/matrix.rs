use vstd::prelude::*;

verus! {

/// No two of the 16 table slots hold the same byte.
pub open spec fn injective16(t: Seq<u8>) -> bool {
    forall|i: int, j: int| 0 <= i < 16 && 0 <= j < 16 && i != j ==> t[i] != t[j]
}

/// A well-formed substitution table: one byte per nibble value, all distinct,
/// so the table is a bijection between 0..16 and a 16-element set of bytes.
pub open spec fn matrix_wf(t: Seq<u8>) -> bool {
    &&& t.len() == 16
    &&& injective16(t)
}

/// A well-formed reverse table for `t`: 256 slots, one per byte value,
/// holding the nibble that `t` maps to that byte, or nothing.
pub open spec fn reverse_wf(t: Seq<u8>, r: Seq<Option<u8>>) -> bool {
    &&& r.len() == 256
    &&& forall|n: int| 0 <= n < 16 ==> #[trigger] r[t[n] as int] == Some(n as u8)
    &&& forall|b: int|
        0 <= b < 256 && #[trigger] r[b] is Some ==> r[b]->Some_0 < 16 && t[r[b]->Some_0 as int]
            == b
}

/// The table that key derivation starts from: nibble `n` maps to byte
/// `17 * n`, which spreads the 16 entries evenly over the byte range.
pub open spec fn base_table() -> Seq<u8> {
    Seq::new(16, |n: int| (17 * n) as u8)
}

/// One derivation step: exchange the entries at slots `a` and `b`.
pub open spec fn spec_swap(t: Seq<u8>, a: int, b: int) -> Seq<u8> {
    t.update(a, t[b]).update(b, t[a])
}

/// The table derived from the first `i` key bytes: the base table,
/// shuffled by one swap per key byte. Step `k` exchanges slot `k % 16`
/// with the slot named by the key byte, so equal keys always derive
/// equal tables.
pub open spec fn spec_derive(key: Seq<u8>, i: int) -> Seq<u8>
    decreases i,
{
    if i <= 0 {
        base_table()
    } else {
        spec_swap(spec_derive(key, i - 1), (i - 1) % 16, (key[i - 1] % 16) as int)
    }
}

proof fn lemma_base_wf()
    ensures
        matrix_wf(base_table()),
{
    assert forall|i: int, j: int|
        0 <= i < 16 && 0 <= j < 16 && i != j implies base_table()[i] != base_table()[j] by {
        assert(17 * i < 256 && 17 * j < 256);
    }
}

proof fn lemma_swap_injective(t: Seq<u8>, a: int, b: int)
    requires
        matrix_wf(t),
        0 <= a < 16,
        0 <= b < 16,
    ensures
        matrix_wf(spec_swap(t, a, b)),
{
    let s = spec_swap(t, a, b);
    assert forall|i: int, j: int| 0 <= i < 16 && 0 <= j < 16 && i != j implies s[i] != s[j] by {
        assert(s[i] == if i == b {
            t[a]
        } else if i == a {
            t[b]
        } else {
            t[i]
        });
        assert(s[j] == if j == b {
            t[a]
        } else if j == a {
            t[b]
        } else {
            t[j]
        });
    }
}

/// A nibble-to-byte substitution table with 16 distinct entries.
pub struct Matrix {
    entries: Vec<u8>,
}

impl View for Matrix {
    type V = Seq<u8>;

    closed spec fn view(&self) -> Seq<u8> {
        self.entries@
    }
}

impl Matrix {
    pub open spec fn wf(&self) -> bool {
        matrix_wf(self@)
    }

    /// The byte substituted for nibble `n`.
    pub fn entry(&self, n: usize) -> (r: u8)
        requires
            self.wf(),
            n < 16,
        ensures
            r == self@[n as int],
    {
        self.entries[n]
    }

    /// Builds a table from explicit entries; refuses anything that is not
    /// a 16-entry bijection.
    pub fn from_entries(entries: Vec<u8>) -> (r: Option<Matrix>)
        ensures
            r is Some <==> matrix_wf(entries@),
            r is Some ==> r->Some_0@ == entries@,
    {
        if entries.len() != 16 {
            return None;
        }
        let mut i: usize = 0;
        while i < 16
            invariant
                entries@.len() == 16,
                i <= 16,
                forall|p: int, q: int|
                    0 <= p < i && 0 <= q < 16 && p != q ==> entries@[p] != entries@[q],
            decreases 16 - i,
        {
            let mut j: usize = 0;
            while j < 16
                invariant
                    entries@.len() == 16,
                    i < 16,
                    j <= 16,
                    forall|p: int, q: int|
                        0 <= p < i && 0 <= q < 16 && p != q ==> entries@[p] != entries@[q],
                    forall|q: int| 0 <= q < j && q != i ==> entries@[i as int] != entries@[q],
                decreases 16 - j,
            {
                if j != i && entries[j] == entries[i] {
                    return None;
                }
                j += 1;
            }
            i += 1;
        }
        Some(Matrix { entries })
    }
}

/// A byte-to-nibble reverse table with one slot per byte value.
pub struct ReverseMatrix {
    entries: Vec<Option<u8>>,
}

impl View for ReverseMatrix {
    type V = Seq<Option<u8>>;

    closed spec fn view(&self) -> Seq<Option<u8>> {
        self.entries@
    }
}

impl ReverseMatrix {
    pub open spec fn wf(&self) -> bool {
        &&& self@.len() == 256
        &&& forall|b: int| 0 <= b < 256 && #[trigger] self@[b] is Some ==> self@[b]->Some_0 < 16
    }

    /// The nibble whose substituted byte is `b`, if any.
    pub fn lookup(&self, b: u8) -> (r: Option<u8>)
        requires
            self.wf(),
        ensures
            r == self@[b as int],
    {
        self.entries[b as usize]
    }
}

/// Bijection law: a well-formed reverse table undoes its substitution
/// table on every nibble value.
pub proof fn lemma_bijection(t: Seq<u8>, r: Seq<Option<u8>>)
    requires
        matrix_wf(t),
        reverse_wf(t, r),
    ensures
        forall|n: int| 0 <= n < 16 ==> #[trigger] r[t[n] as int] == Some(n as u8),
{
}

/// Derives the substitution table and its reverse from key material:
/// the base table shuffled by one keyed swap per key byte. Equal key
/// bytes always yield the same pair, and the derived table is always a
/// bijection.
pub fn get_matrix(key: &[u8]) -> (r: (Matrix, ReverseMatrix))
    ensures
        r.0.wf(),
        r.1.wf(),
        reverse_wf(r.0@, r.1@),
        r.0@ == spec_derive(key@, key@.len() as int),
{
    let mut entries: Vec<u8> = Vec::new();
    let mut n: usize = 0;
    while n < 16
        invariant
            n <= 16,
            entries@.len() == n,
            forall|k: int| 0 <= k < n ==> entries@[k] == base_table()[k],
        decreases 16 - n,
    {
        entries.push((17 * n) as u8);
        n += 1;
    }
    proof {
        assert(entries@ =~= base_table());
        lemma_base_wf();
    }
    let mut i: usize = 0;
    while i < key.len()
        invariant
            i <= key@.len(),
            entries@ == spec_derive(key@, i as int),
            matrix_wf(entries@),
        decreases key@.len() - i,
    {
        let a = i % 16;
        let b = (key[i] % 16) as usize;
        let va = entries[a];
        let vb = entries[b];
        proof {
            lemma_swap_injective(entries@, a as int, b as int);
        }
        let ghost before = entries@;
        entries[a] = vb;
        entries[b] = va;
        proof {
            assert(entries@ =~= spec_swap(before, a as int, b as int));
        }
        i += 1;
    }
    let m = Matrix { entries };
    let rev = get_reverse_matrix(&m);
    (m, rev)
}

/// Builds the reverse table of a well-formed substitution table.
pub fn get_reverse_matrix(m: &Matrix) -> (r: ReverseMatrix)
    requires
        m.wf(),
    ensures
        r.wf(),
        reverse_wf(m@, r@),
{
    let mut entries: Vec<Option<u8>> = Vec::new();
    let mut b: usize = 0;
    while b < 256
        invariant
            b <= 256,
            entries@.len() == b,
            forall|k: int| 0 <= k < b ==> entries@[k] is None,
        decreases 256 - b,
    {
        entries.push(None);
        b += 1;
    }
    let mut n: usize = 0;
    while n < 16
        invariant
            n <= 16,
            m.wf(),
            entries@.len() == 256,
            forall|k: int| 0 <= k < n ==> #[trigger] entries@[m@[k] as int] == Some(k as u8),
            forall|v: int|
                0 <= v < 256 && #[trigger] entries@[v] is Some ==> entries@[v]->Some_0 < n
                    && m@[entries@[v]->Some_0 as int] == v,
        decreases 16 - n,
    {
        let v = m.entry(n) as usize;
        entries[v] = Some(n as u8);
        n += 1;
    }
    ReverseMatrix { entries }
}

} // verus!
