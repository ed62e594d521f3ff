use vstd::prelude::*;
use vstd::arithmetic::div_mod::{lemma_div_denominator, lemma_fundamental_div_mod};
use vstd::slice::{slice_subrange, slice_to_vec};
use crate::errors::Error;

verus! {

/// A u64 as its eight little-endian bytes.
pub open spec fn u64_le_bytes(n: u64) -> Seq<u8> {
    seq![
        (n % 256) as u8,
        ((n / 256) % 256) as u8,
        ((n / 0x10000) % 256) as u8,
        ((n / 0x1000000) % 256) as u8,
        ((n / 0x100000000) % 256) as u8,
        ((n / 0x10000000000) % 256) as u8,
        ((n / 0x1000000000000) % 256) as u8,
        ((n / 0x100000000000000) % 256) as u8,
    ]
}

/// The value eight little-endian bytes denote.
pub open spec fn u64_from_le(s: Seq<u8>) -> int
    recommends
        s.len() == 8,
{
    s[0] + 256 * (s[1] + 256 * (s[2] + 256 * (s[3] + 256 * (s[4] + 256 * (s[5] + 256 * (s[6] + 256
        * s[7]))))))
}

/// Eight little-endian bytes of a number denote that number again.
pub proof fn lemma_u64_le_roundtrip(n: u64)
    ensures
        u64_from_le(u64_le_bytes(n)) == n,
{
    let x = n as int;
    let m1 = x / 256;
    let m2 = x / 0x10000;
    let m3 = x / 0x1000000;
    let m4 = x / 0x100000000;
    let m5 = x / 0x10000000000;
    let m6 = x / 0x1000000000000;
    let m7 = x / 0x100000000000000;
    lemma_div_denominator(x, 256, 256);
    lemma_div_denominator(x, 0x10000, 256);
    lemma_div_denominator(x, 0x1000000, 256);
    lemma_div_denominator(x, 0x100000000, 256);
    lemma_div_denominator(x, 0x10000000000, 256);
    lemma_div_denominator(x, 0x1000000000000, 256);
    lemma_fundamental_div_mod(x, 256);
    lemma_fundamental_div_mod(m1, 256);
    lemma_fundamental_div_mod(m2, 256);
    lemma_fundamental_div_mod(m3, 256);
    lemma_fundamental_div_mod(m4, 256);
    lemma_fundamental_div_mod(m5, 256);
    lemma_fundamental_div_mod(m6, 256);
    assert(m7 < 256 && m7 >= 0) by (nonlinear_arith)
        requires
            x < 0x10000000000000000,
            x >= 0,
            m7 == x / 0x100000000000000,
    ;
    assert(m7 % 256 == m7);
}

/// Strict byte-lexicographic order on resource paths.
pub open spec fn lex_lt(a: Seq<u8>, b: Seq<u8>) -> bool
    decreases a.len(),
{
    if b.len() == 0 {
        false
    } else if a.len() == 0 {
        true
    } else if a[0] < b[0] {
        true
    } else if a[0] > b[0] {
        false
    } else {
        lex_lt(a.skip(1), b.skip(1))
    }
}

proof fn lemma_lex_irrefl(a: Seq<u8>)
    ensures
        !lex_lt(a, a),
    decreases a.len(),
{
    if a.len() > 0 {
        lemma_lex_irrefl(a.skip(1));
    }
}

proof fn lemma_lex_neq(a: Seq<u8>, b: Seq<u8>)
    ensures
        lex_lt(a, b) ==> a != b,
{
    if a == b {
        lemma_lex_irrefl(a);
    }
}

proof fn lemma_lex_total(a: Seq<u8>, b: Seq<u8>)
    requires
        !lex_lt(a, b),
        !lex_lt(b, a),
    ensures
        a == b,
    decreases a.len(),
{
    if b.len() == 0 {
        assert(a.len() == 0);
        assert(a =~= b);
    } else if a.len() == 0 {
        assert(false);
    } else {
        if a[0] < b[0] {
            assert(false);
        } else if a[0] > b[0] {
            assert(false);
        } else {
            lemma_lex_total(a.skip(1), b.skip(1));
            assert(a.skip(1).len() == b.skip(1).len());
            assert(a.len() == b.len());
            assert forall|m: int| 0 <= m < a.len() implies a[m] == b[m] by {
                if m > 0 {
                    assert(a[m] == a.skip(1)[m - 1]);
                    assert(b[m] == b.skip(1)[m - 1]);
                }
            }
            assert(a =~= b);
        }
    }
}

proof fn lemma_lex_trans(a: Seq<u8>, b: Seq<u8>, c: Seq<u8>)
    requires
        lex_lt(a, b),
        lex_lt(b, c),
    ensures
        lex_lt(a, c),
    decreases a.len(),
{
    if a.len() == 0 {
    } else {
        if a[0] < b[0] {
            assert(b[0] <= c[0]);
        } else {
            assert(a[0] == b[0]);
            if b[0] == c[0] {
                lemma_lex_trans(a.skip(1), b.skip(1), c.skip(1));
            }
        }
    }
}

/// The value stored for a path in an entry sequence: the first entry with
/// a matching path, if any.
pub open spec fn assoc_get(s: Seq<(Seq<u8>, Seq<u8>)>, k: Seq<u8>) -> Option<Seq<u8>>
    decreases s.len(),
{
    if s.len() == 0 {
        None
    } else if s[0].0 == k {
        Some(s[0].1)
    } else {
        assoc_get(s.skip(1), k)
    }
}

proof fn lemma_assoc_skip(s: Seq<(Seq<u8>, Seq<u8>)>, k: Seq<u8>, i: int)
    requires
        0 <= i <= s.len(),
        forall|j: int| 0 <= j < i ==> (#[trigger] s[j]).0 != k,
    ensures
        assoc_get(s, k) == assoc_get(s.skip(i), k),
    decreases i,
{
    if i == 0 {
        assert(s.skip(0) =~= s);
    } else {
        assert(s.skip(1).skip(i - 1) =~= s.skip(i));
        lemma_assoc_skip(s.skip(1), k, i - 1);
    }
}

proof fn lemma_assoc_found(s: Seq<(Seq<u8>, Seq<u8>)>, k: Seq<u8>, i: int)
    requires
        0 <= i < s.len(),
        forall|j: int| 0 <= j < i ==> (#[trigger] s[j]).0 != k,
        s[i].0 == k,
    ensures
        assoc_get(s, k) == Some(s[i].1),
{
    lemma_assoc_skip(s, k, i);
    assert(s.skip(i)[0] == s[i]);
}

proof fn lemma_assoc_none(s: Seq<(Seq<u8>, Seq<u8>)>, k: Seq<u8>)
    requires
        forall|j: int| 0 <= j < s.len() ==> (#[trigger] s[j]).0 != k,
    ensures
        assoc_get(s, k) is None,
{
    lemma_assoc_skip(s, k, s.len() as int);
    assert(s.skip(s.len() as int) =~= Seq::<(Seq<u8>, Seq<u8>)>::empty());
}

proof fn lemma_assoc_insert_ne(s: Seq<(Seq<u8>, Seq<u8>)>, i: int, p: (Seq<u8>, Seq<u8>), k: Seq<u8>)
    requires
        0 <= i <= s.len(),
        p.0 != k,
    ensures
        assoc_get(s.insert(i, p), k) == assoc_get(s, k),
    decreases i,
{
    let t = s.insert(i, p);
    if i == 0 {
        assert(t[0] == p);
        assert(t.skip(1) =~= s);
    } else {
        assert(t[0] == s[0]);
        if s[0].0 == k {
        } else {
            assert(t.skip(1) =~= s.skip(1).insert(i - 1, p));
            lemma_assoc_insert_ne(s.skip(1), i - 1, p, k);
        }
    }
}

proof fn lemma_assoc_update_same_key(
    s: Seq<(Seq<u8>, Seq<u8>)>,
    i: int,
    p: (Seq<u8>, Seq<u8>),
    k: Seq<u8>,
)
    requires
        0 <= i < s.len(),
        s[i].0 == p.0,
        k != p.0,
    ensures
        assoc_get(s.update(i, p), k) == assoc_get(s, k),
    decreases i,
{
    let t = s.update(i, p);
    if i == 0 {
        assert(t[0] == p);
        assert(t.skip(1) =~= s.skip(1));
    } else {
        assert(t[0] == s[0]);
        if s[0].0 == k {
        } else {
            assert(t.skip(1) =~= s.skip(1).update(i - 1, p));
            lemma_assoc_update_same_key(s.skip(1), i - 1, p, k);
        }
    }
}

proof fn lemma_assoc_remove_ne(s: Seq<(Seq<u8>, Seq<u8>)>, i: int, k: Seq<u8>)
    requires
        0 <= i < s.len(),
        s[i].0 != k,
    ensures
        assoc_get(s.remove(i), k) == assoc_get(s, k),
    decreases i,
{
    let t = s.remove(i);
    if i == 0 {
        assert(t =~= s.skip(1));
    } else {
        assert(t[0] == s[0]);
        if s[0].0 == k {
        } else {
            assert(t.skip(1) =~= s.skip(1).remove(i - 1));
            lemma_assoc_remove_ne(s.skip(1), i - 1, k);
        }
    }
}

/// Compares two paths byte-lexicographically: -1, 0, or 1 as the first is
/// below, equal to, or above the second.
fn key_cmp(a: &[u8], b: &[u8]) -> (r: i8)
    ensures
        r == -1 || r == 0 || r == 1,
        (r == -1) == lex_lt(a@, b@),
        (r == 0) == (a@ == b@),
        (r == 1) == lex_lt(b@, a@),
{
    let alen: usize = a.len();
    let blen: usize = b.len();
    let n: usize = if alen < blen {
        alen
    } else {
        blen
    };
    let mut i: usize = 0;
    proof {
        assert(a@.skip(0) =~= a@);
        assert(b@.skip(0) =~= b@);
    }
    while i < n
        invariant
            i <= n,
            n <= a@.len(),
            n <= b@.len(),
            alen == a@.len(),
            blen == b@.len(),
            n == (if alen < blen {
                alen as int
            } else {
                blen as int
            }),
            forall|j: int| 0 <= j < i ==> a@[j] == b@[j],
            lex_lt(a@, b@) == lex_lt(a@.skip(i as int), b@.skip(i as int)),
            lex_lt(b@, a@) == lex_lt(b@.skip(i as int), a@.skip(i as int)),
        decreases n - i,
    {
        proof {
            assert(a@.skip(i as int).skip(1) =~= a@.skip(i + 1));
            assert(b@.skip(i as int).skip(1) =~= b@.skip(i + 1));
        }
        if a[i] < b[i] {
            proof {
                lemma_lex_neq(a@, b@);
            }
            return -1;
        }
        if a[i] > b[i] {
            proof {
                lemma_lex_neq(b@, a@);
            }
            return 1;
        }
        i = i + 1;
    }
    if alen == blen {
        proof {
            assert(a@ =~= b@);
            lemma_lex_irrefl(a@);
        }
        0
    } else if alen < blen {
        proof {
            assert(a@.skip(i as int).len() == 0);
            assert(b@.skip(i as int).len() > 0);
            lemma_lex_neq(a@, b@);
        }
        -1
    } else {
        proof {
            assert(b@.skip(i as int).len() == 0);
            assert(a@.skip(i as int).len() > 0);
            lemma_lex_neq(b@, a@);
        }
        1
    }
}

/// An account's on-chain state as a client observes it: an ordered map
/// from resource path to serialized resource bytes, keys unique, held in
/// ascending byte-lexicographic order. One reserved path holds the
/// primary account resource; every other path is opaque at this layer.
pub struct AccountState(Vec<(Vec<u8>, Vec<u8>)>);

impl AccountState {
    /// The (path, bytes) entries, in storage order.
    pub closed spec fn entries(&self) -> Seq<(Seq<u8>, Seq<u8>)> {
        self.0@.map_values(|p: (Vec<u8>, Vec<u8>)| (p.0@, p.1@))
    }

    /// The bytes stored at a path, if any.
    pub open spec fn spec_get(&self, k: Seq<u8>) -> Option<Seq<u8>> {
        assoc_get(self.entries(), k)
    }

    /// Paths strictly ascend, which also makes them unique.
    pub open spec fn wf(&self) -> bool {
        forall|i: int, j: int|
            0 <= i < j < self.entries().len() ==> lex_lt(
                (#[trigger] self.entries()[i]).0,
                (#[trigger] self.entries()[j]).0,
            )
    }

    /// The serialized value at an exact path, or nothing; never a partial
    /// or prefix match.
    pub fn get(&self, key: &[u8]) -> (r: Option<&Vec<u8>>)
        ensures
            (r is Some) == (self.spec_get(key@) is Some),
            r matches Some(v) ==> self.spec_get(key@) == Some(v@),
    {
        let n: usize = self.0.len();
        let mut i: usize = 0;
        while i < n
            invariant
                i <= n,
                n == self.0.len(),
                forall|j: int| 0 <= j < i ==> (#[trigger] self.entries()[j]).0 != key@,
            decreases n - i,
        {
            if key_cmp(self.0[i].0.as_slice(), key) == 0 {
                proof {
                    lemma_assoc_found(self.entries(), key@, i as int);
                }
                return Some(&self.0[i].1);
            }
            i = i + 1;
        }
        proof {
            lemma_assoc_none(self.entries(), key@);
        }
        None
    }

    /// Whether the store holds no resource at all.
    pub fn is_empty(&self) -> (r: bool)
        ensures
            r == (self.entries().len() == 0),
    {
        self.0.len() == 0
    }

    fn find_index(&self, key: &[u8]) -> (r: Option<usize>)
        ensures
            match r {
                Some(i) => i < self.entries().len() && self.entries()[i as int].0 == key@
                    && forall|j: int| 0 <= j < i ==> (#[trigger] self.entries()[j]).0 != key@,
                None => forall|j: int|
                    0 <= j < self.entries().len() ==> (#[trigger] self.entries()[j]).0 != key@,
            },
    {
        let n: usize = self.0.len();
        let mut i: usize = 0;
        while i < n
            invariant
                i <= n,
                n == self.0.len(),
                forall|j: int| 0 <= j < i ==> (#[trigger] self.entries()[j]).0 != key@,
            decreases n - i,
        {
            if key_cmp(self.0[i].0.as_slice(), key) == 0 {
                return Some(i);
            }
            i = i + 1;
        }
        None
    }

    fn insert_pos(&self, key: &[u8]) -> (i: usize)
        ensures
            i <= self.entries().len(),
            forall|j: int| 0 <= j < i ==> lex_lt((#[trigger] self.entries()[j]).0, key@),
            i < self.entries().len() ==> !lex_lt(self.entries()[i as int].0, key@),
    {
        let n: usize = self.0.len();
        let mut i: usize = 0;
        while i < n
            invariant
                i <= n,
                n == self.0.len(),
                forall|j: int| 0 <= j < i ==> lex_lt((#[trigger] self.entries()[j]).0, key@),
            decreases n - i,
        {
            if key_cmp(self.0[i].0.as_slice(), key) != -1 {
                return i;
            }
            i = i + 1;
        }
        i
    }

    /// Inserts or replaces the value at `key`, returning the previous
    /// value if one was there: overwrite semantics, never an append, and
    /// the ascending order is preserved.
    pub fn insert(&mut self, key: Vec<u8>, value: Vec<u8>) -> (prev: Option<Vec<u8>>)
        requires
            old(self).wf(),
        ensures
            final(self).wf(),
            forall|k: Seq<u8>| #[trigger]
                final(self).spec_get(k) == (if k == key@ {
                    Some(value@)
                } else {
                    old(self).spec_get(k)
                }),
            (prev is Some) == (old(self).spec_get(key@) is Some),
            prev matches Some(v) ==> old(self).spec_get(key@) == Some(v@),
    {
        let ghost olde = old(self).entries();
        let pos = self.insert_pos(key.as_slice());
        let found = if pos < self.0.len() {
            key_cmp(self.0[pos].0.as_slice(), key.as_slice()) == 0
        } else {
            false
        };
        if found {
            proof {
                lemma_assoc_found(olde, key@, pos as int);
            }
            let prev_pair = self.0.remove(pos);
            self.0.insert(pos, (key, value));
            proof {
                let ghost newe = self.entries();
                let ghost p = (olde[pos as int].0, value@);
                assert(newe =~= olde.update(pos as int, p));
                assert forall|i: int, j: int|
                    0 <= i < j < newe.len() implies lex_lt(
                    (#[trigger] newe[i]).0,
                    (#[trigger] newe[j]).0,
                ) by {
                    assert(newe[i].0 == olde[i].0);
                    assert(newe[j].0 == olde[j].0);
                }
                assert forall|k: Seq<u8>| #[trigger]
                    self.spec_get(k) == (if k == key@ {
                        Some(value@)
                    } else {
                        old(self).spec_get(k)
                    }) by {
                    if k == key@ {
                        assert forall|j: int| 0 <= j < pos implies (#[trigger] newe[j]).0
                            != k by {
                            lemma_lex_neq(olde[j].0, k);
                        }
                        lemma_assoc_found(newe, k, pos as int);
                    } else {
                        lemma_assoc_update_same_key(olde, pos as int, p, k);
                    }
                }
            }
            Some(prev_pair.1)
        } else {
            proof {
                // where the scan stopped, the key is strictly below the entry
                if (pos as int) < olde.len() {
                    if !lex_lt(key@, olde[pos as int].0) {
                        lemma_lex_total(key@, olde[pos as int].0);
                        assert(false);
                    }
                }
                assert forall|j: int| 0 <= j < olde.len() implies (#[trigger] olde[j]).0
                    != key@ by {
                    if j < pos {
                        lemma_lex_neq(olde[j].0, key@);
                    } else if j > pos {
                        assert(lex_lt(olde[pos as int].0, olde[j].0));
                        lemma_lex_trans(key@, olde[pos as int].0, olde[j].0);
                        lemma_lex_neq(key@, olde[j].0);
                    }
                }
                lemma_assoc_none(olde, key@);
            }
            let ghost kview = key@;
            let ghost vview = value@;
            self.0.insert(pos, (key, value));
            proof {
                let ghost newe = self.entries();
                let ghost p = (kview, vview);
                assert(newe =~= olde.insert(pos as int, p));
                assert forall|i: int, j: int|
                    0 <= i < j < newe.len() implies lex_lt(
                    (#[trigger] newe[i]).0,
                    (#[trigger] newe[j]).0,
                ) by {
                    let oi: int = if i < pos {
                        i
                    } else {
                        i - 1
                    };
                    let oj: int = if j < pos {
                        j
                    } else {
                        j - 1
                    };
                    if i == pos {
                        // newe[i] is the fresh key; olde[oj] sits at or past pos
                        assert(newe[j].0 == olde[oj].0);
                        if oj == pos {
                        } else {
                            assert(lex_lt(olde[pos as int].0, olde[oj].0));
                            lemma_lex_trans(kview, olde[pos as int].0, olde[oj].0);
                        }
                    } else if j == pos {
                        assert(newe[i].0 == olde[oi].0);
                        assert(lex_lt(olde[oi].0, kview));
                    } else {
                        assert(newe[i].0 == olde[oi].0);
                        assert(newe[j].0 == olde[oj].0);
                        assert(lex_lt(olde[oi].0, olde[oj].0));
                    }
                }
                assert forall|k: Seq<u8>| #[trigger]
                    self.spec_get(k) == (if k == kview {
                        Some(vview)
                    } else {
                        old(self).spec_get(k)
                    }) by {
                    if k == kview {
                        assert forall|j: int| 0 <= j < pos implies (#[trigger] newe[j]).0
                            != k by {
                            lemma_lex_neq(olde[j].0, k);
                        }
                        assert(newe[pos as int] == p);
                        lemma_assoc_found(newe, k, pos as int);
                    } else {
                        lemma_assoc_insert_ne(olde, pos as int, p, k);
                    }
                }
            }
            None
        }
    }

    /// Deletes the value at `key`, returning what was removed, or nothing
    /// when the path was absent.
    pub fn remove(&mut self, key: &[u8]) -> (prev: Option<Vec<u8>>)
        requires
            old(self).wf(),
        ensures
            final(self).wf(),
            forall|k: Seq<u8>| #[trigger]
                final(self).spec_get(k) == (if k == key@ {
                    None
                } else {
                    old(self).spec_get(k)
                }),
            (prev is Some) == (old(self).spec_get(key@) is Some),
            prev matches Some(v) ==> old(self).spec_get(key@) == Some(v@),
    {
        let ghost olde = old(self).entries();
        match self.find_index(key) {
            Some(i) => {
                proof {
                    lemma_assoc_found(olde, key@, i as int);
                }
                let pair = self.0.remove(i);
                proof {
                    let ghost newe = self.entries();
                    assert(newe =~= olde.remove(i as int));
                    assert forall|a: int, b: int|
                        0 <= a < b < newe.len() implies lex_lt(
                        (#[trigger] newe[a]).0,
                        (#[trigger] newe[b]).0,
                    ) by {
                        let oa: int = if a < i {
                            a
                        } else {
                            a + 1
                        };
                        let ob: int = if b < i {
                            b
                        } else {
                            b + 1
                        };
                        assert(newe[a].0 == olde[oa].0);
                        assert(newe[b].0 == olde[ob].0);
                        assert(lex_lt(olde[oa].0, olde[ob].0));
                    }
                    assert forall|k: Seq<u8>| #[trigger]
                        self.spec_get(k) == (if k == key@ {
                            None
                        } else {
                            old(self).spec_get(k)
                        }) by {
                        if k == key@ {
                            assert forall|j: int| 0 <= j < newe.len() implies (#[trigger]
                            newe[j]).0 != k by {
                                if j < i {
                                    assert(newe[j].0 == olde[j].0);
                                } else {
                                    assert(newe[j].0 == olde[j + 1].0);
                                    assert(lex_lt(olde[i as int].0, olde[j + 1].0));
                                    lemma_lex_neq(olde[i as int].0, olde[j + 1].0);
                                }
                            }
                            lemma_assoc_none(newe, k);
                        } else {
                            lemma_assoc_remove_ne(olde, i as int, k);
                        }
                    }
                }
                Some(pair.1)
            },
            None => {
                proof {
                    lemma_assoc_none(olde, key@);
                }
                None
            },
        }
    }
}

/// The reserved resource path at which the primary account resource is
/// stored.
pub open spec fn spec_account_resource_path() -> Seq<u8> {
    seq![1u8]
}

/// The reserved resource path, as stored bytes.
pub fn account_resource_path() -> (r: Vec<u8>)
    ensures
        r@ == spec_account_resource_path(),
{
    let mut v: Vec<u8> = Vec::new();
    v.push(1u8);
    proof {
        assert(v@ =~= seq![1u8]);
    }
    v
}

/// The primary account resource: the core account fields, serialized at
/// the reserved resource path.
#[derive(Debug, PartialEq)]
pub struct AccountResource {
    pub authentication_key: Vec<u8>,
    pub balance: u64,
    pub sequence_number: u64,
}

impl AccountResource {
    /// The authentication key is a 32-byte digest.
    pub open spec fn wf(&self) -> bool {
        self.authentication_key@.len() == 32
    }
}

/// The canonical serialization of the account resource: balance and
/// sequence number as little-endian u64s, then the 32 authentication-key
/// bytes.
pub open spec fn spec_encode_resource(res: AccountResource) -> Seq<u8> {
    u64_le_bytes(res.balance) + u64_le_bytes(res.sequence_number) + res.authentication_key@
}

fn push_u64_le(out: &mut Vec<u8>, n: u64)
    ensures
        final(out)@ == old(out)@ + u64_le_bytes(n),
{
    out.push((n % 256) as u8);
    out.push(((n / 256) % 256) as u8);
    out.push(((n / 0x10000) % 256) as u8);
    out.push(((n / 0x1000000) % 256) as u8);
    out.push(((n / 0x100000000) % 256) as u8);
    out.push(((n / 0x10000000000) % 256) as u8);
    out.push(((n / 0x1000000000000) % 256) as u8);
    out.push(((n / 0x100000000000000) % 256) as u8);
    proof {
        assert(out@ =~= old(out)@ + u64_le_bytes(n));
    }
}

fn read_u64_le(bytes: &Vec<u8>, off: usize) -> (r: u64)
    requires
        off + 8 <= bytes@.len(),
    ensures
        r as int == u64_from_le(bytes@.subrange(off as int, off as int + 8)),
{
    let end: usize = bytes.len();
    let b0 = bytes[off] as u64;
    let b1 = bytes[off + 1] as u64;
    let b2 = bytes[off + 2] as u64;
    let b3 = bytes[off + 3] as u64;
    let b4 = bytes[off + 4] as u64;
    let b5 = bytes[off + 5] as u64;
    let b6 = bytes[off + 6] as u64;
    let b7 = bytes[off + 7] as u64;
    proof {
        assert(off + 8 <= end);
    }
    let x6 = b6 + 256 * b7;
    let x5 = b5 + 256 * x6;
    let x4 = b4 + 256 * x5;
    let x3 = b3 + 256 * x4;
    let x2 = b2 + 256 * x3;
    let x1 = b1 + 256 * x2;
    let x0 = b0 + 256 * x1;
    proof {
        let s = bytes@.subrange(off as int, off as int + 8);
        assert(s[0] == bytes@[off as int]);
        assert(s[1] == bytes@[off + 1]);
        assert(s[2] == bytes@[off + 2]);
        assert(s[3] == bytes@[off + 3]);
        assert(s[4] == bytes@[off + 4]);
        assert(s[5] == bytes@[off + 5]);
        assert(s[6] == bytes@[off + 6]);
        assert(s[7] == bytes@[off + 7]);
    }
    x0
}

/// Serializes the account resource canonically: 48 bytes.
pub fn encode_resource(res: &AccountResource) -> (out: Vec<u8>)
    requires
        res.wf(),
    ensures
        out@ == spec_encode_resource(*res),
        out@.len() == 48,
{
    let mut out: Vec<u8> = Vec::new();
    push_u64_le(&mut out, res.balance);
    push_u64_le(&mut out, res.sequence_number);
    let mut key = slice_to_vec(res.authentication_key.as_slice());
    out.append(&mut key);
    proof {
        assert(out@ =~= spec_encode_resource(*res));
    }
    out
}

/// Parses canonically serialized account-resource bytes; anything but
/// exactly 48 bytes is malformed.
pub fn decode_resource(bytes: &Vec<u8>) -> (r: Result<AccountResource, Error>)
    ensures
        (r is Ok) == (bytes@.len() == 48),
        r matches Ok(res) ==> res.wf() && res.balance as int == u64_from_le(
            bytes@.subrange(0, 8),
        ) && res.sequence_number as int == u64_from_le(bytes@.subrange(8, 16))
            && res.authentication_key@ == bytes@.subrange(16, 48),
        r is Err ==> r == Err::<AccountResource, Error>(Error::DecodingError),
{
    if bytes.len() != 48 {
        return Err(Error::DecodingError);
    }
    let balance = read_u64_le(bytes, 0);
    let sequence_number = read_u64_le(bytes, 8);
    let authentication_key = slice_to_vec(slice_subrange(bytes.as_slice(), 16, 48));
    Ok(AccountResource { authentication_key, balance, sequence_number })
}

/// The resource codec round-trips: the canonical serialization of a
/// resource is 48 bytes that decode to the same balance, sequence number
/// and authentication key.
pub proof fn lemma_resource_codec_roundtrip(res: AccountResource)
    requires
        res.wf(),
    ensures
        ({
            let s = spec_encode_resource(res);
            &&& s.len() == 48
            &&& u64_from_le(s.subrange(0, 8)) == res.balance
            &&& u64_from_le(s.subrange(8, 16)) == res.sequence_number
            &&& s.subrange(16, 48) == res.authentication_key@
        }),
{
    let s = spec_encode_resource(res);
    lemma_u64_le_roundtrip(res.balance);
    lemma_u64_le_roundtrip(res.sequence_number);
    assert(s.subrange(0, 8) =~= u64_le_bytes(res.balance));
    assert(s.subrange(8, 16) =~= u64_le_bytes(res.sequence_number));
    assert(s.subrange(16, 48) =~= res.authentication_key@);
}

impl AccountState {
    /// Looks up the reserved path and, when bytes are there, parses them
    /// into the typed account resource. Absence is not an error; malformed
    /// bytes are.
    pub fn get_account_resource(&self) -> (r: Result<Option<AccountResource>, Error>)
        ensures
            ({
                let stored = self.spec_get(spec_account_resource_path());
                &&& stored is None ==> r == Ok::<Option<AccountResource>, Error>(None)
                &&& stored matches Some(bytes) ==> (if bytes.len() == 48 {
                    ({
                        &&& r matches Ok(Some(res))
                        &&& r matches Ok(Some(res)) ==> res.wf() && res.balance as int
                            == u64_from_le(bytes.subrange(0, 8)) && res.sequence_number as int
                            == u64_from_le(bytes.subrange(8, 16)) && res.authentication_key@
                            == bytes.subrange(16, 48)
                    })
                } else {
                    r == Err::<Option<AccountResource>, Error>(Error::DecodingError)
                })
            }),
    {
        let path = account_resource_path();
        match self.get(path.as_slice()) {
            None => Ok(None),
            Some(bytes) => match decode_resource(bytes) {
                Ok(res) => Ok(Some(res)),
                Err(e) => Err(e),
            },
        }
    }

    /// Builds the state of a freshly created account: exactly one entry,
    /// the reserved path, holding the resource's canonical serialization.
    #[verifier::rlimit(50)]
    pub fn from_account_resource(res: &AccountResource) -> (s: AccountState)
        requires
            res.wf(),
        ensures
            s.wf(),
            s.entries().len() == 1,
            s.spec_get(spec_account_resource_path()) == Some(spec_encode_resource(*res)),
            forall|k: Seq<u8>|
                k != spec_account_resource_path() ==> #[trigger] s.spec_get(k) is None,
    {
        let ghost pv = spec_account_resource_path();
        let ghost ev = spec_encode_resource(*res);
        let mut v: Vec<(Vec<u8>, Vec<u8>)> = Vec::new();
        v.push((account_resource_path(), encode_resource(res)));
        let s = AccountState(v);
        proof {
            let e = s.entries();
            assert(e.len() == 1);
            assert(e[0].0 == pv && e[0].1 == ev);
            assert(s.spec_get(pv) == Some(ev));
            assert(e.skip(1) =~= Seq::<(Seq<u8>, Seq<u8>)>::empty());
            assert forall|k: Seq<u8>| k != pv implies #[trigger] s.spec_get(k) is None by {
                assert(assoc_get(e.skip(1), k) is None);
            }
        }
        s
    }
}

/// Inserting then reading back round-trips: after an insert of `v` at
/// `k` (stated here as `insert`'s postcondition relating the two
/// states), a lookup of `k` yields exactly `v`.
pub proof fn lemma_insert_then_get(pre: AccountState, post: AccountState, k: Seq<u8>, v: Seq<u8>)
    requires
        forall|q: Seq<u8>| #[trigger]
            post.spec_get(q) == (if q == k {
                Some(v)
            } else {
                pre.spec_get(q)
            }),
    ensures
        post.spec_get(k) == Some(v),
{
    assert(post.spec_get(k) == Some(v));
}

/// Removing then reading back yields absent: after a removal of `k`
/// (stated here as `remove`'s postcondition relating the two states), a
/// lookup of `k` finds nothing, and every other path is untouched.
pub proof fn lemma_remove_then_get(pre: AccountState, post: AccountState, k: Seq<u8>)
    requires
        forall|q: Seq<u8>| #[trigger]
            post.spec_get(q) == (if q == k {
                None
            } else {
                pre.spec_get(q)
            }),
    ensures
        post.spec_get(k) is None,
        forall|q: Seq<u8>| q != k ==> #[trigger] post.spec_get(q) == pre.spec_get(q),
{
    assert(post.spec_get(k) is None);
}

impl Default for AccountState {
    /// An empty store: no resource at any path.
    fn default() -> (s: AccountState)
        ensures
            s.wf(),
            s.entries().len() == 0,
            forall|k: Seq<u8>| #[trigger] s.spec_get(k) is None,
    {
        let s = AccountState(Vec::new());
        proof {
            assert(s.entries() =~= Seq::<(Seq<u8>, Seq<u8>)>::empty());
            assert forall|k: Seq<u8>| #[trigger] s.spec_get(k) is None by {
                lemma_assoc_none(s.entries(), k);
            }
        }
        s
    }
}

} // verus!
