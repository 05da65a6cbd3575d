use vstd::prelude::*;
use vstd::std_specs::cmp::PartialEqSpecImpl;

verus! {

broadcast use vstd::array::group_array_axioms;

/// A principal identifier, laid out as `len` significant bytes followed by
/// zero padding up to 29 bytes.
#[derive(Clone, Copy, Debug)]
pub struct Principal {
    pub len: u8,
    pub bytes: [u8; 29],
}

/// Principal of the anonymous caller: a single byte 0x04.
pub open spec fn anonymous_spec() -> Principal {
    Principal {
        len: 1,
        bytes: [4u8, 0, 0, 0, 0, 0, 0, 0, 0, 0, 0, 0, 0, 0, 0, 0, 0, 0, 0, 0, 0, 0, 0, 0, 0, 0, 0, 0, 0],
    }
}

/// Calls `candid::Principal::anonymous`, which the crate builds as the
/// one-byte identifier 0x04 (length 1, the rest of the array zero), and
/// copies its length and backing array.
#[verifier::external_body]
pub fn anonymous() -> (p: Principal)
    ensures
        p == anonymous_spec(),
{
    let c = candid::Principal::anonymous();
    Principal { len: c.len(), bytes: *c.as_fixed_bytes() }
}

impl PartialEq for Principal {
    fn eq(&self, other: &Self) -> (r: bool) {
        if self.len != other.len {
            return false;
        }
        let mut i: usize = 0;
        while i < 29
            invariant
                i <= 29,
                forall|j: int| 0 <= j < i ==> self.bytes[j] == other.bytes[j],
            decreases 29 - i,
        {
            if self.bytes[i] != other.bytes[i] {
                return false;
            }
            i = i + 1;
        }
        assert(self.bytes =~= other.bytes);
        true
    }
}

impl PartialEqSpecImpl for Principal {
    open spec fn obeys_eq_spec() -> bool {
        true
    }

    open spec fn eq_spec(&self, other: &Self) -> bool {
        *self == *other
    }
}

impl Eq for Principal {
}

/// Result of comparing two keys.
#[derive(Clone, Copy, Debug, PartialEq, Eq, Structural)]
pub enum KeyOrder {
    Less,
    Equal,
    Greater,
}

/// `a` comes before `b` in lexicographic order: they agree up to some
/// position, where `a` holds the smaller byte.
pub open spec fn bytes_lt(a: Seq<u8>, b: Seq<u8>) -> bool {
    exists|i: int|
        0 <= i < a.len() && i < b.len() && a[i] < b[i] && (forall|j: int|
            0 <= j < i ==> #[trigger] a[j] == #[trigger] b[j])
}

/// Order of principals: shorter first, then by the bytes.
pub open spec fn principal_lt(a: Principal, b: Principal) -> bool {
    a.len < b.len || (a.len == b.len && bytes_lt(a.bytes@, b.bytes@))
}

/// Lexicographic order is transitive.
pub proof fn lemma_bytes_lt_transitive(a: Seq<u8>, b: Seq<u8>, c: Seq<u8>)
    requires
        a.len() == b.len(),
        b.len() == c.len(),
        bytes_lt(a, b),
        bytes_lt(b, c),
    ensures
        bytes_lt(a, c),
{
    let i = choose|i: int|
        0 <= i < a.len() && i < b.len() && a[i] < b[i] && (forall|j: int|
            0 <= j < i ==> #[trigger] a[j] == #[trigger] b[j]);
    let k = choose|k: int|
        0 <= k < b.len() && k < c.len() && b[k] < c[k] && (forall|j: int|
            0 <= j < k ==> #[trigger] b[j] == #[trigger] c[j]);
    let m = if i < k { i } else { k };
    assert(forall|j: int| 0 <= j < m ==> #[trigger] a[j] == #[trigger] c[j]) by {
        assert forall|j: int| 0 <= j < m implies #[trigger] a[j] == #[trigger] c[j] by {
            assert(a[j] == b[j]);
            assert(b[j] == c[j]);
        }
    }
    assert(a[m] < c[m]);
}

/// Lexicographic order is asymmetric.
pub proof fn lemma_bytes_lt_asymmetric(a: Seq<u8>, b: Seq<u8>)
    requires
        bytes_lt(a, b),
    ensures
        !bytes_lt(b, a),
{
    if bytes_lt(b, a) {
        let i = choose|i: int|
            0 <= i < a.len() && i < b.len() && a[i] < b[i] && (forall|j: int|
                0 <= j < i ==> #[trigger] a[j] == #[trigger] b[j]);
        let k = choose|k: int|
            0 <= k < b.len() && k < a.len() && b[k] < a[k] && (forall|j: int|
                0 <= j < k ==> #[trigger] b[j] == #[trigger] a[j]);
        if i < k {
            assert(b[i] == a[i]);
        } else if k < i {
            assert(a[k] == b[k]);
        }
    }
}

/// Principal order is transitive.
pub proof fn lemma_principal_lt_transitive(a: Principal, b: Principal, c: Principal)
    requires
        principal_lt(a, b),
        principal_lt(b, c),
    ensures
        principal_lt(a, c),
{
    if a.len == b.len && b.len == c.len {
        lemma_bytes_lt_transitive(a.bytes@, b.bytes@, c.bytes@);
    }
}

/// Principal order is irreflexive and asymmetric.
pub proof fn lemma_principal_lt_asymmetric(a: Principal, b: Principal)
    requires
        principal_lt(a, b),
    ensures
        !principal_lt(b, a),
        a != b,
{
    if a.len == b.len {
        lemma_bytes_lt_asymmetric(a.bytes@, b.bytes@);
    }
}

/// Compares two principals: first by length, then byte by byte.
pub fn compare_principals(a: &Principal, b: &Principal) -> (r: KeyOrder)
    ensures
        r == KeyOrder::Less <==> principal_lt(*a, *b),
        r == KeyOrder::Equal <==> *a == *b,
        r == KeyOrder::Greater <==> principal_lt(*b, *a),
{
    if a.len < b.len {
        proof {
            lemma_principal_lt_asymmetric(*a, *b);
        }
        return KeyOrder::Less;
    }
    if a.len > b.len {
        proof {
            lemma_principal_lt_asymmetric(*b, *a);
        }
        return KeyOrder::Greater;
    }
    let mut i: usize = 0;
    while i < 29
        invariant
            i <= 29,
            a.len == b.len,
            forall|j: int| 0 <= j < i ==> a.bytes[j] == b.bytes[j],
        decreases 29 - i,
    {
        if a.bytes[i] < b.bytes[i] {
            proof {
                assert(forall|j: int| 0 <= j < i ==> #[trigger] a.bytes@[j] == #[trigger] b.bytes@[j]);
                assert(bytes_lt(a.bytes@, b.bytes@));
                lemma_principal_lt_asymmetric(*a, *b);
            }
            return KeyOrder::Less;
        }
        if a.bytes[i] > b.bytes[i] {
            proof {
                assert(forall|j: int| 0 <= j < i ==> #[trigger] b.bytes@[j] == #[trigger] a.bytes@[j]);
                assert(bytes_lt(b.bytes@, a.bytes@));
                lemma_principal_lt_asymmetric(*b, *a);
            }
            return KeyOrder::Greater;
        }
        i = i + 1;
    }
    assert(a.bytes =~= b.bytes);
    proof {
        if bytes_lt(a.bytes@, b.bytes@) {
            let k = choose|k: int|
                0 <= k < a.bytes@.len() && k < b.bytes@.len() && a.bytes@[k] < b.bytes@[k] && (
                forall|j: int| 0 <= j < k ==> #[trigger] a.bytes@[j] == #[trigger] b.bytes@[j]);
            assert(a.bytes[k] == b.bytes[k]);
        }
    }
    KeyOrder::Equal
}

impl Principal {
    /// Whether this is the anonymous principal.
    pub fn is_anonymous(&self) -> (r: bool)
        ensures
            r == (*self == anonymous_spec()),
    {
        let a = anonymous();
        *self == a
    }
}

/// A set of principals, kept in the order they were first inserted.
#[derive(Debug)]
pub struct PrincipalSet {
    pub items: Vec<Principal>,
}

/// No principal occurs twice.
pub open spec fn principals_distinct(s: Seq<Principal>) -> bool {
    forall|i: int, j: int| 0 <= i < s.len() && 0 <= j < s.len() && i != j ==> #[trigger] s[i] != #[trigger] s[j]
}

/// The elements of `s` from position `skip` on, at most `take` of them.
pub open spec fn seq_window<T>(s: Seq<T>, skip: int, take: int) -> Seq<T> {
    if skip >= s.len() {
        Seq::empty()
    } else if skip + take >= s.len() {
        s.subrange(skip, s.len() as int)
    } else {
        s.subrange(skip, skip + take)
    }
}

/// A window skips `skip` items and then holds the next `take` of them, or
/// all that remain when fewer do; it is empty past the end.
pub proof fn lemma_seq_window_shape<T>(s: Seq<T>, skip: int, take: int)
    requires
        skip >= 0,
        take >= 0,
    ensures
        seq_window(s, skip, take).len() == if skip >= s.len() {
            0
        } else if take < s.len() - skip {
            take
        } else {
            s.len() - skip
        },
        forall|i: int| 0 <= i < seq_window(s, skip, take).len() ==> #[trigger] seq_window(s, skip, take)[i]
            == s[skip + i],
{
}

/// Position of `p` in `s`.
pub open spec fn index_of_principal(s: Seq<Principal>, p: Principal) -> int {
    choose|i: int| 0 <= i < s.len() && s[i] == p
}

/// The set after toggling `p`: removed if present, appended otherwise.
pub open spec fn principal_toggle_spec(s: Seq<Principal>, p: Principal) -> Seq<Principal> {
    if s.contains(p) {
        s.remove(index_of_principal(s, p))
    } else {
        s.push(p)
    }
}

/// One toggle flips the membership of `p` and of nothing else: an absent
/// principal is appended at the end, a present one is taken out, and no
/// principal ever occurs twice.
pub proof fn lemma_principal_toggle_once(s: Seq<Principal>, p: Principal)
    requires
        principals_distinct(s),
    ensures
        principal_toggle_spec(s, p).contains(p) == !s.contains(p),
        forall|x: Principal| x != p ==> principal_toggle_spec(s, p).contains(x) == s.contains(x),
        principals_distinct(principal_toggle_spec(s, p)),
        !s.contains(p) ==> principal_toggle_spec(s, p) == s.push(p),
        s.contains(p) ==> principal_toggle_spec(s, p).len() == s.len() - 1,
{
    let r = principal_toggle_spec(s, p);
    if s.contains(p) {
        let k = index_of_principal(s, p);
        assert(r == s.remove(k));
        assert(!r.contains(p)) by {
            if r.contains(p) {
                let j = choose|j: int| 0 <= j < r.len() && r[j] == p;
                let j2 = if j < k { j } else { j + 1 };
                assert(s[j2] == r[j]);
            }
        }
        assert forall|x: Principal| x != p implies r.contains(x) == s.contains(x) by {
            if s.contains(x) {
                let j = choose|j: int| 0 <= j < s.len() && s[j] == x;
                let j2 = if j < k { j } else { j - 1 };
                assert(r[j2] == s[j]);
            }
            if r.contains(x) {
                let j = choose|j: int| 0 <= j < r.len() && r[j] == x;
                let j2 = if j < k { j } else { j + 1 };
                assert(s[j2] == r[j]);
            }
        }
        assert forall|a: int, b: int| 0 <= a < r.len() && 0 <= b < r.len() && a != b implies r[a] != r[b] by {
            let a2 = if a < k { a } else { a + 1 };
            let b2 = if b < k { b } else { b + 1 };
            assert(r[a] == s[a2]);
            assert(r[b] == s[b2]);
        }
    } else {
        assert(r[r.len() - 1] == p);
        assert forall|x: Principal| x != p implies r.contains(x) == s.contains(x) by {
            if s.contains(x) {
                let j = choose|j: int| 0 <= j < s.len() && s[j] == x;
                assert(r[j] == s[j]);
            }
            if r.contains(x) {
                let j = choose|j: int| 0 <= j < r.len() && r[j] == x;
                assert(j < s.len());
                assert(s[j] == r[j]);
            }
        }
    }
}

/// Toggling a principal twice leaves the same members; when it was absent,
/// the set is exactly as before.
pub proof fn lemma_principal_toggle_twice(s: Seq<Principal>, p: Principal)
    requires
        principals_distinct(s),
    ensures
        forall|x: Principal| principal_toggle_spec(principal_toggle_spec(s, p), p).contains(x) == s.contains(x),
        !s.contains(p) ==> principal_toggle_spec(principal_toggle_spec(s, p), p) == s,
{
    if s.contains(p) {
        let k = index_of_principal(s, p);
        let t = s.remove(k);
        assert(!t.contains(p)) by {
            if t.contains(p) {
                let j = choose|j: int| 0 <= j < t.len() && t[j] == p;
                let j2 = if j < k { j } else { j + 1 };
                assert(s[j2] == t[j]);
            }
        }
        let u = t.push(p);
        assert forall|x: Principal| u.contains(x) == s.contains(x) by {
            if x == p {
                assert(u[u.len() - 1] == p);
            } else {
                if s.contains(x) {
                    let j = choose|j: int| 0 <= j < s.len() && s[j] == x;
                    let j2 = if j < k { j } else { j - 1 };
                    assert(t[j2] == s[j]);
                    assert(u[j2] == t[j2]);
                }
                if u.contains(x) {
                    let j = choose|j: int| 0 <= j < u.len() && u[j] == x;
                    assert(u[j] == t[j]);
                    let j2 = if j < k { j } else { j + 1 };
                    assert(s[j2] == t[j]);
                }
            }
        }
    } else {
        let t = s.push(p);
        assert(t[s.len() as int] == p);
        let k = index_of_principal(t, p);
        if k != s.len() {
            assert(s[k] == p);
        }
        assert(t.remove(s.len() as int) =~= s);
    }
}

impl View for PrincipalSet {
    type V = Seq<Principal>;

    open spec fn view(&self) -> Seq<Principal> {
        self.items@
    }
}

impl PrincipalSet {
    pub open spec fn wf(&self) -> bool {
        principals_distinct(self@)
    }

    pub fn new() -> (s: PrincipalSet)
        ensures
            s@ == Seq::<Principal>::empty(),
            s.wf(),
    {
        PrincipalSet { items: Vec::new() }
    }

    pub fn len(&self) -> (n: usize)
        ensures
            n == self@.len(),
    {
        self.items.len()
    }

    pub fn contains(&self, p: &Principal) -> (r: bool)
        ensures
            r == self@.contains(*p),
    {
        let mut i: usize = 0;
        while i < self.items.len()
            invariant
                i <= self@.len(),
                forall|t: int| 0 <= t < i ==> self@[t] != *p,
            decreases self@.len() - i,
        {
            if self.items[i] == *p {
                return true;
            }
            i = i + 1;
        }
        false
    }

    /// Adds `p`; returns whether it was not there before.
    pub fn insert(&mut self, p: Principal) -> (added: bool)
        requires
            old(self).wf(),
        ensures
            final(self).wf(),
            added == !old(self)@.contains(p),
            added ==> final(self)@ == old(self)@.push(p),
            !added ==> final(self)@ == old(self)@,
    {
        if self.contains(&p) {
            return false;
        }
        self.items.push(p);
        proof {
            let s = self@;
            assert forall|i: int, j: int|
                0 <= i < s.len() && 0 <= j < s.len() && i != j implies #[trigger] s[i] != #[trigger] s[j] by {
                if i == s.len() - 1 {
                    assert(old(self)@[j] == s[j]);
                } else if j == s.len() - 1 {
                    assert(old(self)@[i] == s[i]);
                } else {
                    assert(old(self)@[i] == s[i]);
                    assert(old(self)@[j] == s[j]);
                }
            }
        }
        true
    }

    /// Removes `p`; returns whether it was there.
    pub fn remove(&mut self, p: &Principal) -> (removed: bool)
        requires
            old(self).wf(),
        ensures
            final(self).wf(),
            removed == old(self)@.contains(*p),
            !final(self)@.contains(*p),
            !removed ==> final(self)@ == old(self)@,
            forall|i: int|
                0 <= i < old(self)@.len() && #[trigger] old(self)@[i] == *p ==> final(self)@ == old(
                    self,
                )@.remove(i),
    {
        let mut i: usize = 0;
        while i < self.items.len()
            invariant
                i <= self@.len(),
                self@ == old(self)@,
                old(self).wf(),
                forall|t: int| 0 <= t < i ==> self@[t] != *p,
            decreases self@.len() - i,
        {
            if self.items[i] == *p {
                self.items.remove(i);
                proof {
                    let s = old(self)@;
                    let r = self@;
                    assert(r =~= s.remove(i as int));
                    assert forall|a: int, b: int|
                        0 <= a < r.len() && 0 <= b < r.len() && a != b implies #[trigger] r[a]
                        != #[trigger] r[b] by {
                        let a2 = if a < i { a } else { a + 1 };
                        let b2 = if b < i { b } else { b + 1 };
                        assert(r[a] == s[a2]);
                        assert(r[b] == s[b2]);
                    }
                    assert forall|t: int| 0 <= t < r.len() implies #[trigger] r[t] != *p by {
                        let t2 = if t < i { t } else { t + 1 };
                        assert(r[t] == s[t2]);
                    }
                    assert forall|t: int| 0 <= t < s.len() && #[trigger] s[t] == *p implies t == i by {
                        if t != i {
                            assert(s[t] != s[i as int]);
                        }
                    }
                }
                return true;
            }
            i = i + 1;
        }
        false
    }

    /// The principals from position `skip` on, at most `take` of them.
    pub fn window(&self, skip: u64, take: u64) -> (r: Vec<Principal>)
        ensures
            r@ == seq_window(self@, skip as int, take as int),
    {
        let n = self.items.len();
        let mut r: Vec<Principal> = Vec::new();
        if skip >= n as u64 {
            return r;
        }
        let start = skip as usize;
        let end: usize = if take >= (n - start) as u64 {
            n
        } else {
            start + take as usize
        };
        let mut i: usize = start;
        while i < end
            invariant
                start <= i <= end,
                end <= n,
                n == self@.len(),
                r@ == self@.subrange(start as int, i as int),
            decreases end - i,
        {
            r.push(self.items[i]);
            i = i + 1;
            assert(r@ =~= self@.subrange(start as int, i as int));
        }
        r
    }
}

} // verus!
