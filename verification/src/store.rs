//! In-memory ordered byte store.
//!
//! The lookup index consumes a "put / get / delete / scan ordered byte
//! ranges" capability. This store models that capability exactly: a map
//! from byte keys to byte values whose iteration order is the unsigned
//! byte-wise order of the keys. Entries are kept sorted strictly ascending,
//! so keys are unique and a prefix scan returns a contiguous run.

use vstd::prelude::*;
use vstd::seq_lib::*;
use crate::ordering::{
    lex_lt, has_prefix, lemma_lex_lt_irrefl, lemma_lex_lt_total, lemma_lex_lt_trans,
};

verus! {

/// One stored entry as seen in contracts: key bytes and value bytes.
pub open spec fn entry_view(e: (Vec<u8>, Vec<u8>)) -> (Seq<u8>, Seq<u8>) {
    (e.0@, e.1@)
}

/// The contract-level view of a run of entries.
pub open spec fn entries_view(es: Seq<(Vec<u8>, Vec<u8>)>) -> Seq<(Seq<u8>, Seq<u8>)> {
    es.map_values(|e: (Vec<u8>, Vec<u8>)| entry_view(e))
}

/// Keys strictly ascend in unsigned byte-wise order; in particular they are
/// unique.
pub open spec fn store_sorted(es: Seq<(Seq<u8>, Seq<u8>)>) -> bool {
    forall|i: int, j: int|
        0 <= i < j < es.len() ==> lex_lt(#[trigger] es[i].0, #[trigger] es[j].0)
}

/// The value bound to `k` in a run of entries, front to back.
pub open spec fn spec_find(es: Seq<(Seq<u8>, Seq<u8>)>, k: Seq<u8>) -> Option<Seq<u8>>
    decreases es.len(),
{
    if es.len() == 0 {
        None
    } else if es[0].0 == k {
        Some(es[0].1)
    } else {
        spec_find(es.drop_first(), k)
    }
}

/// The map a run of entries represents.
pub open spec fn entries_map(es: Seq<(Seq<u8>, Seq<u8>)>) -> Map<Seq<u8>, Seq<u8>> {
    Map::new(
        |k: Seq<u8>| spec_find(es, k) is Some,
        |k: Seq<u8>|
            match spec_find(es, k) {
                Some(v) => v,
                None => Seq::empty(),
            },
    )
}

/// Finding in a concatenation: the front run wins.
pub proof fn lemma_find_concat(u: Seq<(Seq<u8>, Seq<u8>)>, w: Seq<(Seq<u8>, Seq<u8>)>, k: Seq<u8>)
    ensures
        spec_find(u + w, k) == if spec_find(u, k) is Some {
            spec_find(u, k)
        } else {
            spec_find(w, k)
        },
    decreases u.len(),
{
    if u.len() == 0 {
        assert(u + w =~= w);
    } else {
        assert((u + w).drop_first() =~= u.drop_first() + w);
        lemma_find_concat(u.drop_first(), w, k);
    }
}

/// A one-entry run with another key does not find `k`.
pub proof fn lemma_find_single_other(e: (Seq<u8>, Seq<u8>), k: Seq<u8>)
    requires
        e.0 != k,
    ensures
        spec_find(seq![e], k) is None,
{
    let s = seq![e];
    assert(s.drop_first() =~= Seq::<(Seq<u8>, Seq<u8>)>::empty());
    assert(spec_find(s.drop_first(), k) is None);
}

/// A run none of whose keys is `k` does not find `k`.
pub proof fn lemma_find_none(es: Seq<(Seq<u8>, Seq<u8>)>, k: Seq<u8>)
    requires
        forall|i: int| 0 <= i < es.len() ==> (#[trigger] es[i]).0 != k,
    ensures
        spec_find(es, k) is None,
    decreases es.len(),
{
    if es.len() > 0 {
        lemma_find_none(es.drop_first(), k);
    }
}

/// What a three-part splice finds: the front, then the middle entry, then
/// the back.
proof fn lemma_find_splice(
    front: Seq<(Seq<u8>, Seq<u8>)>,
    e: (Seq<u8>, Seq<u8>),
    back: Seq<(Seq<u8>, Seq<u8>)>,
    k: Seq<u8>,
)
    ensures
        spec_find(front + seq![e] + back, k) == if spec_find(front, k) is Some {
            spec_find(front, k)
        } else if e.0 == k {
            Some(e.1)
        } else {
            spec_find(back, k)
        },
{
    assert(front + seq![e] + back =~= front + (seq![e] + back));
    lemma_find_concat(front, seq![e] + back, k);
    lemma_find_concat(seq![e], back, k);
    if e.0 == k {
        assert(spec_find(seq![e], k) == Some(e.1));
    } else {
        lemma_find_single_other(e, k);
    }
}

/// A splice whose front sorts below the middle entry and whose back sorts
/// above it is sorted.
proof fn lemma_sorted_splice(
    front: Seq<(Seq<u8>, Seq<u8>)>,
    e: (Seq<u8>, Seq<u8>),
    back: Seq<(Seq<u8>, Seq<u8>)>,
)
    requires
        store_sorted(front),
        store_sorted(back),
        forall|f: int| 0 <= f < front.len() ==> lex_lt((#[trigger] front[f]).0, e.0),
        forall|b: int| 0 <= b < back.len() ==> lex_lt(e.0, (#[trigger] back[b]).0),
    ensures
        store_sorted(front + seq![e] + back),
{
    let s = front + seq![e] + back;
    let fl = front.len() as int;
    assert forall|x: int, y: int| 0 <= x < y < s.len() implies lex_lt(
        #[trigger] s[x].0,
        #[trigger] s[y].0,
    ) by {
        if x < fl {
            assert(s[x] == front[x]);
        } else if x > fl {
            assert(s[x] == back[x - fl - 1]);
        }
        if y < fl {
            assert(s[y] == front[y]);
        } else if y > fl {
            assert(s[y] == back[y - fl - 1]);
        }
        if x < fl && y > fl {
            lemma_lex_lt_trans(front[x].0, e.0, back[y - fl - 1].0);
        }
    }
}

/// A sorted run stays sorted when one index is cut out.
proof fn lemma_sorted_cut(es: Seq<(Seq<u8>, Seq<u8>)>, i: int)
    requires
        store_sorted(es),
        0 <= i < es.len(),
    ensures
        store_sorted(es.take(i) + es.skip(i + 1)),
{
    let s = es.take(i) + es.skip(i + 1);
    assert forall|x: int, y: int| 0 <= x < y < s.len() implies lex_lt(
        #[trigger] s[x].0,
        #[trigger] s[y].0,
    ) by {
        let ox = if x < i {
            x
        } else {
            x + 1
        };
        let oy = if y < i {
            y
        } else {
            y + 1
        };
        assert(s[x] == es[ox]);
        assert(s[y] == es[oy]);
    }
}

/// The ordered store: an embedded, byte-sorted key-value map.
pub struct OrderedStore {
    entries: Vec<(Vec<u8>, Vec<u8>)>,
}

impl View for OrderedStore {
    type V = Seq<(Seq<u8>, Seq<u8>)>;

    closed spec fn view(&self) -> Seq<(Seq<u8>, Seq<u8>)> {
        entries_view(self.entries@)
    }
}

/// Exact byte-wise comparison of two byte strings.
pub fn bytes_eq(a: &Vec<u8>, b: &Vec<u8>) -> (r: bool)
    ensures
        r == (a@ == b@),
{
    if a.len() != b.len() {
        return false;
    }
    let mut i: usize = 0;
    while i < a.len()
        invariant
            a@.len() == b@.len(),
            i <= a@.len(),
            forall|j: int| 0 <= j < i ==> a@[j] == b@[j],
        decreases a@.len() - i,
    {
        if a[i] != b[i] {
            return false;
        }
        i = i + 1;
    }
    proof {
        assert(a@ =~= b@);
    }
    true
}

/// Prefixes that agree position by position leave the byte-wise order of
/// two strings to their remainders.
proof fn lemma_lex_skip(a: Seq<u8>, b: Seq<u8>, i: int)
    requires
        0 <= i <= a.len(),
        i <= b.len(),
        forall|j: int| 0 <= j < i ==> a[j] == b[j],
    ensures
        lex_lt(a, b) == lex_lt(a.skip(i), b.skip(i)),
    decreases i,
{
    if i > 0 {
        assert(a.drop_first().skip(i - 1) =~= a.skip(i));
        assert(b.drop_first().skip(i - 1) =~= b.skip(i));
        lemma_lex_skip(a.drop_first(), b.drop_first(), i - 1);
    } else {
        assert(a.skip(0) =~= a);
        assert(b.skip(0) =~= b);
    }
}

/// Strict unsigned byte-wise comparison of two byte strings.
pub fn bytes_lex_lt(a: &Vec<u8>, b: &Vec<u8>) -> (r: bool)
    ensures
        r == lex_lt(a@, b@),
{
    let mut i: usize = 0;
    while i < a.len() && i < b.len()
        invariant
            i <= a@.len(),
            i <= b@.len(),
            forall|j: int| 0 <= j < i ==> a@[j] == b@[j],
        decreases a@.len() - i,
    {
        let x = a[i];
        let y = b[i];
        if x < y {
            proof {
                lemma_lex_skip(a@, b@, i as int);
                assert(a@.skip(i as int)[0] == x);
                assert(b@.skip(i as int)[0] == y);
            }
            return true;
        }
        if x > y {
            proof {
                lemma_lex_skip(a@, b@, i as int);
                assert(a@.skip(i as int)[0] == x);
                assert(b@.skip(i as int)[0] == y);
            }
            return false;
        }
        i = i + 1;
    }
    proof {
        lemma_lex_skip(a@, b@, i as int);
    }
    i == a.len() && i < b.len()
}

/// True when `p` is a byte prefix of `k`.
pub fn bytes_has_prefix(k: &Vec<u8>, p: &Vec<u8>) -> (r: bool)
    ensures
        r == has_prefix(k@, p@),
{
    if p.len() > k.len() {
        assert(!has_prefix(k@, p@));
        return false;
    }
    let mut i: usize = 0;
    while i < p.len()
        invariant
            p@.len() <= k@.len(),
            i <= p@.len(),
            forall|j: int| 0 <= j < i ==> k@[j] == p@[j],
        decreases p@.len() - i,
    {
        if k[i] != p[i] {
            assert(k@.take(p@.len() as int)[i as int] != p@[i as int]);
            return false;
        }
        i = i + 1;
    }
    proof {
        assert(k@.take(p@.len() as int) =~= p@);
    }
    true
}

impl OrderedStore {
    /// True when the store's entries strictly ascend in byte-wise key
    /// order; every operation preserves it.
    pub open spec fn wf(&self) -> bool {
        store_sorted(self@)
    }

    /// The store as the map it represents.
    pub open spec fn as_map(&self) -> Map<Seq<u8>, Seq<u8>> {
        entries_map(self@)
    }

    /// An empty store.
    pub fn new() -> (r: Self)
        ensures
            r.wf(),
            r@ == Seq::<(Seq<u8>, Seq<u8>)>::empty(),
    {
        let r = OrderedStore { entries: Vec::new() };
        proof {
            assert(r@ =~= Seq::<(Seq<u8>, Seq<u8>)>::empty());
        }
        r
    }

    /// Point lookup; absence is not an error.
    pub fn get(&self, key: &Vec<u8>) -> (r: Option<Vec<u8>>)
        ensures
            match r {
                Some(v) => spec_find(self@, key@) == Some(v@),
                None => spec_find(self@, key@) is None,
            },
    {
        let n = self.entries.len();
        let mut i: usize = 0;
        proof {
            assert(self@.skip(0) =~= self@);
        }
        while i < n
            invariant
                n == self.entries@.len(),
                i <= n,
                self@ == entries_view(self.entries@),
                spec_find(self@, key@) == spec_find(self@.skip(i as int), key@),
            decreases n - i,
        {
            proof {
                assert(self@.skip(i as int)[0] == entry_view(self.entries@[i as int]));
                assert(self@.skip(i as int).drop_first() =~= self@.skip(i + 1));
            }
            if bytes_eq(&self.entries[i].0, key) {
                let v = vstd::slice::slice_to_vec(self.entries[i].1.as_slice());
                return Some(v);
            }
            i = i + 1;
        }
        proof {
            assert(self@.skip(n as int) =~= Seq::<(Seq<u8>, Seq<u8>)>::empty());
        }
        None
    }

    /// Unconditional upsert: after the call the key is bound to exactly
    /// this value and no other binding changes.
    pub fn put(&mut self, key: &Vec<u8>, value: Vec<u8>)
        requires
            old(self).wf(),
        ensures
            final(self).wf(),
            final(self).as_map() == old(self).as_map().insert(key@, value@),
            spec_find(final(self)@, key@) == Some(value@),
            forall|k: Seq<u8>|
                k != key@ ==> #[trigger] spec_find(final(self)@, k) == spec_find(old(self)@, k),
    {
        let ghost oldv = self@;
        let n = self.entries.len();
        let mut i: usize = 0;
        while i < n && bytes_lex_lt(&self.entries[i].0, key)
            invariant
                n == self.entries@.len(),
                i <= n,
                self@ == entries_view(self.entries@),
                oldv == self@,
                store_sorted(oldv),
                forall|j: int| 0 <= j < i ==> lex_lt((#[trigger] oldv[j]).0, key@),
            decreases n - i,
        {
            i = i + 1;
        }
        let key_copy = vstd::slice::slice_to_vec(key.as_slice());
        if i < n && bytes_eq(&self.entries[i].0, key) {
            self.entries.remove(i);
            self.entries.insert(i, (key_copy, value));
            proof {
                let front = oldv.take(i as int);
                let back = oldv.skip(i as int + 1);
                assert(self@ =~= front + seq![(key@, value@)] + back);
                assert(oldv =~= front + seq![oldv[i as int]] + back);
                self.lemma_put_post(oldv, front, back, oldv[i as int], key@, value@, i as int);
            }
        } else {
            proof {
                if i < n {
                    lemma_lex_lt_total(oldv[i as int].0, key@);
                }
            }
            self.entries.insert(i, (key_copy, value));
            proof {
                let front = oldv.take(i as int);
                let back = oldv.skip(i as int);
                assert(self@ =~= front + seq![(key@, value@)] + back);
                assert(oldv =~= front + back);
                self.lemma_put_post_fresh(oldv, front, back, key@, value@, i as int);
            }
        }
    }

    /// Post-state argument of `put` when an equal key was replaced at `i`.
    proof fn lemma_put_post(
        &self,
        oldv: Seq<(Seq<u8>, Seq<u8>)>,
        front: Seq<(Seq<u8>, Seq<u8>)>,
        back: Seq<(Seq<u8>, Seq<u8>)>,
        e: (Seq<u8>, Seq<u8>),
        k: Seq<u8>,
        v: Seq<u8>,
        i: int,
    )
        requires
            store_sorted(oldv),
            0 <= i < oldv.len(),
            front == oldv.take(i),
            back == oldv.skip(i + 1),
            e == oldv[i],
            e.0 == k,
            self@ == front + seq![(k, v)] + back,
            oldv == front + seq![e] + back,
        ensures
            store_sorted(self@),
            spec_find(self@, k) == Some(v),
            forall|k2: Seq<u8>|
                k2 != k ==> #[trigger] spec_find(self@, k2) == spec_find(oldv, k2),
            entries_map(self@) == entries_map(oldv).insert(k, v),
    {
        assert forall|f: int| 0 <= f < front.len() implies lex_lt((#[trigger] front[f]).0, k) by {
            assert(front[f] == oldv[f]);
        }
        assert forall|b: int| 0 <= b < back.len() implies lex_lt(k, (#[trigger] back[b]).0) by {
            assert(back[b] == oldv[i + 1 + b]);
        }
        lemma_sorted_splice(front, (k, v), back);
        assert forall|f: int| 0 <= f < front.len() implies (#[trigger] front[f]).0 != k by {
            lemma_lex_lt_irrefl(k);
            if front[f].0 == k {
                assert(lex_lt(k, k));
            }
        }
        lemma_find_none(front, k);
        lemma_find_splice(front, (k, v), back, k);
        assert forall|k2: Seq<u8>| k2 != k implies #[trigger] spec_find(self@, k2) == spec_find(
            oldv,
            k2,
        ) by {
            lemma_find_splice(front, (k, v), back, k2);
            lemma_find_splice(front, e, back, k2);
        }
        assert(entries_map(self@) =~~= entries_map(oldv).insert(k, v));
    }

    /// Post-state argument of `put` when a fresh key was inserted at `i`.
    proof fn lemma_put_post_fresh(
        &self,
        oldv: Seq<(Seq<u8>, Seq<u8>)>,
        front: Seq<(Seq<u8>, Seq<u8>)>,
        back: Seq<(Seq<u8>, Seq<u8>)>,
        k: Seq<u8>,
        v: Seq<u8>,
        i: int,
    )
        requires
            store_sorted(oldv),
            0 <= i <= oldv.len(),
            front == oldv.take(i),
            back == oldv.skip(i),
            forall|j: int| 0 <= j < i ==> lex_lt((#[trigger] oldv[j]).0, k),
            i < oldv.len() ==> oldv[i].0 != k && !lex_lt(oldv[i].0, k),
            i < oldv.len() ==> lex_lt(k, oldv[i].0),
            self@ == front + seq![(k, v)] + back,
            oldv == front + back,
        ensures
            store_sorted(self@),
            spec_find(self@, k) == Some(v),
            forall|k2: Seq<u8>|
                k2 != k ==> #[trigger] spec_find(self@, k2) == spec_find(oldv, k2),
            entries_map(self@) == entries_map(oldv).insert(k, v),
    {
        assert forall|f: int| 0 <= f < front.len() implies lex_lt((#[trigger] front[f]).0, k) by {
            assert(front[f] == oldv[f]);
        }
        assert forall|b: int| 0 <= b < back.len() implies lex_lt(k, (#[trigger] back[b]).0) by {
            assert(back[b] == oldv[i + b]);
            if b > 0 {
                assert(lex_lt(oldv[i].0, oldv[i + b].0));
                lemma_lex_lt_trans(k, oldv[i].0, oldv[i + b].0);
            }
        }
        lemma_sorted_splice(front, (k, v), back);
        assert forall|f: int| 0 <= f < front.len() implies (#[trigger] front[f]).0 != k by {
            lemma_lex_lt_irrefl(k);
            if front[f].0 == k {
                assert(lex_lt(k, k));
            }
        }
        lemma_find_none(front, k);
        lemma_find_splice(front, (k, v), back, k);
        assert forall|k2: Seq<u8>| k2 != k implies #[trigger] spec_find(self@, k2) == spec_find(
            oldv,
            k2,
        ) by {
            lemma_find_splice(front, (k, v), back, k2);
            lemma_find_concat(front, back, k2);
        }
        assert(entries_map(self@) =~~= entries_map(oldv).insert(k, v));
    }

    /// Removes the binding of `key`; absence is a no-op, not an error, and
    /// leaves the store untouched.
    pub fn delete(&mut self, key: &Vec<u8>)
        requires
            old(self).wf(),
        ensures
            final(self).wf(),
            final(self).as_map() == old(self).as_map().remove(key@),
            spec_find(final(self)@, key@) is None,
            forall|k: Seq<u8>|
                k != key@ ==> #[trigger] spec_find(final(self)@, k) == spec_find(old(self)@, k),
            spec_find(old(self)@, key@) is None ==> *final(self) == *old(self),
    {
        let ghost oldv = self@;
        let n = self.entries.len();
        let mut i: usize = 0;
        while i < n
            invariant
                n == self.entries@.len(),
                i <= n,
                self@ == entries_view(self.entries@),
                oldv == self@,
                store_sorted(oldv),
                *self == *old(self),
                forall|j: int| 0 <= j < i ==> (#[trigger] oldv[j]).0 != key@,
            decreases n - i,
        {
            if bytes_eq(&self.entries[i].0, key) {
                self.entries.remove(i);
                proof {
                    let front = oldv.take(i as int);
                    let back = oldv.skip(i as int + 1);
                    assert(self@ =~= front + back);
                    assert(oldv =~= front + seq![oldv[i as int]] + back);
                    self.lemma_delete_post(oldv, front, back, oldv[i as int], key@, i as int);
                    assert forall|f: int| 0 <= f < front.len() implies (#[trigger] front[f]).0
                        != key@ by {
                        assert(front[f] == oldv[f]);
                    }
                    lemma_find_none(front, key@);
                    lemma_find_splice(front, oldv[i as int], back, key@);
                    assert(spec_find(oldv, key@) is Some);
                }
                return;
            }
            i = i + 1;
        }
        proof {
            lemma_find_none(oldv, key@);
            assert(self.as_map() =~~= self.as_map().remove(key@));
        }
    }

    /// Post-state argument of `delete` when the key stood at `i`.
    proof fn lemma_delete_post(
        &self,
        oldv: Seq<(Seq<u8>, Seq<u8>)>,
        front: Seq<(Seq<u8>, Seq<u8>)>,
        back: Seq<(Seq<u8>, Seq<u8>)>,
        e: (Seq<u8>, Seq<u8>),
        k: Seq<u8>,
        i: int,
    )
        requires
            store_sorted(oldv),
            0 <= i < oldv.len(),
            front == oldv.take(i),
            back == oldv.skip(i + 1),
            e == oldv[i],
            e.0 == k,
            forall|j: int| 0 <= j < i ==> (#[trigger] oldv[j]).0 != k,
            self@ == front + back,
            oldv == front + seq![e] + back,
        ensures
            store_sorted(self@),
            spec_find(self@, k) is None,
            forall|k2: Seq<u8>|
                k2 != k ==> #[trigger] spec_find(self@, k2) == spec_find(oldv, k2),
            entries_map(self@) == entries_map(oldv).remove(k),
    {
        lemma_sorted_cut(oldv, i);
        assert forall|f: int| 0 <= f < front.len() implies (#[trigger] front[f]).0 != k by {
            assert(front[f] == oldv[f]);
        }
        assert forall|b: int| 0 <= b < back.len() implies (#[trigger] back[b]).0 != k by {
            assert(back[b] == oldv[i + 1 + b]);
            assert(lex_lt(oldv[i].0, oldv[i + 1 + b].0));
            lemma_lex_lt_irrefl(k);
            if back[b].0 == k {
                assert(lex_lt(k, k));
            }
        }
        lemma_find_none(front, k);
        lemma_find_none(back, k);
        lemma_find_concat(front, back, k);
        assert forall|k2: Seq<u8>| k2 != k implies #[trigger] spec_find(self@, k2) == spec_find(
            oldv,
            k2,
        ) by {
            lemma_find_concat(front, back, k2);
            lemma_find_splice(front, e, back, k2);
        }
        assert(entries_map(self@) =~~= entries_map(oldv).remove(k));
    }

    /// Range scan over the keys sharing `prefix`, in ascending byte-wise
    /// key order: exactly the store's entries whose key starts with the
    /// prefix, as one contiguous ordered run.
    pub fn scan_prefix(&self, prefix: &Vec<u8>) -> (r: Vec<(Vec<u8>, Vec<u8>)>)
        ensures
            entries_view(r@) == self@.filter(|e: (Seq<u8>, Seq<u8>)| has_prefix(e.0, prefix@)),
    {
        let ghost pred = |e: (Seq<u8>, Seq<u8>)| has_prefix(e.0, prefix@);
        let mut r: Vec<(Vec<u8>, Vec<u8>)> = Vec::new();
        let n = self.entries.len();
        let mut i: usize = 0;
        proof {
            reveal_with_fuel(Seq::<_>::filter, 2);
            assert(self@.take(0) =~= Seq::<(Seq<u8>, Seq<u8>)>::empty());
            assert(entries_view(r@) =~= self@.take(0).filter(pred));
        }
        while i < n
            invariant
                n == self.entries@.len(),
                i <= n,
                self@ == entries_view(self.entries@),
                entries_view(r@) == self@.take(i as int).filter(pred),
                pred == (|e: (Seq<u8>, Seq<u8>)| has_prefix(e.0, prefix@)),
            decreases n - i,
        {
            let ghost prev = entries_view(r@);
            if bytes_has_prefix(&self.entries[i].0, prefix) {
                let kc = vstd::slice::slice_to_vec(self.entries[i].0.as_slice());
                let vc = vstd::slice::slice_to_vec(self.entries[i].1.as_slice());
                r.push((kc, vc));
            }
            proof {
                reveal_with_fuel(Seq::<_>::filter, 2);
                let ev = self@[i as int];
                assert(self@.take(i + 1) =~= self@.take(i as int) + seq![ev]);
                Seq::filter_distributes_over_add(self@.take(i as int), seq![ev], pred);
                let single = seq![ev];
                assert(single.drop_last() =~= Seq::<(Seq<u8>, Seq<u8>)>::empty());
                assert(single.drop_last().filter(pred) =~= Seq::<(Seq<u8>, Seq<u8>)>::empty());
                assert(single.last() == ev);
                if pred(ev) {
                    assert(single.filter(pred) =~= seq![ev]);
                    assert(entries_view(r@) =~= prev + seq![ev]);
                } else {
                    assert(single.filter(pred) =~= Seq::<(Seq<u8>, Seq<u8>)>::empty());
                    assert(entries_view(r@) =~= prev);
                }
            }
            i = i + 1;
        }
        proof {
            assert(self@.take(n as int) =~= self@);
        }
        r
    }

    /// The number of entries held.
    pub fn len(&self) -> (r: usize)
        ensures
            r == self@.len(),
    {
        self.entries.len()
    }
}

} // verus!
