//! Totals over the documents of a scan.
//!
//! Counts per region and per format are kept with their keys in ascending
//! order (the order of `String`, that is of the characters' code points), so
//! they do not depend on the order in which documents were found.
use crate::model::{Document, F32Bits, Summary};
use vstd::prelude::*;
use vstd::seq_lib::{to_multiset_build, to_multiset_contains, to_multiset_len, to_multiset_remove};

verus! {

// ---------------------------------------------------------------------------
// Order of keys
// ---------------------------------------------------------------------------

/// `a` comes before `b`: lexicographic order by code point, a proper prefix
/// first (the order of `String`).
pub open spec fn key_lt(a: Seq<char>, b: Seq<char>) -> bool
    decreases a.len(),
{
    if a.len() == 0 {
        b.len() > 0
    } else if b.len() == 0 {
        false
    } else if a[0] != b[0] {
        a[0] < b[0]
    } else {
        key_lt(a.drop_first(), b.drop_first())
    }
}

pub proof fn lemma_key_lt_irreflexive(a: Seq<char>)
    ensures
        !key_lt(a, a),
    decreases a.len(),
{
    if a.len() > 0 {
        lemma_key_lt_irreflexive(a.drop_first());
    }
}

pub proof fn lemma_key_lt_transitive(a: Seq<char>, b: Seq<char>, c: Seq<char>)
    requires
        key_lt(a, b),
        key_lt(b, c),
    ensures
        key_lt(a, c),
    decreases a.len(),
{
    if a.len() > 0 && b.len() > 0 && c.len() > 0 && a[0] == b[0] && b[0] == c[0] {
        lemma_key_lt_transitive(a.drop_first(), b.drop_first(), c.drop_first());
    }
}

pub proof fn lemma_key_lt_total(a: Seq<char>, b: Seq<char>)
    ensures
        a == b || key_lt(a, b) || key_lt(b, a),
    decreases a.len(),
{
    if a.len() == 0 && b.len() == 0 {
        assert(a =~= b);
    } else if a.len() > 0 && b.len() > 0 && a[0] == b[0] {
        lemma_key_lt_total(a.drop_first(), b.drop_first());
        if a.drop_first() == b.drop_first() {
            assert(a =~= seq![a[0]] + a.drop_first());
            assert(b =~= seq![b[0]] + b.drop_first());
        }
    }
}

proof fn lemma_key_lt_asymmetric(a: Seq<char>, b: Seq<char>)
    requires
        key_lt(a, b),
    ensures
        !key_lt(b, a),
        a != b,
{
    lemma_key_lt_irreflexive(a);
    if key_lt(b, a) {
        lemma_key_lt_transitive(a, b, a);
    }
}

// ---------------------------------------------------------------------------
// Count maps
// ---------------------------------------------------------------------------

/// Entries in strictly ascending order of their keys (so no key twice).
pub open spec fn keys_sorted(t: Seq<(Seq<char>, nat)>) -> bool {
    forall|i: int, j: int| #![trigger t[i], t[j]] 0 <= i < j < t.len() ==> key_lt(t[i].0, t[j].0)
}

/// Every entry counts at least one.
pub open spec fn counts_positive(t: Seq<(Seq<char>, nat)>) -> bool {
    forall|i: int| 0 <= i < t.len() ==> (#[trigger] t[i]).1 > 0
}

/// The count for `k` (0 when `k` has no entry).
pub open spec fn count_of(t: Seq<(Seq<char>, nat)>, k: Seq<char>) -> nat
    decreases t.len(),
{
    if t.len() == 0 {
        0
    } else {
        (if t[0].0 == k {
            t[0].1
        } else {
            0nat
        }) + count_of(t.drop_first(), k)
    }
}

/// The sum of the counts.
pub open spec fn total_count(t: Seq<(Seq<char>, nat)>) -> nat
    decreases t.len(),
{
    if t.len() == 0 {
        0
    } else {
        t[0].1 + total_count(t.drop_first())
    }
}

/// `t` with `n` more for `k`: its entry increased, or a new entry placed in
/// key order.
pub open spec fn bump(t: Seq<(Seq<char>, nat)>, k: Seq<char>, n: nat) -> Seq<(Seq<char>, nat)>
    decreases t.len(),
{
    if t.len() == 0 {
        seq![(k, n)]
    } else if t[0].0 == k {
        t.update(0, (k, t[0].1 + n))
    } else if key_lt(k, t[0].0) {
        seq![(k, n)] + t
    } else {
        seq![t[0]] + bump(t.drop_first(), k, n)
    }
}

/// The count of each key of `keys`, keys ascending.
pub open spec fn tally(keys: Seq<Seq<char>>) -> Seq<(Seq<char>, nat)>
    decreases keys.len(),
{
    if keys.len() == 0 {
        Seq::empty()
    } else {
        bump(tally(keys.drop_last()), keys.last(), 1)
    }
}

/// How often `k` occurs in `keys`.
pub open spec fn occurrences(keys: Seq<Seq<char>>, k: Seq<char>) -> nat
    decreases keys.len(),
{
    if keys.len() == 0 {
        0
    } else {
        occurrences(keys.drop_last(), k) + if keys.last() == k {
            1nat
        } else {
            0nat
        }
    }
}

/// The region of each document.
pub open spec fn region_keys(docs: Seq<Document>) -> Seq<Seq<char>> {
    docs.map_values(region_of_doc())
}

/// The region of a document.
pub open spec fn region_of_doc() -> spec_fn(Document) -> Seq<char> {
    |d: Document| d.region@
}

/// The format of a document.
pub open spec fn format_of_doc() -> spec_fn(Document) -> Seq<char> {
    |d: Document| d.source.format@
}

/// The format of each document.
pub open spec fn format_keys(docs: Seq<Document>) -> Seq<Seq<char>> {
    docs.map_values(format_of_doc())
}

/// The number of rows of all documents.
pub open spec fn rows_total(docs: Seq<Document>) -> nat
    decreases docs.len(),
{
    if docs.len() == 0 {
        0
    } else {
        rows_total(docs.drop_last()) + docs.last().rows@.len()
    }
}

/// The view of a list of entries.
pub open spec fn entries_view(e: Seq<(String, usize)>) -> Seq<(Seq<char>, nat)> {
    Seq::new(e.len(), |i: int| (e[i].0@, e[i].1 as nat))
}

proof fn lemma_entries_view_push(s: Seq<(String, usize)>, e: (String, usize))
    ensures
        entries_view(s.push(e)) == entries_view(s).push((e.0@, e.1 as nat)),
{
    assert(entries_view(s.push(e)) =~= entries_view(s).push((e.0@, e.1 as nat)));
}

/// Number of documents for each key, keys in ascending order.
pub struct CountMap {
    entries: Vec<(String, usize)>,
}

impl View for CountMap {
    type V = Seq<(Seq<char>, nat)>;

    closed spec fn view(&self) -> Seq<(Seq<char>, nat)> {
        entries_view(self.entries@)
    }
}

impl CountMap {
    /// Keys are strictly ascending, so each occurs once.
    #[verifier::type_invariant]
    spec fn keys_ascending(self) -> bool {
        keys_sorted(entries_view(self.entries@))
    }

    /// No entries.
    pub fn new() -> (res: Self)
        ensures
            res@ == Seq::<(Seq<char>, nat)>::empty(),
    {
        let res = CountMap { entries: Vec::new() };
        assert(entries_view(res.entries@) =~= Seq::<(Seq<char>, nat)>::empty());
        res
    }

    /// The entries, keys ascending.
    pub fn entries(&self) -> (res: &Vec<(String, usize)>)
        ensures
            entries_view(res@) == self@,
            keys_sorted(self@),
    {
        proof {
            use_type_invariant(self);
        }
        &self.entries
    }

    /// The map with `n` more for `key`.
    pub fn with_added(self, key: &String, n: usize) -> (res: Self)
        requires
            count_of(self@, key@) + n <= usize::MAX,
        ensures
            res@ == bump(self@, key@, n as nat),
    {
        proof {
            use_type_invariant(&self);
        }
        let ghost t = self@;
        let CountMap { entries } = self;
        let len = entries.len();
        let mut out: Vec<(String, usize)> = Vec::new();
        let mut i: usize = 0;
        while i < len && str_lt(&entries[i].0, key)
            invariant
                i <= len,
                len == entries@.len(),
                t == entries_view(entries@),
                keys_sorted(t),
                entries_view(out@) == t.take(i as int),
                forall|q: int| 0 <= q < i ==> key_lt(#[trigger] t[q].0, key@),
            decreases len - i,
        {
            let ghost before = out@;
            let e = (entries[i].0.clone(), entries[i].1);
            assert(e.0@ == t[i as int].0 && e.1 as nat == t[i as int].1);
            out.push(e);
            proof {
                lemma_entries_view_push(before, e);
                assert(t.take(i as int).push(t[i as int]) =~= t.take(i + 1));
            }
            assert(entries_view(out@) =~= t.take(i + 1));
            i += 1;
        }
        proof {
            if i < len {
                lemma_key_lt_total(t[i as int].0, key@);
            }
            lemma_bump_at(t, key@, n as nat, i as int);
        }
        let found = i < len && entries[i].0 == *key;
        if found {
            let c = entries[i].1;
            proof {
                lemma_count_of_at(t, i as int);
            }
            out.push((key.clone(), c + n));
        } else {
            out.push((key.clone(), n));
        }
        let start: usize = if found {
            i + 1
        } else {
            i
        };
        let ghost mid = entries_view(out@);
        assert(mid =~= t.take(i as int) + seq![
            if found {
                (key@, (t[i as int].1 + n) as nat)
            } else {
                (key@, n as nat)
            },
        ]);
        let mut next = start;
        assert(t.subrange(start as int, start as int) =~= Seq::<(Seq<char>, nat)>::empty());
        assert(entries_view(out@) =~= mid + t.subrange(start as int, next as int));
        while next < len
            invariant
                start <= next <= len,
                len == entries@.len(),
                t == entries_view(entries@),
                entries_view(out@) == mid + t.subrange(start as int, next as int),
            decreases len - next,
        {
            let ghost before = out@;
            let e = (entries[next].0.clone(), entries[next].1);
            assert(e.0@ == t[next as int].0 && e.1 as nat == t[next as int].1);
            out.push(e);
            proof {
                lemma_entries_view_push(before, e);
            }
            let ghost want = mid + t.subrange(start as int, next + 1);
            assert(mid + t.subrange(start as int, next as int).push(t[next as int]) =~= want);
            assert(entries_view(out@) =~= want);
            next += 1;
        }
        proof {
            lemma_bump(t, key@, n as nat);
        }
        assert(entries_view(out@) =~= bump(t, key@, n as nat));
        let res = CountMap { entries: out };
        res
    }
}

// ---------------------------------------------------------------------------
// Laws of count maps and tallies
// ---------------------------------------------------------------------------

proof fn lemma_sorted_drop_first(t: Seq<(Seq<char>, nat)>)
    requires
        keys_sorted(t),
        t.len() > 0,
    ensures
        keys_sorted(t.drop_first()),
{
    let r = t.drop_first();
    assert forall|i: int, j: int| 0 <= i < j < r.len() implies #[trigger] key_lt(r[i].0, r[j].0) by {
        assert(r[i] == t[i + 1] && r[j] == t[j + 1]);
        assert(key_lt(t[i + 1].0, t[j + 1].0));
    }
}

proof fn lemma_sorted_cons(h: (Seq<char>, nat), s: Seq<(Seq<char>, nat)>)
    requires
        keys_sorted(s),
        s.len() > 0 ==> key_lt(h.0, s[0].0),
    ensures
        keys_sorted(seq![h] + s),
{
    let u = seq![h] + s;
    assert forall|i: int, j: int| 0 <= i < j < u.len() implies #[trigger] key_lt(u[i].0, u[j].0) by {
        if i == 0 {
            if j > 1 {
                assert(key_lt(s[0].0, s[j - 1].0));
                lemma_key_lt_transitive(h.0, s[0].0, s[j - 1].0);
            }
        } else {
            assert(key_lt(s[i - 1].0, s[j - 1].0));
        }
    }
}

/// A key with no entry counts 0.
proof fn lemma_count_absent(t: Seq<(Seq<char>, nat)>, x: Seq<char>)
    requires
        forall|i: int| 0 <= i < t.len() ==> (#[trigger] t[i]).0 != x,
    ensures
        count_of(t, x) == 0,
    decreases t.len(),
{
    if t.len() > 0 {
        let r = t.drop_first();
        assert(t[0].0 != x);
        assert forall|i: int| 0 <= i < r.len() implies (#[trigger] r[i]).0 != x by {
            assert(r[i] == t[i + 1]);
        }
        lemma_count_absent(r, x);
    }
}

/// In a sorted map, the count for an entry's key is that entry's count.
proof fn lemma_count_of_at(t: Seq<(Seq<char>, nat)>, i: int)
    requires
        keys_sorted(t),
        0 <= i < t.len(),
    ensures
        count_of(t, t[i].0) == t[i].1,
    decreases t.len(),
{
    let r = t.drop_first();
    lemma_sorted_drop_first(t);
    if i == 0 {
        assert forall|j: int| 0 <= j < r.len() implies (#[trigger] r[j]).0 != t[0].0 by {
            assert(key_lt(t[0].0, t[j + 1].0));
            lemma_key_lt_asymmetric(t[0].0, t[j + 1].0);
        }
        lemma_count_absent(r, t[0].0);
    } else {
        assert(key_lt(t[0].0, t[i].0));
        lemma_key_lt_asymmetric(t[0].0, t[i].0);
        lemma_count_of_at(r, i - 1);
        assert(r[i - 1] == t[i]);
    }
}

/// Where `bump` puts `k`: after the `i` entries with smaller keys.
proof fn lemma_bump_at(t: Seq<(Seq<char>, nat)>, k: Seq<char>, n: nat, i: int)
    requires
        keys_sorted(t),
        0 <= i <= t.len(),
        forall|q: int| 0 <= q < i ==> key_lt(#[trigger] t[q].0, k),
        i == t.len() || !key_lt(t[i].0, k),
    ensures
        bump(t, k, n) == (if i < t.len() && t[i].0 == k {
            t.take(i) + seq![(k, t[i].1 + n)] + t.subrange(i + 1, t.len() as int)
        } else {
            t.take(i) + seq![(k, n)] + t.subrange(i, t.len() as int)
        }),
    decreases i,
{
    if i == 0 {
        if t.len() == 0 {
            assert(seq![(k, n)] + t.subrange(0, 0) =~= seq![(k, n)]);
            assert(t.take(0) + seq![(k, n)] + t.subrange(0, 0) =~= seq![(k, n)]);
        } else if t[0].0 == k {
            assert(t.update(0, (k, t[0].1 + n)) =~= t.take(0) + seq![(k, t[0].1 + n)] + t.subrange(
                1,
                t.len() as int,
            ));
        } else {
            lemma_key_lt_total(t[0].0, k);
            assert(seq![(k, n)] + t =~= t.take(0) + seq![(k, n)] + t.subrange(0, t.len() as int));
        }
    } else {
        let r = t.drop_first();
        assert(key_lt(t[0].0, k));
        lemma_key_lt_asymmetric(t[0].0, k);
        lemma_sorted_drop_first(t);
        assert forall|q: int| 0 <= q < i - 1 implies key_lt(#[trigger] r[q].0, k) by {
            assert(r[q] == t[q + 1]);
        }
        if i < t.len() {
            assert(r[i - 1] == t[i]);
        }
        lemma_bump_at(r, k, n, i - 1);
        if i < t.len() && t[i].0 == k {
            assert(seq![t[0]] + (r.take(i - 1) + seq![(k, r[i - 1].1 + n)] + r.subrange(
                i,
                r.len() as int,
            )) =~= t.take(i) + seq![(k, t[i].1 + n)] + t.subrange(i + 1, t.len() as int));
        } else {
            assert(seq![t[0]] + (r.take(i - 1) + seq![(k, n)] + r.subrange(i - 1, r.len() as int))
                =~= t.take(i) + seq![(k, n)] + t.subrange(i, t.len() as int));
        }
    }
}

/// `bump` keeps a map sorted, adds `n` to the count of `k` and to the total,
/// and keeps counts positive when `n` is.
pub proof fn lemma_bump(t: Seq<(Seq<char>, nat)>, k: Seq<char>, n: nat)
    requires
        keys_sorted(t),
    ensures
        keys_sorted(bump(t, k, n)),
        bump(t, k, n).len() > 0,
        bump(t, k, n)[0].0 == k || (t.len() > 0 && bump(t, k, n)[0].0 == t[0].0),
        forall|x: Seq<char>|
            #[trigger] count_of(bump(t, k, n), x) == count_of(t, x) + (if x == k {
                n
            } else {
                0nat
            }),
        total_count(bump(t, k, n)) == total_count(t) + n,
        counts_positive(t) && n > 0 ==> counts_positive(bump(t, k, n)),
    decreases t.len(),
{
    let b = bump(t, k, n);
    if t.len() == 0 {
        assert(b.drop_first() =~= Seq::<(Seq<char>, nat)>::empty());
        assert forall|x: Seq<char>| #[trigger] count_of(b, x) == count_of(t, x) + (if x == k {
            n
        } else {
            0nat
        }) by {
            assert(count_of(b.drop_first(), x) == 0);
        }
        assert(total_count(b.drop_first()) == 0);
    } else if t[0].0 == k {
        let r = t.drop_first();
        assert(b.drop_first() =~= r);
        assert forall|i: int, j: int| 0 <= i < j < b.len() implies #[trigger] key_lt(b[i].0, b[j].0) by {
            assert(key_lt(t[i].0, t[j].0));
        }
        assert forall|x: Seq<char>| #[trigger] count_of(b, x) == count_of(t, x) + (if x == k {
            n
        } else {
            0nat
        }) by {
            assert(count_of(b, x) == (if b[0].0 == x { b[0].1 } else { 0nat }) + count_of(r, x));
            assert(count_of(t, x) == (if t[0].0 == x { t[0].1 } else { 0nat }) + count_of(r, x));
        }
        assert(total_count(b) == b[0].1 + total_count(r));
        assert(counts_positive(t) && n > 0 ==> counts_positive(b)) by {
            if counts_positive(t) && n > 0 {
                assert forall|i: int| 0 <= i < b.len() implies (#[trigger] b[i]).1 > 0 by {
                    if i > 0 {
                        assert(b[i] == t[i]);
                    }
                }
            }
        }
    } else if key_lt(k, t[0].0) {
        lemma_sorted_cons((k, n), t);
        assert(b.drop_first() =~= t);
        assert forall|x: Seq<char>| #[trigger] count_of(b, x) == count_of(t, x) + (if x == k {
            n
        } else {
            0nat
        }) by {
            assert(count_of(b, x) == (if b[0].0 == x { b[0].1 } else { 0nat }) + count_of(t, x));
        }
        assert(total_count(b) == b[0].1 + total_count(t));
        assert(counts_positive(t) && n > 0 ==> counts_positive(b)) by {
            if counts_positive(t) && n > 0 {
                assert forall|i: int| 0 <= i < b.len() implies (#[trigger] b[i]).1 > 0 by {
                    if i > 0 {
                        assert(b[i] == t[i - 1]);
                    }
                }
            }
        }
    } else {
        let r = t.drop_first();
        lemma_key_lt_total(t[0].0, k);
        lemma_sorted_drop_first(t);
        lemma_bump(r, k, n);
        let br = bump(r, k, n);
        if br[0].0 != k {
            assert(key_lt(t[0].0, t[1].0));
        }
        lemma_sorted_cons(t[0], br);
        assert(b =~= seq![t[0]] + br);
        assert(b.drop_first() =~= br);
        assert forall|x: Seq<char>| #[trigger] count_of(b, x) == count_of(t, x) + (if x == k {
            n
        } else {
            0nat
        }) by {
            assert(count_of(b, x) == (if b[0].0 == x { b[0].1 } else { 0nat }) + count_of(br, x));
            assert(count_of(t, x) == (if t[0].0 == x { t[0].1 } else { 0nat }) + count_of(r, x));
            assert(count_of(br, x) == count_of(r, x) + (if x == k { n } else { 0nat }));
        }
        assert(total_count(b) == b[0].1 + total_count(br));
        assert(counts_positive(t) && n > 0 ==> counts_positive(b)) by {
            if counts_positive(t) && n > 0 {
                assert(counts_positive(r)) by {
                    assert forall|i: int| 0 <= i < r.len() implies (#[trigger] r[i]).1 > 0 by {
                        assert(r[i] == t[i + 1]);
                    }
                }
                assert forall|i: int| 0 <= i < b.len() implies (#[trigger] b[i]).1 > 0 by {
                    if i > 0 {
                        assert(b[i] == br[i - 1]);
                    }
                }
            }
        }
    }
}

/// A tally is sorted, counts every key as often as it occurs (and only
/// keys that occur), and its counts add up to the number of keys.
pub proof fn lemma_tally(keys: Seq<Seq<char>>)
    ensures
        keys_sorted(tally(keys)),
        counts_positive(tally(keys)),
        forall|x: Seq<char>| #[trigger] count_of(tally(keys), x) == occurrences(keys, x),
        total_count(tally(keys)) == keys.len(),
    decreases keys.len(),
{
    if keys.len() > 0 {
        lemma_tally(keys.drop_last());
        lemma_bump(tally(keys.drop_last()), keys.last(), 1);
    }
}

/// Two sorted maps with positive counts that count every key alike are
/// equal.
pub proof fn lemma_count_map_unique(t1: Seq<(Seq<char>, nat)>, t2: Seq<(Seq<char>, nat)>)
    requires
        keys_sorted(t1),
        keys_sorted(t2),
        counts_positive(t1),
        counts_positive(t2),
        forall|x: Seq<char>| #[trigger] count_of(t1, x) == count_of(t2, x),
    ensures
        t1 == t2,
    decreases t1.len() + t2.len(),
{
    if t1.len() == 0 && t2.len() == 0 {
        assert(t1 =~= t2);
    } else if t1.len() == 0 {
        lemma_count_of_at(t2, 0);
        assert(count_of(t1, t2[0].0) == count_of(t2, t2[0].0));
    } else if t2.len() == 0 {
        lemma_count_of_at(t1, 0);
        assert(count_of(t1, t1[0].0) == count_of(t2, t1[0].0));
    } else {
        let a = t1[0].0;
        let b = t2[0].0;
        lemma_count_of_at(t1, 0);
        lemma_count_of_at(t2, 0);
        lemma_key_lt_total(a, b);
        if key_lt(a, b) {
            assert forall|j: int| 0 <= j < t2.len() implies (#[trigger] t2[j]).0 != a by {
                if j > 0 {
                    assert(key_lt(b, t2[j].0));
                    lemma_key_lt_transitive(a, b, t2[j].0);
                    lemma_key_lt_irreflexive(a);
                } else {
                    lemma_key_lt_irreflexive(a);
                }
            }
            lemma_count_absent(t2, a);
            assert(count_of(t1, a) == count_of(t2, a));
        } else if key_lt(b, a) {
            assert forall|j: int| 0 <= j < t1.len() implies (#[trigger] t1[j]).0 != b by {
                if j > 0 {
                    assert(key_lt(a, t1[j].0));
                    lemma_key_lt_transitive(b, a, t1[j].0);
                    lemma_key_lt_irreflexive(b);
                } else {
                    lemma_key_lt_irreflexive(b);
                }
            }
            lemma_count_absent(t1, b);
            assert(count_of(t1, b) == count_of(t2, b));
        } else {
            assert(count_of(t1, a) == count_of(t2, a));
            let r1 = t1.drop_first();
            let r2 = t2.drop_first();
            lemma_sorted_drop_first(t1);
            lemma_sorted_drop_first(t2);
            assert forall|x: Seq<char>| #[trigger] count_of(r1, x) == count_of(r2, x) by {
                assert(count_of(t1, x) == count_of(t2, x));
            }
            assert(counts_positive(r1)) by {
                assert forall|i: int| 0 <= i < r1.len() implies (#[trigger] r1[i]).1 > 0 by {
                    assert(r1[i] == t1[i + 1]);
                }
            }
            assert(counts_positive(r2)) by {
                assert forall|i: int| 0 <= i < r2.len() implies (#[trigger] r2[i]).1 > 0 by {
                    assert(r2[i] == t2[i + 1]);
                }
            }
            lemma_count_map_unique(r1, r2);
            assert(t1 =~= seq![t1[0]] + r1);
            assert(t2 =~= seq![t2[0]] + r2);
        }
    }
}

/// How often a key occurs is its count in the multiset of keys.
proof fn lemma_occurrences_multiset(keys: Seq<Seq<char>>, x: Seq<char>)
    ensures
        occurrences(keys, x) == keys.to_multiset().count(x),
    decreases keys.len(),
{
    broadcast use vstd::multiset::group_multiset_axioms;

    if keys.len() == 0 {
        to_multiset_len(keys);
        assert(keys.to_multiset() =~= vstd::multiset::Multiset::empty());
    } else {
        let p = keys.drop_last();
        lemma_occurrences_multiset(p, x);
        assert(keys =~= p.push(keys.last()));
        to_multiset_build(p, keys.last());
    }
}

/// Tallies of the same keys in any order are equal.
pub proof fn lemma_tally_order_free(k1: Seq<Seq<char>>, k2: Seq<Seq<char>>)
    requires
        k1.to_multiset() == k2.to_multiset(),
    ensures
        tally(k1) == tally(k2),
{
    lemma_tally(k1);
    lemma_tally(k2);
    assert forall|x: Seq<char>| #[trigger] count_of(tally(k1), x) == count_of(tally(k2), x) by {
        lemma_occurrences_multiset(k1, x);
        lemma_occurrences_multiset(k2, x);
    }
    lemma_count_map_unique(tally(k1), tally(k2));
}

/// Mapping two sequences with equal multisets gives sequences with equal
/// multisets.
proof fn lemma_map_values_multiset<A, B>(s1: Seq<A>, s2: Seq<A>, f: spec_fn(A) -> B)
    requires
        s1.to_multiset() == s2.to_multiset(),
    ensures
        s1.map_values(f).to_multiset() == s2.map_values(f).to_multiset(),
    decreases s1.len(),
{
    broadcast use vstd::multiset::group_multiset_axioms;

    to_multiset_len(s1);
    to_multiset_len(s2);
    if s1.len() == 0 {
        assert(s1.map_values(f) =~= s2.map_values(f));
    } else {
        let l = s1.last();
        let p1 = s1.drop_last();
        assert(s1 =~= p1.push(l));
        to_multiset_build(p1, l);
        to_multiset_contains(s2, l);
        let j = choose|j: int| 0 <= j < s2.len() && s2[j] == l;
        let p2 = s2.remove(j);
        to_multiset_remove(s2, j);
        assert(p2.to_multiset() =~= p1.to_multiset());
        lemma_map_values_multiset(p1, p2, f);
        let m1 = s1.map_values(f);
        let m2 = s2.map_values(f);
        assert(m1 =~= p1.map_values(f).push(f(l)));
        to_multiset_build(p1.map_values(f), f(l));
        assert(m2.remove(j) =~= p2.map_values(f));
        to_multiset_remove(m2, j);
        assert(m2[j] == f(l));
        to_multiset_contains(m2, f(l));
        assert(m2.to_multiset() =~= p2.map_values(f).to_multiset().insert(f(l)));
    }
}

/// Removing a document removes its rows from the total.
proof fn lemma_rows_total_remove(d: Seq<Document>, j: int)
    requires
        0 <= j < d.len(),
    ensures
        rows_total(d) == rows_total(d.remove(j)) + d[j].rows@.len(),
    decreases d.len(),
{
    if j == d.len() - 1 {
        assert(d.remove(j) =~= d.drop_last());
    } else {
        lemma_rows_total_remove(d.drop_last(), j);
        assert(d.remove(j).drop_last() =~= d.drop_last().remove(j));
        assert(d.remove(j).last() == d.last());
    }
}

/// Documents in any order have the same number of rows.
proof fn lemma_rows_total_order_free(d1: Seq<Document>, d2: Seq<Document>)
    requires
        d1.to_multiset() == d2.to_multiset(),
    ensures
        rows_total(d1) == rows_total(d2),
    decreases d1.len(),
{
    broadcast use vstd::multiset::group_multiset_axioms;

    to_multiset_len(d1);
    to_multiset_len(d2);
    if d1.len() > 0 {
        let l = d1.last();
        let p1 = d1.drop_last();
        assert(d1 =~= p1.push(l));
        to_multiset_build(p1, l);
        to_multiset_contains(d2, l);
        let j = choose|j: int| 0 <= j < d2.len() && d2[j] == l;
        let p2 = d2.remove(j);
        to_multiset_remove(d2, j);
        assert(p2.to_multiset() =~= p1.to_multiset());
        lemma_rows_total_order_free(p1, p2);
        lemma_rows_total_remove(d2, j);
    }
}

/// The summary does not depend on the order of the documents: documents in
/// any order have the same number of documents and rows, and the same
/// counts by region and by format, keys in the same order.
pub proof fn lemma_summary_order_free(d1: Seq<Document>, d2: Seq<Document>)
    requires
        d1.to_multiset() == d2.to_multiset(),
    ensures
        d1.len() == d2.len(),
        rows_total(d1) == rows_total(d2),
        tally(region_keys(d1)) == tally(region_keys(d2)),
        tally(format_keys(d1)) == tally(format_keys(d2)),
{
    to_multiset_len(d1);
    to_multiset_len(d2);
    lemma_rows_total_order_free(d1, d2);
    lemma_map_values_multiset(d1, d2, region_of_doc());
    lemma_map_values_multiset(d1, d2, format_of_doc());
    lemma_tally_order_free(region_keys(d1), region_keys(d2));
    lemma_tally_order_free(format_keys(d1), format_keys(d2));
}

/// A key occurs at most as often as there are keys.
proof fn lemma_occurrences_bound(keys: Seq<Seq<char>>, x: Seq<char>)
    ensures
        occurrences(keys, x) <= keys.len(),
    decreases keys.len(),
{
    if keys.len() > 0 {
        lemma_occurrences_bound(keys.drop_last(), x);
    }
}

// ---------------------------------------------------------------------------
// Executable functions
// ---------------------------------------------------------------------------

/// Whether `a` comes before `b` (`a < b` on `String`).
pub fn str_lt(a: &String, b: &String) -> (res: bool)
    ensures
        res == key_lt(a@, b@),
{
    let x = crate::text::chars_of(a.as_str());
    let y = crate::text::chars_of(b.as_str());
    let mut i: usize = 0;
    assert(a@.skip(0) =~= a@);
    assert(b@.skip(0) =~= b@);
    loop
        invariant
            i <= x@.len(),
            i <= y@.len(),
            x@ == a@,
            y@ == b@,
            key_lt(a@, b@) == key_lt(a@.skip(i as int), b@.skip(i as int)),
        decreases x@.len() - i,
    {
        if i == x.len() {
            return i < y.len();
        }
        if i == y.len() {
            return false;
        }
        assert(a@.skip(i as int)[0] == x@[i as int]);
        assert(b@.skip(i as int)[0] == y@[i as int]);
        if x[i] != y[i] {
            return x[i] < y[i];
        }
        assert(a@.skip(i as int).drop_first() =~= a@.skip(i + 1));
        assert(b@.skip(i as int).drop_first() =~= b@.skip(i + 1));
        i += 1;
    }
}

/// Tallies the region or the format of each document.
fn tally_documents(docs: &Vec<Document>, by_format: bool) -> (res: CountMap)
    ensures
        res@ == tally(if by_format {
            format_keys(docs@)
        } else {
            region_keys(docs@)
        }),
{
    let ghost keys = if by_format {
        format_keys(docs@)
    } else {
        region_keys(docs@)
    };
    let mut map = CountMap::new();
    assert(map@ =~= tally(keys.take(0)));
    let n = docs.len();
    let mut i: usize = 0;
    while i < n
        invariant
            i <= n,
            n == docs@.len(),
            keys.len() == n,
            keys == (if by_format {
                format_keys(docs@)
            } else {
                region_keys(docs@)
            }),
            map@ == tally(keys.take(i as int)),
        decreases n - i,
    {
        let key = if by_format {
            &docs[i].source.format
        } else {
            &docs[i].region
        };
        assert(keys.take(i + 1).drop_last() =~= keys.take(i as int));
        assert(key@ == keys[i as int]);
        proof {
            lemma_tally(keys.take(i as int));
            lemma_occurrences_bound(keys.take(i as int), key@);
        }
        map = map.with_added(key, 1);
        i += 1;
    }
    assert(keys.take(n as int) =~= keys);
    map
}

/// Totals over `docs`: the number of documents and of rows, the number of
/// documents for each region and each format, and the given mean confidence.
pub fn build_summary(docs: &Vec<Document>, avg_confidence: F32Bits) -> (res: Summary)
    requires
        rows_total(docs@) <= usize::MAX,
    ensures
        res.total_documents == docs@.len(),
        res.total_rows == rows_total(docs@),
        res.avg_confidence == avg_confidence,
        res.by_region@ == tally(region_keys(docs@)),
        res.by_format@ == tally(format_keys(docs@)),
{
    let n = docs.len();
    let mut total_rows: usize = 0;
    let mut i: usize = 0;
    while i < n
        invariant
            i <= n,
            n == docs@.len(),
            total_rows == rows_total(docs@.take(i as int)),
            rows_total(docs@) <= usize::MAX,
        decreases n - i,
    {
        assert(docs@.take(i + 1).drop_last() =~= docs@.take(i as int));
        proof {
            lemma_rows_total_prefix(docs@, i + 1);
        }
        total_rows = total_rows + docs[i].rows.len();
        i += 1;
    }
    assert(docs@.take(n as int) =~= docs@);
    Summary {
        total_documents: n,
        total_rows,
        avg_confidence,
        by_region: tally_documents(docs, false),
        by_format: tally_documents(docs, true),
    }
}

/// The rows of a prefix are no more than the rows of all documents.
proof fn lemma_rows_total_prefix(docs: Seq<Document>, i: int)
    requires
        0 <= i <= docs.len(),
    ensures
        rows_total(docs.take(i)) <= rows_total(docs),
    decreases docs.len() - i,
{
    if i < docs.len() {
        lemma_rows_total_prefix(docs, i + 1);
        assert(docs.take(i + 1).drop_last() =~= docs.take(i));
    } else {
        assert(docs.take(i) =~= docs);
    }
}

} // verus!
