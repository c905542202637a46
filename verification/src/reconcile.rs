//! Merging credential lists: one entry per network, networks told apart by
//! their name in lower case, the list ordered by that key.

use vstd::prelude::*;
use crate::cred::{network_key, Credential, WifiCred};
use crate::text::{chars_of, same_text};

verus! {

/// `a` comes before `b` in the lexicographic order by code point.
pub open spec fn text_lt(a: Seq<char>, b: Seq<char>) -> bool
    decreases a.len(),
{
    if b.len() == 0 {
        false
    } else if a.len() == 0 {
        true
    } else if a[0] != b[0] {
        (a[0] as int) < (b[0] as int)
    } else {
        text_lt(a.skip(1), b.skip(1))
    }
}

/// No text comes before itself.
pub proof fn lemma_text_lt_irreflexive(a: Seq<char>)
    ensures
        !text_lt(a, a),
    decreases a.len(),
{
    if a.len() > 0 {
        lemma_text_lt_irreflexive(a.skip(1));
    }
}

/// The order is transitive.
pub proof fn lemma_text_lt_transitive(a: Seq<char>, b: Seq<char>, c: Seq<char>)
    requires
        text_lt(a, b),
        text_lt(b, c),
    ensures
        text_lt(a, c),
    decreases a.len(),
{
    if a.len() > 0 && a[0] == b[0] && b[0] == c[0] {
        lemma_text_lt_transitive(a.skip(1), b.skip(1), c.skip(1));
    }
}

/// Of two different texts one comes before the other.
pub proof fn lemma_text_lt_total(a: Seq<char>, b: Seq<char>)
    ensures
        text_lt(a, b) || a == b || text_lt(b, a),
    decreases a.len(),
{
    if a.len() > 0 && b.len() > 0 && a[0] == b[0] {
        lemma_text_lt_total(a.skip(1), b.skip(1));
        if a.skip(1) == b.skip(1) {
            assert(b =~= seq![b[0]] + b.skip(1));
        }
    }
}

/// Tells whether `a` comes before `b`.
pub fn text_less(a: &[char], b: &[char]) -> (r: bool)
    ensures
        r == text_lt(a@, b@),
{
    let mut i: usize = 0;
    assert(a@.skip(0) =~= a@);
    assert(b@.skip(0) =~= b@);
    loop
        invariant
            i <= a@.len(),
            i <= b@.len(),
            text_lt(a@.skip(i as int), b@.skip(i as int)) == text_lt(a@, b@),
        decreases a@.len() - i,
    {
        if i >= b.len() {
            return false;
        }
        if i >= a.len() {
            return true;
        }
        let c: char = a[i];
        let d: char = b[i];
        if c != d {
            return c < d;
        }
        assert(a@.skip(i as int).skip(1) =~= a@.skip(i + 1));
        assert(b@.skip(i as int).skip(1) =~= b@.skip(i + 1));
        i += 1;
    }
}

/// The keys of `m` ascend strictly; in particular no key occurs twice.
pub open spec fn sorted_by_key(m: Seq<Credential>) -> bool {
    forall|i: int, j: int|
        0 <= i < j < m.len() ==> text_lt(network_key(#[trigger] m[i]), network_key(#[trigger] m[j]))
}

/// The record has a name.
pub open spec fn has_name(c: Credential) -> bool {
    c.ssid.len() > 0
}

/// `m`, ordered by key, after `c` is put in: `c` replaces the entry of its
/// key, or is inserted where its key belongs.
pub open spec fn upsert(m: Seq<Credential>, c: Credential) -> Seq<Credential>
    decreases m.len(),
{
    if m.len() == 0 {
        seq![c]
    } else if text_lt(network_key(m[0]), network_key(c)) {
        seq![m[0]] + upsert(m.skip(1), c)
    } else if network_key(m[0]) == network_key(c) {
        seq![c] + m.skip(1)
    } else {
        seq![c] + m
    }
}

/// `m` after the records of `list` are put in, one after the other.
pub open spec fn merged_into(m: Seq<Credential>, list: Seq<Credential>) -> Seq<Credential>
    decreases list.len(),
{
    if list.len() == 0 {
        m
    } else {
        merged_into(upsert(m, list[0]), list.skip(1))
    }
}

/// The records of `m` that have a name, in the order of `m`.
pub open spec fn named(m: Seq<Credential>) -> Seq<Credential> {
    m.filter(|c: Credential| has_name(c))
}

/// The merge of two lists: the entries of `lower` by key, overlaid with the
/// entries of `higher`, without the records that have no name, ordered by key.
pub open spec fn merged(lower: Seq<Credential>, higher: Seq<Credential>) -> Seq<Credential> {
    named(merged_into(merged_into(Seq::empty(), lower), higher))
}

/// The record of `list` that counts for the key `k`: the last one with that
/// key.
pub open spec fn winner(list: Seq<Credential>, k: Seq<char>) -> Option<Credential>
    decreases list.len(),
{
    if list.len() == 0 {
        None
    } else {
        match winner(list.skip(1), k) {
            Some(x) => Some(x),
            None => if network_key(list[0]) == k {
                Some(list[0])
            } else {
                None
            },
        }
    }
}

/// The record that counts for the key `k` when `higher` takes precedence over
/// `lower`.
pub open spec fn merge_winner(lower: Seq<Credential>, higher: Seq<Credential>, k: Seq<char>)
    -> Option<Credential> {
    match winner(higher, k) {
        Some(x) => Some(x),
        None => winner(lower, k),
    }
}

/// What a list holds that begins with `h` and goes on with `t`.
proof fn lemma_contains_cons(h: Credential, t: Seq<Credential>, x: Credential)
    ensures
        (seq![h] + t).contains(x) <==> (x == h || t.contains(x)),
{
    let s = seq![h] + t;
    if x == h {
        assert(s[0] == x);
    }
    if t.contains(x) {
        let i = choose|i: int| 0 <= i < t.len() && t[i] == x;
        assert(s[i + 1] == x);
    }
}

/// What a list holds: its first record, and what the rest holds.
proof fn lemma_contains_split(m: Seq<Credential>, x: Credential)
    requires
        m.len() > 0,
    ensures
        m.contains(x) <==> (x == m[0] || m.skip(1).contains(x)),
{
    assert(m =~= seq![m[0]] + m.skip(1));
    lemma_contains_cons(m[0], m.skip(1), x);
}

/// A list in key order stays so with a record of a lesser key before it.
proof fn lemma_sorted_cons(h: Credential, t: Seq<Credential>)
    requires
        sorted_by_key(t),
        forall|x: Credential| t.contains(x) ==> text_lt(network_key(h), network_key(x)),
    ensures
        sorted_by_key(seq![h] + t),
{
    let s = seq![h] + t;
    assert forall|i: int, j: int| 0 <= i < j < s.len() implies text_lt(
        network_key(#[trigger] s[i]),
        network_key(#[trigger] s[j]),
    ) by {
        assert(t.contains(t[j - 1]));
    }
}

/// The rest of a list in key order is in key order, and its keys come
/// after the first.
proof fn lemma_sorted_tail(m: Seq<Credential>)
    requires
        sorted_by_key(m),
        m.len() > 0,
    ensures
        sorted_by_key(m.skip(1)),
        forall|x: Credential| #[trigger]
            m.skip(1).contains(x) ==> text_lt(network_key(m[0]), network_key(x)),
{
    let t = m.skip(1);
    assert forall|x: Credential| #[trigger] t.contains(x) implies text_lt(
        network_key(m[0]),
        network_key(x),
    ) by {
        let i = choose|i: int| 0 <= i < t.len() && t[i] == x;
        assert(t[i] == m[i + 1]);
    }
}

/// Putting a record into an ordered list keeps the order; the list then holds
/// the record, and of the others those of another key.
pub proof fn lemma_upsert(m: Seq<Credential>, c: Credential)
    requires
        sorted_by_key(m),
    ensures
        sorted_by_key(upsert(m, c)),
        forall|x: Credential| #[trigger]
            upsert(m, c).contains(x) <==> (x == c || (m.contains(x) && network_key(x)
                != network_key(c))),
    decreases m.len(),
{
    let r = upsert(m, c);
    let kc = network_key(c);
    if m.len() == 0 {
        assert forall|x: Credential| #[trigger] r.contains(x) <==> (x == c || (m.contains(x)
            && network_key(x) != kc)) by {
            lemma_contains_cons(c, Seq::empty(), x);
        }
    } else {
        let t = m.skip(1);
        let k0 = network_key(m[0]);
        lemma_sorted_tail(m);
        lemma_text_lt_irreflexive(kc);
        if text_lt(k0, kc) {
            lemma_upsert(t, c);
            let u = upsert(t, c);
            assert forall|x: Credential| u.contains(x) implies text_lt(k0, network_key(x)) by {}
            lemma_sorted_cons(m[0], u);
            assert forall|x: Credential| #[trigger] r.contains(x) <==> (x == c || (m.contains(x)
                && network_key(x) != kc)) by {
                lemma_contains_cons(m[0], u, x);
                lemma_contains_split(m, x);
            }
        } else if k0 == kc {
            assert forall|x: Credential| t.contains(x) implies text_lt(kc, network_key(x)) by {}
            lemma_sorted_cons(c, t);
            assert forall|x: Credential| #[trigger] r.contains(x) <==> (x == c || (m.contains(x)
                && network_key(x) != kc)) by {
                lemma_contains_cons(c, t, x);
                lemma_contains_split(m, x);
            }
        } else {
            lemma_text_lt_total(k0, kc);
            assert forall|x: Credential| m.contains(x) implies text_lt(kc, network_key(x)) by {
                lemma_contains_split(m, x);
                if x != m[0] {
                    lemma_text_lt_transitive(kc, k0, network_key(x));
                }
            }
            lemma_sorted_cons(c, m);
            assert forall|x: Credential| #[trigger] r.contains(x) <==> (x == c || (m.contains(x)
                && network_key(x) != kc)) by {
                lemma_contains_cons(c, m, x);
            }
        }
    }
}

/// Putting a list into an ordered list keeps the order; the result holds, for
/// each key of the list, the last record of that key, and of the earlier
/// entries those whose key the list does not have.
pub proof fn lemma_merged_into(m: Seq<Credential>, list: Seq<Credential>)
    requires
        sorted_by_key(m),
    ensures
        sorted_by_key(merged_into(m, list)),
        forall|x: Credential| #[trigger]
            merged_into(m, list).contains(x) <==> (winner(list, network_key(x)) == Some(x) || (
            winner(list, network_key(x)) is None && m.contains(x))),
    decreases list.len(),
{
    if list.len() > 0 {
        lemma_upsert(m, list[0]);
        lemma_merged_into(upsert(m, list[0]), list.skip(1));
    }
}

/// Two lists in strict key order that hold the same records are equal.
pub proof fn lemma_sorted_unique(a: Seq<Credential>, b: Seq<Credential>)
    requires
        sorted_by_key(a),
        sorted_by_key(b),
        forall|x: Credential| a.contains(x) <==> b.contains(x),
    ensures
        a == b,
    decreases a.len(),
{
    if a.len() == 0 {
        if b.len() > 0 {
            assert(b.contains(b[0]));
        }
    } else {
        assert(a.contains(a[0]));
        lemma_sorted_tail(a);
        lemma_sorted_tail(b);
        lemma_contains_split(a, b[0]);
        lemma_contains_split(b, a[0]);
        let ka = network_key(a[0]);
        let kb = network_key(b[0]);
        lemma_text_lt_irreflexive(ka);
        if a[0] != b[0] {
            lemma_text_lt_transitive(ka, kb, ka);
        }
        assert forall|x: Credential| a.skip(1).contains(x) <==> b.skip(1).contains(x) by {
            lemma_contains_split(a, x);
            lemma_contains_split(b, x);
            lemma_text_lt_irreflexive(network_key(x));
        }
        lemma_sorted_unique(a.skip(1), b.skip(1));
        assert(b =~= seq![b[0]] + b.skip(1));
    }
}

/// Dropping the nameless records keeps the order, and keeps each record that
/// has a name.
pub proof fn lemma_named(m: Seq<Credential>)
    requires
        sorted_by_key(m),
    ensures
        sorted_by_key(named(m)),
        forall|x: Credential| #[trigger] named(m).contains(x) <==> (m.contains(x) && has_name(x)),
    decreases m.len(),
{
    reveal(Seq::filter);
    if m.len() > 0 {
        let front = m.drop_last();
        let last = m.last();
        lemma_named(front);
        let nf = named(front);
        assert forall|x: Credential| #[trigger] m.contains(x) <==> (front.contains(x) || x
            == last) by {
            if m.contains(x) {
                let i = choose|i: int| 0 <= i < m.len() && m[i] == x;
                if i < front.len() {
                    assert(front[i] == x);
                }
            }
        }
        if has_name(last) {
            let r = nf.push(last);
            assert forall|x: Credential| #[trigger] r.contains(x) <==> (nf.contains(x) || x
                == last) by {
                if nf.contains(x) {
                    let i = choose|i: int| 0 <= i < nf.len() && nf[i] == x;
                    assert(r[i] == x);
                }
                if x == last {
                    assert(r[r.len() - 1] == x);
                }
            }
            assert forall|i: int, j: int| 0 <= i < j < r.len() implies text_lt(
                network_key(#[trigger] r[i]),
                network_key(#[trigger] r[j]),
            ) by {
                if j >= nf.len() {
                    assert(nf.contains(nf[i]));
                }
            }
        }
    }
}

/// What a merge holds: of the records with a name, those that count for
/// their key, in strict key order.
pub proof fn lemma_merged(lower: Seq<Credential>, higher: Seq<Credential>)
    ensures
        sorted_by_key(merged(lower, higher)),
        forall|x: Credential| #[trigger]
            merged(lower, higher).contains(x) <==> (has_name(x) && merge_winner(
                lower,
                higher,
                network_key(x),
            ) == Some(x)),
{
    let empty = Seq::<Credential>::empty();
    let base = merged_into(empty, lower);
    lemma_merged_into(empty, lower);
    lemma_merged_into(base, higher);
    lemma_named(merged_into(base, higher));
}

/// Merging a list with itself gives what the list alone gives: the list
/// without its repeated keys and nameless records, in key order.
pub proof fn lemma_merge_self(list: Seq<Credential>)
    ensures
        merged(list, list) == merged(Seq::empty(), list),
{
    lemma_merged(list, list);
    lemma_merged(Seq::empty(), list);
    lemma_sorted_unique(merged(list, list), merged(Seq::empty(), list));
}

/// A list that is in strict key order and has no nameless record is what its
/// own merge gives: merging changes nothing once a list is merged.
pub proof fn lemma_merge_fixed(list: Seq<Credential>)
    requires
        sorted_by_key(list),
        forall|i: int| 0 <= i < list.len() ==> has_name(#[trigger] list[i]),
    ensures
        merged(Seq::empty(), list) == list,
{
    lemma_merged(Seq::empty(), list);
    let r = merged(Seq::empty(), list);
    assert forall|x: Credential| r.contains(x) <==> list.contains(x) by {
        lemma_winner_sorted(list, x);
    }
    lemma_sorted_unique(r, list);
}

/// In a list in strict key order each record counts for its key.
pub proof fn lemma_winner_sorted(list: Seq<Credential>, x: Credential)
    requires
        sorted_by_key(list),
    ensures
        list.contains(x) <==> winner(list, network_key(x)) == Some(x),
        winner(list, network_key(x)) is Some ==> list.contains(winner(list, network_key(x))->0),
    decreases list.len(),
{
    if list.len() > 0 {
        lemma_sorted_tail(list);
        lemma_winner_sorted(list.skip(1), x);
        lemma_contains_split(list, x);
        lemma_text_lt_irreflexive(network_key(x));
        match winner(list.skip(1), network_key(x)) {
            Some(y) => {
                lemma_contains_split(list, y);
                lemma_winner_key(list.skip(1), network_key(x));
            },
            None => {},
        }
    }
}

/// The record that counts for a key has that key.
pub proof fn lemma_winner_key(list: Seq<Credential>, k: Seq<char>)
    ensures
        match winner(list, k) {
            Some(x) => network_key(x) == k && list.contains(x),
            None => forall|x: Credential| list.contains(x) ==> network_key(x) != k,
        },
    decreases list.len(),
{
    if list.len() > 0 {
        lemma_winner_key(list.skip(1), k);
        assert forall|x: Credential| list.contains(x) <==> (x == list[0] || list.skip(1).contains(
            x,
        )) by {
            lemma_contains_split(list, x);
        }
    }
}

/// The list is in merged form: its keys ascend strictly, so that no two
/// records name the same network, and every record has a name.
pub open spec fn working(m: Seq<Credential>) -> bool {
    &&& sorted_by_key(m)
    &&& forall|i: int| 0 <= i < m.len() ==> has_name(#[trigger] m[i])
}

/// What a merge gives is in merged form.
pub proof fn lemma_merged_working(lower: Seq<Credential>, higher: Seq<Credential>)
    ensures
        working(merged(lower, higher)),
{
    lemma_merged(lower, higher);
    let m = merged(lower, higher);
    assert forall|i: int| 0 <= i < m.len() implies has_name(#[trigger] m[i]) by {}
}

/// No two records of a list in merged form name the same network.
pub proof fn lemma_working_distinct(m: Seq<Credential>, i: int, j: int)
    requires
        working(m),
        0 <= i < m.len(),
        0 <= j < m.len(),
        i != j,
    ensures
        network_key(m[i]) != network_key(m[j]),
{
    lemma_text_lt_irreflexive(network_key(m[i]));
}

/// `keys` holds, place by place, the keys of `items`.
pub open spec fn keys_of(keys: Seq<Vec<char>>, items: Seq<WifiCred>) -> bool {
    &&& keys.len() == items.len()
    &&& forall|i: int| 0 <= i < items.len() ==> (#[trigger] keys[i])@ == network_key(items[i]@)
}

/// Where `c` goes in `m`: after the `p` entries whose keys come before its
/// own.
proof fn lemma_upsert_at(m: Seq<Credential>, c: Credential, p: int)
    requires
        0 <= p <= m.len(),
        forall|j: int| 0 <= j < p ==> text_lt(network_key(#[trigger] m[j]), network_key(c)),
        p < m.len() ==> !text_lt(network_key(m[p]), network_key(c)),
    ensures
        upsert(m, c) == if p < m.len() && network_key(m[p]) == network_key(c) {
            m.update(p, c)
        } else {
            m.insert(p, c)
        },
    decreases p,
{
    if p > 0 {
        lemma_upsert_at(m.skip(1), c, p - 1);
    }
}

/// Puts `c` into the ordered list `items`, whose keys `keys` holds.
fn put(items: &mut Vec<WifiCred>, keys: &mut Vec<Vec<char>>, c: WifiCred)
    requires
        keys_of(old(keys)@, old(items)@),
    ensures
        keys_of(final(keys)@, final(items)@),
        final(items).deep_view() == upsert(old(items).deep_view(), c@),
{
    let lower = c.ssid.as_str().to_lowercase();
    let key = chars_of(lower.as_str());
    let n = items.len();
    let mut p: usize = 0;
    while p < n && text_less(keys[p].as_slice(), key.as_slice())
        invariant
            n == items@.len(),
            p <= n,
            keys_of(keys@, items@),
            key@ == network_key(c@),
            forall|j: int| 0 <= j < p ==> text_lt(network_key((#[trigger] items@[j])@), key@),
        decreases n - p,
    {
        p += 1;
    }
    let ghost m = items.deep_view();
    proof {
        lemma_upsert_at(m, c@, p as int);
    }
    if p < n && same_text(keys[p].as_slice(), key.as_slice()) {
        items.remove(p);
        items.insert(p, c);
    } else {
        items.insert(p, c);
        keys.insert(p, key);
    }
}

/// Puts the records of `list` into the ordered list `items`, one after the
/// other.
fn put_all(items: &mut Vec<WifiCred>, keys: &mut Vec<Vec<char>>, list: &[WifiCred])
    requires
        keys_of(old(keys)@, old(items)@),
    ensures
        keys_of(final(keys)@, final(items)@),
        final(items).deep_view() == merged_into(old(items).deep_view(), list.deep_view()),
{
    let n = list.len();
    let mut i: usize = 0;
    assert(list.deep_view().skip(0) =~= list.deep_view());
    while i < n
        invariant
            n == list@.len(),
            i <= n,
            keys_of(keys@, items@),
            merged_into(items.deep_view(), list.deep_view().skip(i as int)) == merged_into(
                old(items).deep_view(),
                list.deep_view(),
            ),
        decreases n - i,
    {
        assert(list.deep_view().skip(i as int).skip(1) =~= list.deep_view().skip(i + 1));
        put(items, keys, list[i].clone());
        i += 1;
    }
}

/// Merges two lists. Networks are told apart by their name in lower case;
/// where both lists, or one list twice, name the same network, the record of
/// `higher` counts, and within one list the later record. Records without a
/// name are dropped, and the result is ordered by key.
pub fn merge(lower: &[WifiCred], higher: &[WifiCred]) -> (out: Vec<WifiCred>)
    ensures
        out.deep_view() == merged(lower.deep_view(), higher.deep_view()),
        working(out.deep_view()),
        forall|x: Credential| #[trigger]
            out.deep_view().contains(x) <==> (has_name(x) && merge_winner(
                lower.deep_view(),
                higher.deep_view(),
                network_key(x),
            ) == Some(x)),
{
    let mut items: Vec<WifiCred> = Vec::new();
    let mut keys: Vec<Vec<char>> = Vec::new();
    put_all(&mut items, &mut keys, lower);
    put_all(&mut items, &mut keys, higher);
    let ghost m = items.deep_view();
    let mut out: Vec<WifiCred> = Vec::new();
    let n = items.len();
    let mut i: usize = 0;
    proof {
        reveal(Seq::filter);
    }
    while i < n
        invariant
            n == items@.len(),
            i <= n,
            m == items.deep_view(),
            out.deep_view() == named(m.take(i as int)),
        decreases n - i,
    {
        proof {
            reveal(Seq::filter);
            assert(m.take(i + 1).drop_last() =~= m.take(i as int));
        }
        if !items[i].ssid.as_str().is_empty() {
            out.push(items[i].clone());
        }
        i += 1;
    }
    proof {
        assert(m.take(n as int) =~= m);
        lemma_merged(lower.deep_view(), higher.deep_view());
        lemma_merged_working(lower.deep_view(), higher.deep_view());
    }
    out
}

/// Brings one list into the form of a merged list: one record for each
/// network, no nameless record, ordered by key.
pub fn normalize(list: &[WifiCred]) -> (out: Vec<WifiCred>)
    ensures
        out.deep_view() == merged(Seq::empty(), list.deep_view()),
        working(out.deep_view()),
        forall|x: Credential| #[trigger]
            out.deep_view().contains(x) <==> (has_name(x) && winner(
                list.deep_view(),
                network_key(x),
            ) == Some(x)),
{
    let none: Vec<WifiCred> = Vec::new();
    let lower = none.as_slice();
    merge(lower, list)
}

} // verus!
