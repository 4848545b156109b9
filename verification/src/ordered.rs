//! Collections kept sorted by a string key, as the store's maps and sets.
use vstd::prelude::*;

verus! {

#[derive(Debug, Clone, Copy, PartialEq, Eq)]
pub enum KeyOrder {
    Less,
    Equal,
    Greater,
}

/// The order of `String`: lexicographic by character (the code point order that
/// the byte order of UTF-8 follows).
pub open spec fn str_lt(a: Seq<char>, b: Seq<char>) -> bool
    decreases a.len(),
{
    if a.len() == 0 {
        b.len() > 0
    } else if b.len() == 0 {
        false
    } else if a[0] != b[0] {
        (a[0] as u32) < (b[0] as u32)
    } else {
        str_lt(a.skip(1), b.skip(1))
    }
}

/// Distinct characters have distinct code points.
pub proof fn lemma_char_code_injective(x: char, y: char)
    ensures
        x != y ==> (x as u32) != (y as u32),
{
    vstd::utf8::char_u32_cast(x, x as u32);
    vstd::utf8::char_u32_cast(y, y as u32);
}

pub proof fn lemma_str_lt_irreflexive(a: Seq<char>)
    ensures
        !str_lt(a, a),
    decreases a.len(),
{
    if a.len() > 0 {
        lemma_str_lt_irreflexive(a.skip(1));
    }
}

pub proof fn lemma_str_lt_total(a: Seq<char>, b: Seq<char>)
    ensures
        a == b || str_lt(a, b) || str_lt(b, a),
    decreases a.len(),
{
    if a.len() > 0 && b.len() > 0 && a[0] == b[0] {
        lemma_str_lt_total(a.skip(1), b.skip(1));
        if a.skip(1) == b.skip(1) {
            assert(a =~= b) by {
                assert forall|i: int| 0 <= i < a.len() implies a[i] == b[i] by {
                    if i > 0 {
                        assert(a.skip(1)[i - 1] == b.skip(1)[i - 1]);
                    }
                }
            }
        }
    } else if a.len() == 0 && b.len() == 0 {
        assert(a =~= b);
    } else if a.len() > 0 && b.len() > 0 {
        lemma_char_code_injective(a[0], b[0]);
    }
}

pub proof fn lemma_str_lt_asymmetric(a: Seq<char>, b: Seq<char>)
    ensures
        str_lt(a, b) ==> !str_lt(b, a),
    decreases a.len(),
{
    if a.len() > 0 && b.len() > 0 && a[0] == b[0] {
        lemma_str_lt_asymmetric(a.skip(1), b.skip(1));
    }
}

pub proof fn lemma_str_lt_transitive(a: Seq<char>, b: Seq<char>, c: Seq<char>)
    ensures
        str_lt(a, b) && str_lt(b, c) ==> str_lt(a, c),
    decreases a.len(),
{
    if a.len() > 0 && b.len() > 0 && c.len() > 0 && a[0] == b[0] && b[0] == c[0] {
        lemma_str_lt_transitive(a.skip(1), b.skip(1), c.skip(1));
    }
}

/// Compares two character sequences in the order of `String`.
pub fn compare_chars(a: &Vec<char>, b: &Vec<char>) -> (r: KeyOrder)
    ensures
        (r == KeyOrder::Less) == str_lt(a@, b@),
        (r == KeyOrder::Equal) == (a@ == b@),
        (r == KeyOrder::Greater) == str_lt(b@, a@),
{
    let mut i: usize = 0;
    proof {
        assert(a@.skip(0) =~= a@);
        assert(b@.skip(0) =~= b@);
    }
    while i < a.len() && i < b.len()
        invariant
            i <= a.len(),
            i <= b.len(),
            forall|k: int| 0 <= k < i ==> a@[k] == b@[k],
            str_lt(a@, b@) == str_lt(a@.skip(i as int), b@.skip(i as int)),
            str_lt(b@, a@) == str_lt(b@.skip(i as int), a@.skip(i as int)),
        decreases a.len() - i,
    {
        if a[i] != b[i] {
            proof {
                assert(a@.skip(i as int)[0] == a@[i as int]);
                assert(b@.skip(i as int)[0] == b@[i as int]);
                assert(a@[i as int] != b@[i as int]);
                lemma_char_code_injective(a@[i as int], b@[i as int]);
            }
            if (a[i] as u32) < (b[i] as u32) {
                return KeyOrder::Less;
            } else {
                return KeyOrder::Greater;
            }
        }
        proof {
            assert(a@.skip(i as int).skip(1) =~= a@.skip(i + 1));
            assert(b@.skip(i as int).skip(1) =~= b@.skip(i + 1));
        }
        i = i + 1;
    }
    proof {
        lemma_str_lt_irreflexive(a@);
    }
    if a.len() == b.len() {
        proof {
            assert(a@ =~= b@);
        }
        KeyOrder::Equal
    } else if a.len() < b.len() {
        proof {
            assert(a@.skip(i as int).len() == 0);
            assert(a@ != b@);
        }
        KeyOrder::Less
    } else {
        proof {
            assert(b@.skip(i as int).len() == 0);
            assert(a@ != b@);
        }
        KeyOrder::Greater
    }
}

/// The order of keys made of several strings: lexicographic by component.
pub open spec fn key_lt(a: Seq<Seq<char>>, b: Seq<Seq<char>>) -> bool
    decreases a.len(),
{
    if a.len() == 0 {
        b.len() > 0
    } else if b.len() == 0 {
        false
    } else if a[0] != b[0] {
        str_lt(a[0], b[0])
    } else {
        key_lt(a.skip(1), b.skip(1))
    }
}

/// Keys of one string are ordered as their strings.
pub proof fn lemma_key_lt_singletons(a: Seq<char>, b: Seq<char>)
    ensures
        key_lt(seq![a], seq![b]) ==> str_lt(a, b),
{
    assert(seq![a][0] == a && seq![b][0] == b);
    if a == b {
        assert(seq![a].skip(1) =~= Seq::<Seq<char>>::empty());
        assert(seq![b].skip(1) =~= Seq::<Seq<char>>::empty());
        assert(!key_lt(Seq::<Seq<char>>::empty(), Seq::<Seq<char>>::empty()));
    }
}

pub proof fn lemma_key_lt_irreflexive(a: Seq<Seq<char>>)
    ensures
        !key_lt(a, a),
    decreases a.len(),
{
    if a.len() > 0 {
        lemma_key_lt_irreflexive(a.skip(1));
    }
}

pub proof fn lemma_key_lt_total(a: Seq<Seq<char>>, b: Seq<Seq<char>>)
    ensures
        a == b || key_lt(a, b) || key_lt(b, a),
    decreases a.len(),
{
    if a.len() > 0 && b.len() > 0 && a[0] == b[0] {
        lemma_key_lt_total(a.skip(1), b.skip(1));
        if a.skip(1) == b.skip(1) {
            assert(a =~= b) by {
                assert forall|i: int| 0 <= i < a.len() implies a[i] == b[i] by {
                    if i > 0 {
                        assert(a.skip(1)[i - 1] == b.skip(1)[i - 1]);
                    }
                }
            }
        }
    } else if a.len() == 0 && b.len() == 0 {
        assert(a =~= b);
    } else if a.len() > 0 && b.len() > 0 {
        lemma_str_lt_total(a[0], b[0]);
    }
}

pub proof fn lemma_key_lt_asymmetric(a: Seq<Seq<char>>, b: Seq<Seq<char>>)
    ensures
        key_lt(a, b) ==> !key_lt(b, a),
    decreases a.len(),
{
    if a.len() > 0 && b.len() > 0 {
        if a[0] == b[0] {
            lemma_key_lt_asymmetric(a.skip(1), b.skip(1));
        } else {
            lemma_str_lt_asymmetric(a[0], b[0]);
        }
    }
}

pub proof fn lemma_key_lt_transitive(a: Seq<Seq<char>>, b: Seq<Seq<char>>, c: Seq<Seq<char>>)
    ensures
        key_lt(a, b) && key_lt(b, c) ==> key_lt(a, c),
    decreases a.len(),
{
    if a.len() > 0 && b.len() > 0 && c.len() > 0 {
        if a[0] == b[0] && b[0] == c[0] {
            lemma_key_lt_transitive(a.skip(1), b.skip(1), c.skip(1));
        } else {
            lemma_str_lt_transitive(a[0], b[0], c[0]);
            lemma_str_lt_asymmetric(a[0], b[0]);
            lemma_str_lt_asymmetric(b[0], c[0]);
            lemma_str_lt_irreflexive(a[0]);
            if a[0] == c[0] {
                lemma_str_lt_asymmetric(a[0], b[0]);
            }
        }
    }
}

pub open spec fn chars_view(v: Seq<Vec<char>>) -> Seq<Seq<char>> {
    v.map_values(|x: Vec<char>| x@)
}

/// Compares two keys made of several strings.
pub fn compare_keys(a: &Vec<Vec<char>>, b: &Vec<Vec<char>>) -> (r: KeyOrder)
    ensures
        (r == KeyOrder::Less) == key_lt(chars_view(a@), chars_view(b@)),
        (r == KeyOrder::Equal) == (chars_view(a@) == chars_view(b@)),
        (r == KeyOrder::Greater) == key_lt(chars_view(b@), chars_view(a@)),
{
    let ghost ka = chars_view(a@);
    let ghost kb = chars_view(b@);
    let mut i: usize = 0;
    proof {
        assert(ka.skip(0) =~= ka);
        assert(kb.skip(0) =~= kb);
    }
    while i < a.len() && i < b.len()
        invariant
            ka == chars_view(a@),
            kb == chars_view(b@),
            i <= a.len(),
            i <= b.len(),
            forall|k: int| 0 <= k < i ==> ka[k] == kb[k],
            key_lt(ka, kb) == key_lt(ka.skip(i as int), kb.skip(i as int)),
            key_lt(kb, ka) == key_lt(kb.skip(i as int), ka.skip(i as int)),
        decreases a.len() - i,
    {
        let c = compare_chars(&a[i], &b[i]);
        proof {
            assert(ka.skip(i as int)[0] == ka[i as int]);
            assert(kb.skip(i as int)[0] == kb[i as int]);
        }
        match c {
            KeyOrder::Equal => {},
            _ => {
                proof {
                    lemma_key_lt_irreflexive(ka);
                    assert(ka[i as int] != kb[i as int]);
                    assert(ka != kb);
                }
                return c;
            },
        }
        proof {
            assert(ka.skip(i as int).skip(1) =~= ka.skip(i + 1));
            assert(kb.skip(i as int).skip(1) =~= kb.skip(i + 1));
        }
        i = i + 1;
    }
    proof {
        lemma_key_lt_irreflexive(ka);
    }
    if a.len() == b.len() {
        proof {
            assert(ka =~= kb);
        }
        KeyOrder::Equal
    } else if a.len() < b.len() {
        proof {
            assert(ka.skip(i as int).len() == 0);
            assert(ka.len() != kb.len());
        }
        KeyOrder::Less
    } else {
        proof {
            assert(kb.skip(i as int).len() == 0);
            assert(ka.len() != kb.len());
        }
        KeyOrder::Greater
    }
}

/// A value stored under a key made of strings.
pub trait Keyed: Sized {
    spec fn key(&self) -> Seq<Seq<char>>;

    fn key_chars(&self) -> (r: Vec<Vec<char>>)
        ensures
            chars_view(r@) == self.key();
}

/// Keys strictly increase along `s` (so no key occurs twice).
pub open spec fn sorted_by_key<T: Keyed>(s: Seq<T>) -> bool {
    forall|i: int, j: int| 0 <= i < j < s.len() ==> key_lt(#[trigger] s[i].key(), #[trigger] s[j].key())
}

/// Whether some element of `s` has key `k`.
pub open spec fn has_key<T: Keyed>(s: Seq<T>, k: Seq<Seq<char>>) -> bool {
    exists|i: int| 0 <= i < s.len() && #[trigger] s[i].key() == k
}

/// Stores `x` under its key: it replaces the element stored under that key, if
/// any, and the order of keys is kept.
pub fn upsert_sorted<T: Keyed>(v: &mut Vec<T>, x: T) -> (replaced: bool)
    requires
        sorted_by_key(old(v)@),
    ensures
        sorted_by_key(final(v)@),
        replaced == has_key(old(v)@, x.key()),
        final(v)@.contains(x),
        forall|e: T| old(v)@.contains(e) && e.key() != x.key() ==> final(v)@.contains(e),
        forall|e: T| final(v)@.contains(e) ==> e == x || (old(v)@.contains(e) && e.key() != x.key()),
        final(v)@.len() == old(v)@.len() + if replaced { 0int } else { 1int },
        key_map(final(v)@) == key_map(old(v)@).insert(x.key(), x),
{
    let kx = x.key_chars();
    let mut p: usize = 0;
    let mut equal = false;
    while p < v.len()
        invariant_except_break
            !equal,
        invariant
            p <= v.len(),
            v@ == old(v)@,
            sorted_by_key(v@),
            chars_view(kx@) == x.key(),
            forall|k: int| 0 <= k < p ==> key_lt(#[trigger] v@[k].key(), x.key()),
        ensures
            p <= v.len(),
            equal ==> p < v.len() && v@[p as int].key() == x.key(),
            !equal ==> (p < v.len() ==> key_lt(x.key(), v@[p as int].key())),
        decreases v.len() - p,
    {
        let kp = v[p].key_chars();
        let c = compare_keys(&kp, &kx);
        match c {
            KeyOrder::Less => {},
            KeyOrder::Equal => {
                equal = true;
                break;
            },
            KeyOrder::Greater => {
                break;
            },
        }
        p = p + 1;
    }
    let ghost old_v = v@;
    proof {
        lemma_key_lt_irreflexive(x.key());
        if equal {
            assert(old_v[p as int].key() == x.key());
        } else {
            assert forall|k: int| p <= k < old_v.len() implies key_lt(x.key(), #[trigger] old_v[k].key()) by {
                lemma_key_lt_transitive(x.key(), old_v[p as int].key(), old_v[k].key());
            }
            assert forall|k: int| 0 <= k < old_v.len() implies #[trigger] old_v[k].key() != x.key() by {
                if k < p {
                    lemma_key_lt_irreflexive(x.key());
                } else {
                    lemma_key_lt_irreflexive(x.key());
                }
            }
        }
    }
    if equal {
        v.set(p, x);
        proof {
            assert(v@ == old_v.update(p as int, x));
            assert forall|i: int, j: int| 0 <= i < j < v@.len() implies key_lt(#[trigger] v@[i].key(), #[trigger] v@[j].key()) by {
                if i == p as int || j == p as int {
                } else {
                }
            }
            assert(v@[p as int] == x);
            assert forall|e: T| old_v.contains(e) && e.key() != x.key() implies v@.contains(e) by {
                let k = choose|k: int| 0 <= k < old_v.len() && old_v[k] == e;
                assert(k != p);
                assert(v@[k] == e);
            }
            assert forall|e: T| v@.contains(e) implies e == x || (old_v.contains(e) && e.key() != x.key()) by {
                let k = choose|k: int| 0 <= k < v@.len() && v@[k] == e;
                if k != p {
                    assert(old_v[k] == e);
                    lemma_key_lt_irreflexive(x.key());
                    if k < p {
                        assert(key_lt(old_v[k].key(), old_v[p as int].key()));
                    } else {
                        assert(key_lt(old_v[p as int].key(), old_v[k].key()));
                    }
                }
            }
            lemma_upsert_is_insert(old_v, v@, x);
        }
        true
    } else {
        v.insert(p, x);
        proof {
            assert(v@ == old_v.insert(p as int, x));
            assert forall|i: int, j: int| 0 <= i < j < v@.len() implies key_lt(#[trigger] v@[i].key(), #[trigger] v@[j].key()) by {
                if j < p {
                } else if i < p && j == p {
                } else if i < p && j > p {
                    lemma_key_lt_transitive(v@[i].key(), x.key(), v@[j].key());
                } else if i == p {
                } else {
                    assert(v@[i] == old_v[i - 1]);
                    assert(v@[j] == old_v[j - 1]);
                }
            }
            assert(v@[p as int] == x);
            assert forall|e: T| old_v.contains(e) && e.key() != x.key() implies v@.contains(e) by {
                let k = choose|k: int| 0 <= k < old_v.len() && old_v[k] == e;
                if k < p {
                    assert(v@[k] == e);
                } else {
                    assert(v@[k + 1] == e);
                }
            }
            assert forall|e: T| v@.contains(e) implies e == x || (old_v.contains(e) && e.key() != x.key()) by {
                let k = choose|k: int| 0 <= k < v@.len() && v@[k] == e;
                if k < p {
                    assert(old_v[k] == e);
                } else if k > p {
                    assert(old_v[k - 1] == e);
                }
            }
            assert(!has_key(old_v, x.key()));
            lemma_upsert_is_insert(old_v, v@, x);
        }
        false
    }
}

/// The element stored under key `k`.
pub open spec fn entry<T: Keyed>(s: Seq<T>, k: Seq<Seq<char>>) -> Option<T> {
    if has_key(s, k) {
        Some(s[key_index(s, k)])
    } else {
        None
    }
}

/// A position of `s` that holds key `k`, when there is one.
pub open spec fn key_index<T: Keyed>(s: Seq<T>, k: Seq<Seq<char>>) -> int {
    choose|i: int| 0 <= i < s.len() && #[trigger] s[i].key() == k
}

/// In a key-sorted sequence an element is the entry of its key.
pub proof fn lemma_entry_of_member<T: Keyed>(s: Seq<T>, e: T)
    requires
        sorted_by_key(s),
        s.contains(e),
    ensures
        entry(s, e.key()) == Some(e),
{
    let k = choose|k: int| 0 <= k < s.len() && s[k] == e;
    assert(s[k].key() == e.key());
    let i = key_index(s, e.key());
    if i != k {
        lemma_key_lt_irreflexive(e.key());
    }
}

/// The map from each key of `s` to the element stored under it.
pub open spec fn key_map<T: Keyed>(s: Seq<T>) -> Map<Seq<Seq<char>>, T> {
    Map::new(|k: Seq<Seq<char>>| has_key(s, k), |k: Seq<Seq<char>>| entry(s, k).unwrap())
}

/// The entry of a present key is a member stored under that key.
pub proof fn lemma_entry_is_member<T: Keyed>(s: Seq<T>, k: Seq<Seq<char>>)
    requires
        has_key(s, k),
    ensures
        s.contains(entry(s, k).unwrap()),
        entry(s, k).unwrap().key() == k,
{
    let i = key_index(s, k);
    assert(s[i] == entry(s, k).unwrap());
    assert(s.contains(s[i]));
}

/// Storing `x` under its key, as `upsert_sorted` does, is a map insertion.
pub proof fn lemma_upsert_is_insert<T: Keyed>(old_s: Seq<T>, new_s: Seq<T>, x: T)
    requires
        sorted_by_key(old_s),
        sorted_by_key(new_s),
        new_s.contains(x),
        forall|e: T| old_s.contains(e) && e.key() != x.key() ==> new_s.contains(e),
        forall|e: T| new_s.contains(e) ==> e == x || (old_s.contains(e) && e.key() != x.key()),
    ensures
        key_map(new_s) == key_map(old_s).insert(x.key(), x),
{
    let m = key_map(old_s).insert(x.key(), x);
    assert forall|k: Seq<Seq<char>>| key_map(new_s).dom().contains(k) <==> m.dom().contains(k) by {
        if has_key(new_s, k) {
            let i = choose|i: int| 0 <= i < new_s.len() && #[trigger] new_s[i].key() == k;
            assert(new_s.contains(new_s[i]));
            if new_s[i] != x {
                let j = choose|j: int| 0 <= j < old_s.len() && old_s[j] == new_s[i];
                assert(old_s[j].key() == k);
            }
        }
        if has_key(old_s, k) && k != x.key() {
            lemma_entry_is_member(old_s, k);
            let e = entry(old_s, k).unwrap();
            let i = choose|i: int| 0 <= i < new_s.len() && new_s[i] == e;
            assert(new_s[i].key() == k);
        }
        if k == x.key() {
            let i = choose|i: int| 0 <= i < new_s.len() && new_s[i] == x;
            assert(new_s[i].key() == k);
        }
    }
    assert forall|k: Seq<Seq<char>>| #[trigger] key_map(new_s).dom().contains(k) implies key_map(new_s)[k] == m[k] by {
        if k == x.key() {
            lemma_entry_of_member(new_s, x);
        } else {
            lemma_entry_is_member(old_s, k);
            let e = entry(old_s, k).unwrap();
            lemma_entry_of_member(new_s, e);
        }
    }
    assert(key_map(new_s) =~= m);
}

/// Keys never decrease along `s`.
pub open spec fn sorted_by_key_le<T: Keyed>(s: Seq<T>) -> bool {
    forall|i: int, j: int| 0 <= i < j < s.len() ==> !key_lt(#[trigger] s[j].key(), #[trigger] s[i].key())
}

/// The elements of `v` ordered by key; elements with equal keys keep no
/// particular order.
pub fn sort_by_key<T: Keyed>(v: Vec<T>) -> (r: Vec<T>)
    ensures
        r@.to_multiset() == v@.to_multiset(),
        sorted_by_key_le(r@),
{
    let ghost orig = v@;
    let mut rest = v;
    let mut out: Vec<T> = Vec::new();
    proof {
        vstd::seq_lib::lemma_seq_union_to_multiset_commutative(out@, rest@);
        assert(out@ + rest@ =~= rest@);
        vstd::seq_lib::lemma_multiset_commutative(out@, rest@);
    }
    while rest.len() > 0
        invariant
            out@.to_multiset().add(rest@.to_multiset()) == orig.to_multiset(),
            sorted_by_key_le(out@),
        decreases rest.len(),
    {
        let ghost before = rest@;
        let x = rest.pop().unwrap();
        proof {
            assert(before =~= rest@.push(x));
            vstd::seq_lib::to_multiset_build(rest@, x);
        }
        let kx = x.key_chars();
        let mut p: usize = 0;
        while p < out.len()
            invariant
                p <= out.len(),
                chars_view(kx@) == x.key(),
                forall|k: int| 0 <= k < p ==> !key_lt(x.key(), #[trigger] out@[k].key()),
            ensures
                p <= out.len(),
                forall|k: int| 0 <= k < p ==> !key_lt(x.key(), #[trigger] out@[k].key()),
                p < out.len() ==> key_lt(x.key(), out@[p as int].key()),
            decreases out.len() - p,
        {
            let kp = out[p].key_chars();
            match compare_keys(&kx, &kp) {
                KeyOrder::Less => {
                    break;
                },
                _ => {},
            }
            p = p + 1;
        }
        let ghost prev = out@;
        out.insert(p, x);
        proof {
            vstd::seq_lib::to_multiset_insert(prev, p as int, x);
            assert(out@ == prev.insert(p as int, x));
            assert forall|i: int, j: int| 0 <= i < j < out@.len() implies !key_lt(#[trigger] out@[j].key(), #[trigger] out@[i].key()) by {
                if j < p {
                    assert(out@[i] == prev[i] && out@[j] == prev[j]);
                } else if j == p {
                    assert(out@[i] == prev[i]);
                } else if i == p {
                    assert(out@[j] == prev[j - 1]);
                    lemma_key_lt_transitive(prev[j - 1].key(), x.key(), prev[p as int].key());
                    lemma_key_lt_irreflexive(prev[p as int].key());
                    if j - 1 > p {
                        assert(!key_lt(prev[j - 1].key(), prev[p as int].key()));
                    }
                } else if i < p {
                    assert(out@[i] == prev[i] && out@[j] == prev[j - 1]);
                } else {
                    assert(out@[i] == prev[i - 1] && out@[j] == prev[j - 1]);
                }
            }
        }
    }
    proof {
        assert(out@ + rest@ =~= out@);
        vstd::seq_lib::lemma_multiset_commutative(out@, rest@);
    }
    out
}

/// The position of the element stored under key `k`, if any.
pub fn find_by_key<T: Keyed>(v: &Vec<T>, k: &Vec<Vec<char>>) -> (r: Option<usize>)
    ensures
        match r {
            Some(i) => i < v@.len() && v@[i as int].key() == chars_view(k@),
            None => !has_key(v@, chars_view(k@)),
        },
{
    let mut i: usize = 0;
    while i < v.len()
        invariant
            i <= v.len(),
            forall|j: int| 0 <= j < i ==> #[trigger] v@[j].key() != chars_view(k@),
        decreases v.len() - i,
    {
        let ki = v[i].key_chars();
        match compare_keys(&ki, k) {
            KeyOrder::Equal => {
                return Some(i);
            },
            _ => {},
        }
        i = i + 1;
    }
    None
}

/// A key-sorted sequence holds one element per key: its length is the number of
/// its keys.
pub proof fn lemma_sorted_len_is_key_count<T: Keyed>(s: Seq<T>)
    requires
        sorted_by_key(s),
    ensures
        key_map(s).dom().finite(),
        key_map(s).dom().len() == s.len(),
    decreases s.len(),
{
    if s.len() == 0 {
        assert(key_map(s).dom() =~= Set::<Seq<Seq<char>>>::empty());
    } else {
        let t = s.drop_last();
        let x = s.last();
        assert(sorted_by_key(t)) by {
            assert forall|i: int, j: int| 0 <= i < j < t.len() implies key_lt(#[trigger] t[i].key(), #[trigger] t[j].key()) by {
                assert(t[i] == s[i] && t[j] == s[j]);
            }
        }
        lemma_sorted_len_is_key_count(t);
        assert(s =~= t.push(x));
        assert(!has_key(t, x.key())) by {
            if has_key(t, x.key()) {
                let i = choose|i: int| 0 <= i < t.len() && #[trigger] t[i].key() == x.key();
                assert(s[i] == t[i]);
                assert(key_lt(s[i].key(), s[s.len() - 1].key()));
                lemma_key_lt_irreflexive(x.key());
            }
        }
        assert forall|e: T| t.contains(e) && e.key() != x.key() implies s.contains(e) by {
            let i = choose|i: int| 0 <= i < t.len() && t[i] == e;
            assert(s[i] == e);
        }
        assert forall|e: T| s.contains(e) implies e == x || (t.contains(e) && e.key() != x.key()) by {
            let i = choose|i: int| 0 <= i < s.len() && s[i] == e;
            if i < s.len() - 1 {
                assert(t[i] == e);
                assert(key_lt(s[i].key(), s[s.len() - 1].key()));
                lemma_key_lt_irreflexive(x.key());
            }
        }
        assert(s.contains(x)) by {
            assert(s[s.len() - 1] == x);
        }
        lemma_upsert_is_insert(t, s, x);
        assert(!key_map(t).dom().contains(x.key()));
        assert(key_map(s).dom() == key_map(t).dom().insert(x.key()));
    }
}

/// Two key-sorted sequences with the same keys hold them at the same positions.
pub proof fn lemma_sorted_same_keys_aligned<T: Keyed>(a: Seq<T>, b: Seq<T>)
    requires
        sorted_by_key(a),
        sorted_by_key(b),
        forall|k: Seq<Seq<char>>| has_key(a, k) <==> has_key(b, k),
    ensures
        a.len() == b.len(),
        forall|i: int| 0 <= i < a.len() ==> (#[trigger] a[i]).key() == b[i].key(),
    decreases a.len(),
{
    if a.len() == 0 {
        if b.len() > 0 {
            assert(has_key(b, b[0].key()));
        }
    } else {
        assert(has_key(a, a.last().key()));
        assert(b.len() > 0);
        assert(has_key(b, b.last().key()));
        let ka = a.last().key();
        let kb = b.last().key();
        if ka != kb {
            let j = choose|j: int| 0 <= j < b.len() && #[trigger] b[j].key() == ka;
            let i = choose|i: int| 0 <= i < a.len() && #[trigger] a[i].key() == kb;
            assert(j != b.len() - 1);
            assert(i != a.len() - 1);
            assert(key_lt(b[j].key(), b.last().key()));
            assert(key_lt(a[i].key(), a.last().key()));
            lemma_key_lt_asymmetric(ka, kb);
        }
        let da = a.drop_last();
        let db = b.drop_last();
        assert forall|k: Seq<Seq<char>>| has_key(da, k) <==> has_key(db, k) by {
            if has_key(da, k) {
                let i = choose|i: int| 0 <= i < da.len() && #[trigger] da[i].key() == k;
                assert(a[i].key() == k);
                assert(has_key(a, k));
                let j = choose|j: int| 0 <= j < b.len() && #[trigger] b[j].key() == k;
                if j == b.len() - 1 {
                    assert(key_lt(a[i].key(), a.last().key()));
                    lemma_key_lt_irreflexive(k);
                }
                assert(db[j].key() == k);
            }
            if has_key(db, k) {
                let j = choose|j: int| 0 <= j < db.len() && #[trigger] db[j].key() == k;
                assert(b[j].key() == k);
                assert(has_key(b, k));
                let i = choose|i: int| 0 <= i < a.len() && #[trigger] a[i].key() == k;
                if i == a.len() - 1 {
                    assert(key_lt(b[j].key(), b.last().key()));
                    lemma_key_lt_irreflexive(k);
                }
                assert(da[i].key() == k);
            }
        }
        lemma_sorted_same_keys_aligned(da, db);
        assert forall|i: int| 0 <= i < a.len() implies (#[trigger] a[i]).key() == b[i].key() by {
            if i < a.len() - 1 {
                assert(da[i] == a[i]);
                assert(db[i] == b[i]);
            }
        }
    }
}

} // verus!
