//! Deterministic ordering: the lexicographic orders every sorted list in a
//! document follows, and the stable sort that puts lists into them.
//!
//! Text compares character by character on code points, which is the order
//! `String`'s `Ord` gives, since UTF-8 encoding preserves code point order.
//! A sort key is a short sequence of [`KeyPart`]s compared lexicographically,
//! like the tuples the sorts are written with.
use vstd::prelude::*;

verus! {

/// Lexicographic order on sequences, built on a strict order `lt` for
/// their elements: a proper prefix comes first.
pub open spec fn lex_lt<A>(a: Seq<A>, b: Seq<A>, lt: spec_fn(A, A) -> bool) -> bool
    decreases a.len(),
{
    if a.len() == 0 {
        b.len() > 0
    } else if b.len() == 0 {
        false
    } else if lt(a[0], b[0]) {
        true
    } else if a[0] == b[0] {
        lex_lt(a.drop_first(), b.drop_first(), lt)
    } else {
        false
    }
}

/// `lt` is irreflexive, transitive, and relates any two distinct values.
pub open spec fn strict_total<A>(lt: spec_fn(A, A) -> bool) -> bool {
    &&& forall|x: A| !(#[trigger] lt(x, x))
    &&& forall|x: A, y: A, z: A| #[trigger] lt(x, y) && #[trigger] lt(y, z) ==> lt(x, z)
    &&& forall|x: A, y: A| x != y ==> #[trigger] lt(x, y) || #[trigger] lt(y, x)
}

/// Characters by code point.
pub open spec fn char_order() -> spec_fn(char, char) -> bool {
    |x: char, y: char| (x as int) < (y as int)
}

/// Text by characters: the order of `String`.
pub open spec fn text_order() -> spec_fn(Seq<char>, Seq<char>) -> bool {
    |x: Seq<char>, y: Seq<char>| lex_lt(x, y, char_order())
}

/// Lists of text by their entries: the order of `Vec<String>`.
pub open spec fn texts_order() -> spec_fn(Seq<Seq<char>>, Seq<Seq<char>>) -> bool {
    |x: Seq<Seq<char>>, y: Seq<Seq<char>>| lex_lt(x, y, text_order())
}

/// Whether text `a` sorts strictly before text `b`.
pub open spec fn text_lt(a: Seq<char>, b: Seq<char>) -> bool {
    lex_lt(a, b, char_order())
}

/// One component of a sort key.
pub enum KeyPart {
    Num(int),
    Text(Seq<char>),
    Texts(Seq<Seq<char>>),
}

pub open spec fn part_rank(p: KeyPart) -> int {
    match p {
        KeyPart::Num(_) => 0,
        KeyPart::Text(_) => 1,
        KeyPart::Texts(_) => 2,
    }
}

/// Components of the same kind compare by their values.
pub open spec fn part_lt(a: KeyPart, b: KeyPart) -> bool {
    match (a, b) {
        (KeyPart::Num(x), KeyPart::Num(y)) => x < y,
        (KeyPart::Text(x), KeyPart::Text(y)) => lex_lt(x, y, char_order()),
        (KeyPart::Texts(x), KeyPart::Texts(y)) => lex_lt(x, y, text_order()),
        _ => part_rank(a) < part_rank(b),
    }
}

pub open spec fn part_order() -> spec_fn(KeyPart, KeyPart) -> bool {
    |a: KeyPart, b: KeyPart| part_lt(a, b)
}

/// Whether key `a` sorts strictly before key `b`.
pub open spec fn key_lt(a: Seq<KeyPart>, b: Seq<KeyPart>) -> bool {
    lex_lt(a, b, part_order())
}

/// Whether key `a` may stand before key `b` in a sorted list.
pub open spec fn key_le(a: Seq<KeyPart>, b: Seq<KeyPart>) -> bool {
    !key_lt(b, a)
}

proof fn lemma_lex_irreflexive<A>(a: Seq<A>, lt: spec_fn(A, A) -> bool)
    requires
        strict_total(lt),
    ensures
        !lex_lt(a, a, lt),
    decreases a.len(),
{
    if a.len() > 0 {
        assert(!lt(a[0], a[0]));
        lemma_lex_irreflexive(a.drop_first(), lt);
    }
}

proof fn lemma_lex_transitive<A>(a: Seq<A>, b: Seq<A>, c: Seq<A>, lt: spec_fn(A, A) -> bool)
    requires
        strict_total(lt),
        lex_lt(a, b, lt),
        lex_lt(b, c, lt),
    ensures
        lex_lt(a, c, lt),
    decreases a.len(),
{
    if a.len() > 0 {
        assert(b.len() > 0 && c.len() > 0);
        if lt(a[0], b[0]) {
            if lt(b[0], c[0]) {
                assert(lt(a[0], c[0]));
            }
        } else {
            assert(a[0] == b[0]);
            if !lt(b[0], c[0]) {
                assert(b[0] == c[0]);
                lemma_lex_transitive(a.drop_first(), b.drop_first(), c.drop_first(), lt);
            }
        }
    }
}

proof fn lemma_lex_trichotomy<A>(a: Seq<A>, b: Seq<A>, lt: spec_fn(A, A) -> bool)
    requires
        strict_total(lt),
        a != b,
    ensures
        lex_lt(a, b, lt) || lex_lt(b, a, lt),
    decreases a.len(),
{
    if a.len() > 0 && b.len() > 0 {
        if a[0] == b[0] {
            if a.drop_first() == b.drop_first() {
                assert(a =~= seq![a[0]] + a.drop_first());
                assert(b =~= seq![b[0]] + b.drop_first());
            }
            lemma_lex_trichotomy(a.drop_first(), b.drop_first(), lt);
        } else {
            assert(lt(a[0], b[0]) || lt(b[0], a[0]));
        }
    } else if a.len() == 0 && b.len() == 0 {
        assert(a =~= b);
    }
}

/// Lexicographic order over a strict total order is a strict total order.
pub proof fn lemma_lex_strict_total<A>(lt: spec_fn(A, A) -> bool)
    requires
        strict_total(lt),
    ensures
        forall|a: Seq<A>| !#[trigger] lex_lt(a, a, lt),
        forall|a: Seq<A>, b: Seq<A>, c: Seq<A>|
            #[trigger] lex_lt(a, b, lt) && #[trigger] lex_lt(b, c, lt) ==> lex_lt(a, c, lt),
        forall|a: Seq<A>, b: Seq<A>|
            a != b ==> #[trigger] lex_lt(a, b, lt) || #[trigger] lex_lt(b, a, lt),
{
    assert forall|a: Seq<A>| !#[trigger] lex_lt(a, a, lt) by {
        lemma_lex_irreflexive(a, lt);
    }
    assert forall|a: Seq<A>, b: Seq<A>, c: Seq<A>|
        #[trigger] lex_lt(a, b, lt) && #[trigger] lex_lt(b, c, lt) implies lex_lt(a, c, lt) by {
        lemma_lex_transitive(a, b, c, lt);
    }
    assert forall|a: Seq<A>, b: Seq<A>| a != b implies #[trigger] lex_lt(a, b, lt)
        || #[trigger] lex_lt(b, a, lt) by {
        lemma_lex_trichotomy(a, b, lt);
    }
}

/// The order on code points is a strict total order.
pub proof fn lemma_char_order()
    ensures
        strict_total(char_order()),
{
    assert forall|x: char, y: char| x != y implies #[trigger] char_order()(x, y)
        || #[trigger] char_order()(y, x) by {
        assert((x as int) != (y as int));
    }
}

/// The order on text is a strict total order.
pub proof fn lemma_text_order()
    ensures
        strict_total(text_order()),
{
    lemma_char_order();
    lemma_lex_strict_total(char_order());
}

/// The order on key components is a strict total order.
pub proof fn lemma_part_order()
    ensures
        strict_total(part_order()),
{
    lemma_char_order();
    lemma_lex_strict_total(char_order());
    lemma_text_order();
    lemma_lex_strict_total(text_order());
    assert forall|x: KeyPart, y: KeyPart, z: KeyPart|
        #[trigger] part_order()(x, y) && #[trigger] part_order()(y, z) implies part_order()(
        x,
        z,
    ) by {
        match (x, y, z) {
            (KeyPart::Text(a), KeyPart::Text(b), KeyPart::Text(c)) => {
                assert(lex_lt(a, b, char_order()) && lex_lt(b, c, char_order()));
            },
            (KeyPart::Texts(a), KeyPart::Texts(b), KeyPart::Texts(c)) => {
                assert(lex_lt(a, b, text_order()) && lex_lt(b, c, text_order()));
            },
            _ => {},
        }
    }
    assert forall|x: KeyPart, y: KeyPart| x != y implies #[trigger] part_order()(x, y)
        || #[trigger] part_order()(y, x) by {
        match (x, y) {
            (KeyPart::Text(a), KeyPart::Text(b)) => {
                assert(a != b);
            },
            (KeyPart::Texts(a), KeyPart::Texts(b)) => {
                assert(a != b);
            },
            _ => {},
        }
    }
    assert forall|x: KeyPart| !#[trigger] part_order()(x, x) by {
        match x {
            KeyPart::Text(a) => {
                assert(!lex_lt(a, a, char_order()));
            },
            KeyPart::Texts(a) => {
                assert(!lex_lt(a, a, text_order()));
            },
            _ => {},
        }
    }
}

/// The order on keys is a strict total order, so `key_le` is a total
/// preorder: total and transitive.
pub proof fn lemma_key_order()
    ensures
        forall|a: Seq<KeyPart>, b: Seq<KeyPart>| #[trigger] key_le(a, b) || #[trigger] key_le(b, a),
        forall|a: Seq<KeyPart>, b: Seq<KeyPart>, c: Seq<KeyPart>|
            #[trigger] key_le(a, b) && #[trigger] key_le(b, c) ==> key_le(a, c),
{
    lemma_part_order();
    lemma_lex_strict_total(part_order());
    assert forall|a: Seq<KeyPart>, b: Seq<KeyPart>|
        #[trigger] key_le(a, b) || #[trigger] key_le(b, a) by {
        if key_lt(a, b) && key_lt(b, a) {
            assert(key_lt(a, a));
        }
    }
    assert forall|a: Seq<KeyPart>, b: Seq<KeyPart>, c: Seq<KeyPart>|
        #[trigger] key_le(a, b) && #[trigger] key_le(b, c) implies key_le(a, c) by {
        if key_lt(c, a) {
            if a == b {
            } else if key_lt(a, b) {
                assert(key_lt(c, b));
            } else {
                assert(key_lt(b, a));
            }
        }
    }
}

/// One step of comparing keys: the first components decide unless they
/// are equal.
pub proof fn lemma_key_lt_step(x: Seq<KeyPart>, y: Seq<KeyPart>)
    requires
        x.len() > 0,
        y.len() > 0,
    ensures
        key_lt(x, y) == (part_lt(x[0], y[0]) || (x[0] == y[0] && key_lt(
            x.drop_first(),
            y.drop_first(),
        ))),
        x[0] == y[0] ==> key_lt(x, y) == key_lt(x.drop_first(), y.drop_first()),
{
    lemma_part_order();
    assert(!part_order()(x[0], x[0]));
}

/// Equal-length keys that run out are not ordered.
pub proof fn lemma_key_lt_nil(x: Seq<KeyPart>, y: Seq<KeyPart>)
    requires
        x.len() == 0,
        y.len() == 0,
    ensures
        !key_lt(x, y),
{
}

/// A value that sorts by a key computed from its view.
pub trait Keyed: DeepView + Sized {
    /// The key a value with view `v` sorts by.
    spec fn view_key(v: <Self as DeepView>::V) -> Seq<KeyPart>;

    /// Whether `self` may stand before `other`.
    fn key_le(&self, other: &Self) -> (r: bool)
        ensures
            r == key_le(Self::view_key(self.deep_view()), Self::view_key(other.deep_view())),
    ;
}

/// The sort key of a `T`, as a function of its view.
pub open spec fn view_keyed<T: Keyed>() -> spec_fn(<T as DeepView>::V) -> Seq<KeyPart> {
    |v: <T as DeepView>::V| T::view_key(v)
}

/// The sort key of a `T`, as a function of the value.
pub open spec fn value_keyed<T: Keyed>() -> spec_fn(T) -> Seq<KeyPart> {
    |t: T| T::view_key(t.deep_view())
}

/// `s` with `x` placed after every trailing element that must follow it:
/// one step of a stable insertion.
pub open spec fn insert_by<A>(s: Seq<A>, x: A, key: spec_fn(A) -> Seq<KeyPart>) -> Seq<A>
    decreases s.len(),
{
    if s.len() == 0 {
        seq![x]
    } else if key_le(key(s.last()), key(x)) {
        s.push(x)
    } else {
        insert_by(s.drop_last(), x, key).push(s.last())
    }
}

/// `s` in key order, with equal keys in their original order: what a
/// stable sort by key returns.
pub open spec fn sorted_by<A>(s: Seq<A>, key: spec_fn(A) -> Seq<KeyPart>) -> Seq<A>
    decreases s.len(),
{
    if s.len() == 0 {
        s
    } else {
        insert_by(sorted_by(s.drop_last(), key), s.last(), key)
    }
}

/// Whether `s` is in key order.
pub open spec fn is_sorted_by<A>(s: Seq<A>, key: spec_fn(A) -> Seq<KeyPart>) -> bool {
    forall|i: int, j: int| 0 <= i < j < s.len() ==> key_le(key(#[trigger] s[i]), key(#[trigger] s[j]))
}

proof fn lemma_insert_at<A>(s: Seq<A>, x: A, j: int, key: spec_fn(A) -> Seq<KeyPart>)
    requires
        0 <= j <= s.len(),
        j == 0 || key_le(key(s[j - 1]), key(x)),
        forall|p: int| j <= p < s.len() ==> !key_le(key(#[trigger] s[p]), key(x)),
    ensures
        insert_by(s, x, key) == s.take(j).push(x) + s.skip(j),
    decreases s.len() - j,
{
    if s.len() == j {
        if j == 0 {
            assert(s.take(j).push(x) + s.skip(j) =~= seq![x]);
        } else {
            assert(s.take(j).push(x) + s.skip(j) =~= s.push(x));
        }
    } else {
        assert(!key_le(key(s.last()), key(x)));
        let t = s.drop_last();
        assert forall|p: int| j <= p < t.len() implies !key_le(key(#[trigger] t[p]), key(x)) by {
            assert(t[p] == s[p]);
        }
        if j > 0 {
            assert(t[j - 1] == s[j - 1]);
        }
        lemma_insert_at(t, x, j, key);
        assert(t.take(j).push(x) + t.skip(j) + seq![s.last()] =~= s.take(j).push(x) + s.skip(j));
    }
}

proof fn lemma_insert_by_map<A, B>(
    s: Seq<A>,
    x: A,
    f: spec_fn(A) -> B,
    ka: spec_fn(A) -> Seq<KeyPart>,
    kb: spec_fn(B) -> Seq<KeyPart>,
)
    requires
        forall|a: A| #[trigger] ka(a) == kb(f(a)),
    ensures
        insert_by(s, x, ka).map_values(f) == insert_by(s.map_values(f), f(x), kb),
    decreases s.len(),
{
    let m = s.map_values(f);
    if s.len() == 0 {
        assert(seq![x].map_values(f) =~= seq![f(x)]);
    } else {
        assert(m.last() == f(s.last()));
        assert(ka(s.last()) == kb(f(s.last())));
        assert(ka(x) == kb(f(x)));
        if key_le(ka(s.last()), ka(x)) {
            assert(s.push(x).map_values(f) =~= m.push(f(x)));
        } else {
            lemma_insert_by_map(s.drop_last(), x, f, ka, kb);
            assert(s.drop_last().map_values(f) =~= m.drop_last());
            assert(insert_by(s.drop_last(), x, ka).push(s.last()).map_values(f) =~= insert_by(
                s.drop_last(),
                x,
                ka,
            ).map_values(f).push(f(s.last())));
        }
    }
}

/// Sorting commutes with a map that the keys factor through.
pub proof fn lemma_sorted_by_map<A, B>(
    s: Seq<A>,
    f: spec_fn(A) -> B,
    ka: spec_fn(A) -> Seq<KeyPart>,
    kb: spec_fn(B) -> Seq<KeyPart>,
)
    requires
        forall|a: A| #[trigger] ka(a) == kb(f(a)),
    ensures
        sorted_by(s, ka).map_values(f) == sorted_by(s.map_values(f), kb),
    decreases s.len(),
{
    if s.len() == 0 {
        assert(s.map_values(f) =~= Seq::<B>::empty());
    } else {
        lemma_sorted_by_map(s.drop_last(), f, ka, kb);
        lemma_insert_by_map(sorted_by(s.drop_last(), ka), s.last(), f, ka, kb);
        assert(s.drop_last().map_values(f) =~= s.map_values(f).drop_last());
    }
}

/// No two items of `s` share a key.
pub open spec fn keys_distinct<A>(s: Seq<A>, key: spec_fn(A) -> Seq<KeyPart>) -> bool {
    forall|i: int, j: int| 0 <= i < j < s.len() ==> key(#[trigger] s[i]) != key(#[trigger] s[j])
}

/// Keys that may each stand before the other are the same key.
proof fn lemma_key_le_antisymmetric(x: Seq<KeyPart>, y: Seq<KeyPart>)
    requires
        key_le(x, y),
        key_le(y, x),
    ensures
        x == y,
{
    lemma_part_order();
    lemma_lex_strict_total(part_order());
}

/// Rearranging items whose keys are distinct keeps them distinct.
pub proof fn lemma_keys_distinct_rearranged<A>(s: Seq<A>, p: Seq<A>, key: spec_fn(A) -> Seq<KeyPart>)
    requires
        s.to_multiset() == p.to_multiset(),
        keys_distinct(s, key),
    ensures
        keys_distinct(p, key),
{
    broadcast use vstd::seq_lib::group_to_multiset_ensures;
    assert(s.no_duplicates()) by {
        assert forall|i: int, j: int| 0 <= i < s.len() && 0 <= j < s.len() && i != j implies s[i]
            != s[j] by {
            if i < j {
                assert(key(s[i]) != key(s[j]));
            } else {
                assert(key(s[j]) != key(s[i]));
            }
        }
    }
    s.lemma_multiset_has_no_duplicates();
    p.lemma_multiset_has_no_duplicates_conv();
    assert forall|i: int, j: int| 0 <= i < j < p.len() implies key(#[trigger] p[i]) != key(
        #[trigger] p[j],
    ) by {
        if key(p[i]) == key(p[j]) {
            assert(p[i] != p[j]);
            assert(p.contains(p[i]));
            assert(p.contains(p[j]));
            assert(p.to_multiset().count(p[i]) > 0);
            assert(p.to_multiset().count(p[j]) > 0);
            assert(s.to_multiset().count(p[i]) > 0);
            assert(s.to_multiset().count(p[j]) > 0);
            assert(s.contains(p[i]));
            assert(s.contains(p[j]));
            let a = choose|a: int| 0 <= a < s.len() && s[a] == p[i];
            let b = choose|b: int| 0 <= b < s.len() && s[b] == p[j];
            if a < b {
                assert(key(s[a]) != key(s[b]));
            } else {
                assert(key(s[b]) != key(s[a]));
            }
        }
    }
}

/// Two lists in key order that hold the same items, no two of which share
/// a key, are the same list.
proof fn lemma_sorted_unique<A>(a: Seq<A>, b: Seq<A>, key: spec_fn(A) -> Seq<KeyPart>)
    requires
        is_sorted_by(a, key),
        is_sorted_by(b, key),
        a.to_multiset() == b.to_multiset(),
        keys_distinct(a, key),
    ensures
        a == b,
    decreases a.len(),
{
    broadcast use vstd::seq_lib::group_to_multiset_ensures;
    vstd::seq_lib::to_multiset_len(a);
    vstd::seq_lib::to_multiset_len(b);
    assert(a.len() == b.len());
    if a.len() > 0 {
        assert(a.contains(a[0]));
        assert(a.to_multiset().count(a[0]) > 0);
        assert(b.to_multiset().count(a[0]) > 0);
        assert(b.contains(a[0]));
        let j = choose|j: int| 0 <= j < b.len() && b[j] == a[0];
        assert(b.contains(b[0]));
        assert(b.to_multiset().count(b[0]) > 0);
        assert(a.to_multiset().count(b[0]) > 0);
        assert(a.contains(b[0]));
        let i = choose|i: int| 0 <= i < a.len() && a[i] == b[0];
        if i > 0 {
            assert(key_le(key(a[0]), key(a[i])));
            if j > 0 {
                assert(key_le(key(b[0]), key(b[j])));
            }
            lemma_key_le_antisymmetric(key(a[0]), key(a[i]));
            assert(key(a[0]) != key(a[i]));
        }
        assert(a[0] == b[0]);
        let a1 = a.drop_first();
        let b1 = b.drop_first();
        assert(a.remove(0) =~= a1);
        assert(b.remove(0) =~= b1);
        assert(a1.to_multiset() =~= b1.to_multiset());
        assert forall|p: int, q: int| 0 <= p < q < a1.len() implies key_le(
            key(#[trigger] a1[p]),
            key(#[trigger] a1[q]),
        ) by {
            assert(a1[p] == a[p + 1] && a1[q] == a[q + 1]);
        }
        assert forall|p: int, q: int| 0 <= p < q < b1.len() implies key_le(
            key(#[trigger] b1[p]),
            key(#[trigger] b1[q]),
        ) by {
            assert(b1[p] == b[p + 1] && b1[q] == b[q + 1]);
        }
        assert forall|p: int, q: int| 0 <= p < q < a1.len() implies key(#[trigger] a1[p]) != key(
            #[trigger] a1[q],
        ) by {
            assert(a1[p] == a[p + 1] && a1[q] == a[q + 1]);
        }
        lemma_sorted_unique(a1, b1, key);
        assert(a =~= b) by {
            assert forall|p: int| 0 <= p < a.len() implies a[p] == b[p] by {
                if p > 0 {
                    assert(a[p] == a1[p - 1] && b[p] == b1[p - 1]);
                }
            }
        }
    } else {
        assert(a =~= b);
    }
}

proof fn lemma_sorted_unique_values<A>(a: Seq<A>, b: Seq<A>, key: spec_fn(A) -> Seq<KeyPart>)
    requires
        is_sorted_by(a, key),
        is_sorted_by(b, key),
        a.to_multiset() == b.to_multiset(),
        forall|i: int, j: int|
            0 <= i < a.len() && 0 <= j < a.len() && key(#[trigger] a[i]) == key(#[trigger] a[j])
                ==> a[i] == a[j],
    ensures
        a == b,
    decreases a.len(),
{
    broadcast use vstd::seq_lib::group_to_multiset_ensures;
    vstd::seq_lib::to_multiset_len(a);
    vstd::seq_lib::to_multiset_len(b);
    if a.len() > 0 {
        assert(a.contains(a[0]));
        assert(b.to_multiset().count(a[0]) > 0);
        assert(b.contains(a[0]));
        let j = choose|j: int| 0 <= j < b.len() && b[j] == a[0];
        assert(b.contains(b[0]));
        assert(a.to_multiset().count(b[0]) > 0);
        assert(a.contains(b[0]));
        let i = choose|i: int| 0 <= i < a.len() && a[i] == b[0];
        if i > 0 && j > 0 {
            assert(key_le(key(a[0]), key(a[i])));
            assert(key_le(key(b[0]), key(b[j])));
            lemma_key_le_antisymmetric(key(a[0]), key(a[i]));
        }
        assert(a[0] == b[0]);
        let a1 = a.drop_first();
        let b1 = b.drop_first();
        assert(a.remove(0) =~= a1);
        assert(b.remove(0) =~= b1);
        assert(a1.to_multiset() =~= b1.to_multiset());
        assert forall|p: int, q: int| 0 <= p < q < a1.len() implies key_le(
            key(#[trigger] a1[p]),
            key(#[trigger] a1[q]),
        ) by {
            assert(a1[p] == a[p + 1] && a1[q] == a[q + 1]);
        }
        assert forall|p: int, q: int| 0 <= p < q < b1.len() implies key_le(
            key(#[trigger] b1[p]),
            key(#[trigger] b1[q]),
        ) by {
            assert(b1[p] == b[p + 1] && b1[q] == b[q + 1]);
        }
        assert forall|p: int, q: int|
            0 <= p < a1.len() && 0 <= q < a1.len() && key(#[trigger] a1[p]) == key(#[trigger] a1[q])
                implies a1[p] == a1[q] by {
            assert(a1[p] == a[p + 1] && a1[q] == a[q + 1]);
        }
        lemma_sorted_unique_values(a1, b1, key);
        assert(a =~= b) by {
            assert forall|p: int| 0 <= p < a.len() implies a[p] == b[p] by {
                if p > 0 {
                    assert(a[p] == a1[p - 1] && b[p] == b1[p - 1]);
                }
            }
        }
    } else {
        assert(a =~= b);
    }
}

/// A stable sort does not depend on the order items arrive in, when items
/// that share a key are the same item: the same items in any order sort to
/// the same list.
pub proof fn lemma_sorted_by_same_items<A>(s: Seq<A>, t: Seq<A>, key: spec_fn(A) -> Seq<KeyPart>)
    requires
        s.to_multiset() == t.to_multiset(),
        forall|x: A, y: A| s.contains(x) && s.contains(y) && #[trigger] key(x) == #[trigger] key(y) ==> x == y,
    ensures
        sorted_by(s, key) == sorted_by(t, key),
{
    broadcast use vstd::seq_lib::group_to_multiset_ensures;
    lemma_sorted_by(s, key);
    lemma_sorted_by(t, key);
    let a = sorted_by(s, key);
    assert forall|i: int, j: int|
        0 <= i < a.len() && 0 <= j < a.len() && key(#[trigger] a[i]) == key(#[trigger] a[j]) implies a[i]
        == a[j] by {
        assert(a.contains(a[i]) && a.contains(a[j]));
        assert(a.to_multiset().count(a[i]) > 0 && a.to_multiset().count(a[j]) > 0);
        assert(s.contains(a[i]) && s.contains(a[j]));
    }
    lemma_sorted_unique_values(a, sorted_by(t, key), key);
}

/// A stable sort does not depend on the order items arrive in, when no two
/// of them share a key: the same items in any order sort to the same list.
pub proof fn lemma_sorted_by_ignores_arrival_order<A>(
    s: Seq<A>,
    t: Seq<A>,
    key: spec_fn(A) -> Seq<KeyPart>,
)
    requires
        s.to_multiset() == t.to_multiset(),
        keys_distinct(s, key),
    ensures
        sorted_by(s, key) == sorted_by(t, key),
{
    lemma_sorted_by(s, key);
    lemma_sorted_by(t, key);
    lemma_keys_distinct_rearranged(s, sorted_by(s, key), key);
    lemma_sorted_unique(sorted_by(s, key), sorted_by(t, key), key);
}

/// Sort `v` by key, keeping equal keys in their original order.
pub fn stable_sort<T: Keyed>(v: &mut Vec<T>)
    ensures
        final(v)@ == sorted_by(old(v)@, value_keyed::<T>()),
        final(v).deep_view() == sorted_by(old(v).deep_view(), view_keyed::<T>()),
{
    let ghost key = value_keyed::<T>();
    let mut rest: Vec<T> = Vec::new();
    std::mem::swap(&mut rest, v);
    let ghost input = rest@;
    let mut out: Vec<T> = Vec::new();
    let mut k: usize = 0;
    assert(input.len() == rest.len());
    while rest.len() > 0
        invariant
            key == value_keyed::<T>(),
            input.len() <= usize::MAX,
            k + rest.len() == input.len(),
            rest@ == input.skip(k as int),
            out@ == sorted_by(input.take(k as int), key),
        decreases rest.len(),
    {
        let x = rest.remove(0);
        let mut j: usize = out.len();
        while j > 0 && !out[j - 1].key_le(&x)
            invariant
                key == value_keyed::<T>(),
                j <= out.len(),
                forall|p: int| j <= p < out.len() ==> !key_le(key(#[trigger] out@[p]), key(x)),
            decreases j,
        {
            j = j - 1;
        }
        proof {
            assert(input.take(k + 1).drop_last() =~= input.take(k as int));
            assert(input.take(k + 1).last() == x);
            lemma_insert_at(out@, x, j as int, key);
        }
        out.insert(j, x);
        k = k + 1;
        assert(out@ =~= sorted_by(input.take(k as int), key));
        assert(rest@ =~= input.skip(k as int));
    }
    assert(input.take(k as int) =~= input);
    proof {
        let f = |t: T| t.deep_view();
        lemma_sorted_by_map(input, f, key, view_keyed::<T>());
        assert(out.deep_view() =~= out@.map_values(f));
        assert(input.map_values(f) =~= old(v).deep_view());
    }
    *v = out;
}

proof fn lemma_insert_by_keeps_order<A>(s: Seq<A>, x: A, key: spec_fn(A) -> Seq<KeyPart>)
    requires
        is_sorted_by(s, key),
    ensures
        is_sorted_by(insert_by(s, x, key), key),
        insert_by(s, x, key).to_multiset() == s.to_multiset().insert(x),
    decreases s.len(),
{
    lemma_key_order();
    broadcast use vstd::seq_lib::group_seq_properties;
    if s.len() == 0 {
        assert(seq![x] =~= Seq::<A>::empty().push(x));
        assert(seq![x].to_multiset() =~= Seq::<A>::empty().to_multiset().insert(x));
    } else if key_le(key(s.last()), key(x)) {
        let r = s.push(x);
        assert forall|i: int, j: int| 0 <= i < j < r.len() implies key_le(
            key(#[trigger] r[i]),
            key(#[trigger] r[j]),
        ) by {
            if j == s.len() {
                if i < s.len() - 1 {
                    assert(key_le(key(s[i]), key(s[s.len() - 1])));
                }
            }
        }
        assert(r.to_multiset() == s.to_multiset().insert(x));
    } else {
        let t = s.drop_last();
        assert forall|i: int, j: int| 0 <= i < j < t.len() implies key_le(
            key(#[trigger] t[i]),
            key(#[trigger] t[j]),
        ) by {
            assert(t[i] == s[i] && t[j] == s[j]);
        }
        lemma_insert_by_keeps_order(t, x, key);
        let u = insert_by(t, x, key);
        let r = u.push(s.last());
        assert(key_le(key(x), key(s.last())));
        assert forall|e: A| #[trigger] u.to_multiset().count(e) > 0 implies key_le(
            key(e),
            key(s.last()),
        ) by {
            assert(u.contains(e));
            if e != x {
                assert(t.to_multiset().count(e) > 0);
                assert(t.contains(e));
                let k = choose|k: int| 0 <= k < t.len() && t[k] == e;
                assert(key_le(key(s[k]), key(s[s.len() - 1])));
            }
        }
        assert forall|i: int, j: int| 0 <= i < j < r.len() implies key_le(
            key(#[trigger] r[i]),
            key(#[trigger] r[j]),
        ) by {
            if j == u.len() {
                assert(u.contains(u[i]));
                assert(u.to_multiset().count(u[i]) > 0);
            }
        }
        assert(s =~= t.push(s.last()));
        assert(s.to_multiset() =~= t.to_multiset().insert(s.last()));
        assert(r.to_multiset() =~= u.to_multiset().insert(s.last()));
        assert(r.to_multiset() =~= s.to_multiset().insert(x));
    }
}

/// A stable sort returns its input in key order, and holds exactly the
/// values it was given.
pub proof fn lemma_sorted_by<A>(s: Seq<A>, key: spec_fn(A) -> Seq<KeyPart>)
    ensures
        is_sorted_by(sorted_by(s, key), key),
        sorted_by(s, key).to_multiset() == s.to_multiset(),
    decreases s.len(),
{
    broadcast use vstd::seq_lib::group_seq_properties;
    if s.len() == 0 {
    } else {
        lemma_sorted_by(s.drop_last(), key);
        lemma_insert_by_keeps_order(sorted_by(s.drop_last(), key), s.last(), key);
        assert(s =~= s.drop_last().push(s.last()));
    }
}

/// The items of `s` whose key is `k`, in the order `s` holds them.
pub open spec fn keyed_as<A>(s: Seq<A>, key: spec_fn(A) -> Seq<KeyPart>, k: Seq<KeyPart>) -> Seq<A>
    decreases s.len(),
{
    if s.len() == 0 {
        Seq::empty()
    } else if key(s.last()) == k {
        keyed_as(s.drop_last(), key, k).push(s.last())
    } else {
        keyed_as(s.drop_last(), key, k)
    }
}

proof fn lemma_insert_by_keyed_as<A>(
    s: Seq<A>,
    x: A,
    key: spec_fn(A) -> Seq<KeyPart>,
    k: Seq<KeyPart>,
)
    ensures
        keyed_as(insert_by(s, x, key), key, k) == (if key(x) == k {
            keyed_as(s, key, k).push(x)
        } else {
            keyed_as(s, key, k)
        }),
    decreases s.len(),
{
    if s.len() == 0 {
        assert(seq![x].drop_last() =~= Seq::<A>::empty());
        assert(seq![x].last() == x);
        assert(keyed_as(s, key, k) =~= Seq::<A>::empty());
        assert(keyed_as(Seq::<A>::empty(), key, k) =~= Seq::<A>::empty());
    } else if key_le(key(s.last()), key(x)) {
        assert(s.push(x).drop_last() =~= s);
        assert(s.push(x).last() == x);
    } else {
        lemma_part_order();
        lemma_lex_strict_total(part_order());
        assert(key(s.last()) != key(x));
        let t = s.drop_last();
        lemma_insert_by_keyed_as(t, x, key, k);
        let u = insert_by(t, x, key);
        assert(insert_by(s, x, key) == u.push(s.last()));
        let v = u.push(s.last());
        assert(v.drop_last() =~= u);
        assert(v.last() == s.last());
        assert(keyed_as(v, key, k) == (if key(s.last()) == k {
            keyed_as(u, key, k).push(s.last())
        } else {
            keyed_as(u, key, k)
        }));
        assert(keyed_as(s, key, k) == (if key(s.last()) == k {
            keyed_as(t, key, k).push(s.last())
        } else {
            keyed_as(t, key, k)
        }));
    }
}

/// A stable sort keeps items with the same key in the order they came in:
/// for every key, the items with that key stand in the same order before
/// and after sorting.
pub proof fn lemma_sorted_by_is_stable<A>(s: Seq<A>, key: spec_fn(A) -> Seq<KeyPart>, k: Seq<KeyPart>)
    ensures
        keyed_as(sorted_by(s, key), key, k) == keyed_as(s, key, k),
    decreases s.len(),
{
    if s.len() > 0 {
        lemma_sorted_by_is_stable(s.drop_last(), key, k);
        lemma_insert_by_keyed_as(sorted_by(s.drop_last(), key), s.last(), key, k);
    }
}

/// A sequence already in key order is its own stable sort.
pub proof fn lemma_sorted_by_sorted<A>(s: Seq<A>, key: spec_fn(A) -> Seq<KeyPart>)
    requires
        is_sorted_by(s, key),
    ensures
        sorted_by(s, key) == s,
    decreases s.len(),
{
    if s.len() > 0 {
        let t = s.drop_last();
        assert forall|i: int, j: int| 0 <= i < j < t.len() implies key_le(
            key(#[trigger] t[i]),
            key(#[trigger] t[j]),
        ) by {
            assert(t[i] == s[i] && t[j] == s[j]);
        }
        lemma_sorted_by_sorted(t, key);
        if t.len() > 0 {
            assert(key_le(key(s[t.len() - 1]), key(s[s.len() - 1])));
            assert(t.last() == s[t.len() - 1]);
        }
        assert(t.push(s.last()) =~= s);
    }
}

/// Sorting twice sorts no further.
pub proof fn lemma_sorted_by_idempotent<A>(s: Seq<A>, key: spec_fn(A) -> Seq<KeyPart>)
    ensures
        sorted_by(sorted_by(s, key), key) == sorted_by(s, key),
{
    lemma_sorted_by(s, key);
    lemma_sorted_by_sorted(sorted_by(s, key), key);
}

/// Sorting keeps the length.
pub proof fn lemma_sorted_by_len<A>(s: Seq<A>, key: spec_fn(A) -> Seq<KeyPart>)
    ensures
        sorted_by(s, key).len() == s.len(),
    decreases s.len(),
{
    if s.len() > 0 {
        lemma_sorted_by_len(s.drop_last(), key);
        lemma_insert_by_len(sorted_by(s.drop_last(), key), s.last(), key);
    }
}

proof fn lemma_insert_by_len<A>(s: Seq<A>, x: A, key: spec_fn(A) -> Seq<KeyPart>)
    ensures
        insert_by(s, x, key).len() == s.len() + 1,
    decreases s.len(),
{
    if s.len() > 0 {
        lemma_insert_by_len(s.drop_last(), x, key);
    }
}

/// Whether `a` sorts strictly before `b` as text: `a < b` on strings.
pub fn text_lt_exec(a: &str, b: &str) -> (r: bool)
    ensures
        r == text_lt(a@, b@),
{
    let x = crate::text::chars_of(a);
    let y = crate::text::chars_of(b);
    let mut i: usize = 0;
    assert(a@.skip(0) =~= a@ && b@.skip(0) =~= b@);
    while i < x.len() && i < y.len() && x[i] == y[i]
        invariant
            x@ == a@,
            y@ == b@,
            i <= x.len(),
            i <= y.len(),
            x@.take(i as int) == y@.take(i as int),
            lex_lt(a@, b@, char_order()) == lex_lt(a@.skip(i as int), b@.skip(i as int), char_order()),
        decreases x.len() - i,
    {
        proof {
            let p = a@.skip(i as int);
            let q = b@.skip(i as int);
            assert(p.drop_first() =~= a@.skip(i + 1));
            assert(q.drop_first() =~= b@.skip(i + 1));
            assert(!((p[0] as int) < (q[0] as int)));
        }
        i = i + 1;
        assert(x@.take(i as int) =~= y@.take(i as int));
    }
    proof {
        let p = a@.skip(i as int);
        let q = b@.skip(i as int);
        if i < x.len() && i < y.len() {
            assert(p[0] == x@[i as int] && q[0] == y@[i as int]);
        }
    }
    if i == x.len() {
        i < y.len()
    } else if i == y.len() {
        false
    } else {
        x[i] < y[i]
    }
}

/// Whether list `a` sorts strictly before list `b`: `a < b` on
/// `Vec<String>`.
pub fn texts_lt_exec(a: &Vec<String>, b: &Vec<String>) -> (r: bool)
    ensures
        r == lex_lt(a.deep_view(), b.deep_view(), text_order()),
{
    let ghost da = a.deep_view();
    let ghost db = b.deep_view();
    let mut i: usize = 0;
    assert(da.skip(0) =~= da && db.skip(0) =~= db);
    while i < a.len() && i < b.len() && a[i] == b[i]
        invariant
            da == a.deep_view(),
            db == b.deep_view(),
            da.len() == a.len(),
            db.len() == b.len(),
            i <= a.len(),
            i <= b.len(),
            lex_lt(da, db, text_order()) == lex_lt(da.skip(i as int), db.skip(i as int), text_order()),
        decreases a.len() - i,
    {
        proof {
            lemma_text_order();
            let p = da.skip(i as int);
            let q = db.skip(i as int);
            assert(p[0] == a[i as int]@ && q[0] == b[i as int]@);
            assert(p.drop_first() =~= da.skip(i + 1));
            assert(q.drop_first() =~= db.skip(i + 1));
            assert(!text_order()(p[0], p[0]));
        }
        i = i + 1;
    }
    proof {
        let p = da.skip(i as int);
        let q = db.skip(i as int);
        if i < a.len() && i < b.len() {
            assert(p[0] == a[i as int]@ && q[0] == b[i as int]@);
        }
    }
    if i == a.len() {
        i < b.len()
    } else if i == b.len() {
        false
    } else {
        text_lt_exec(a[i].as_str(), b[i].as_str())
    }
}

/// A key made of text components only.
pub open spec fn text_key(parts: Seq<Seq<char>>) -> Seq<KeyPart> {
    parts.map_values(|t: Seq<char>| KeyPart::Text(t))
}

/// Whether the text key `a` sorts strictly before the text key `b`.
pub fn text_key_lt(a: &Vec<&str>, b: &Vec<&str>) -> (r: bool)
    ensures
        r == key_lt(text_key(a.deep_view()), text_key(b.deep_view())),
{
    let ghost ka = text_key(a.deep_view());
    let ghost kb = text_key(b.deep_view());
    let mut i: usize = 0;
    assert(ka.skip(0) =~= ka && kb.skip(0) =~= kb);
    while i < a.len() && i < b.len() && crate::text::str_eq(a[i], b[i])
        invariant
            ka == text_key(a.deep_view()),
            kb == text_key(b.deep_view()),
            ka.len() == a.len(),
            kb.len() == b.len(),
            i <= a.len(),
            i <= b.len(),
            key_lt(ka, kb) == key_lt(ka.skip(i as int), kb.skip(i as int)),
        decreases a.len() - i,
    {
        proof {
            let p = ka.skip(i as int);
            let q = kb.skip(i as int);
            assert(p[0] == KeyPart::Text(a[i as int]@) && q[0] == KeyPart::Text(b[i as int]@));
            lemma_key_lt_step(p, q);
            lemma_part_order();
            assert(!part_order()(p[0], p[0]));
            assert(p.drop_first() =~= ka.skip(i + 1));
            assert(q.drop_first() =~= kb.skip(i + 1));
        }
        i = i + 1;
    }
    proof {
        let p = ka.skip(i as int);
        let q = kb.skip(i as int);
        if i < a.len() && i < b.len() {
            assert(p[0] == KeyPart::Text(a[i as int]@) && q[0] == KeyPart::Text(b[i as int]@));
            lemma_key_lt_step(p, q);
        }
    }
    if i == a.len() {
        i < b.len()
    } else if i == b.len() {
        false
    } else {
        text_lt_exec(a[i], b[i])
    }
}

/// Whether two lists of text are equal entry by entry.
pub fn texts_eq(a: &Vec<String>, b: &Vec<String>) -> (r: bool)
    ensures
        r == (a.deep_view() == b.deep_view()),
{
    if a.len() != b.len() {
        assert(a.deep_view().len() != b.deep_view().len());
        return false;
    }
    let mut i: usize = 0;
    while i < a.len()
        invariant
            a.len() == b.len(),
            i <= a.len(),
            a.deep_view().take(i as int) == b.deep_view().take(i as int),
        decreases a.len() - i,
    {
        if a[i] != b[i] {
            assert(a.deep_view()[i as int] != b.deep_view()[i as int]);
            return false;
        }
        i = i + 1;
        assert(a.deep_view().take(i as int) =~= b.deep_view().take(i as int));
    }
    assert(a.deep_view().take(a.len() as int) =~= a.deep_view());
    assert(b.deep_view().take(b.len() as int) =~= b.deep_view());
    true
}

} // verus!
