//! The order of token identifiers: CW20 tokens before native denoms, each by
//! address or denom, compared character by character.
use vstd::prelude::*;
use vstd::string::*;
use crate::types::{AssetInfo, AssetKey};

verus! {

/// Strict lexicographic order on strings, by character.
pub open spec fn text_lt(a: Seq<char>, b: Seq<char>) -> bool
    decreases a.len(),
{
    if a.len() == 0 {
        b.len() > 0
    } else if b.len() == 0 {
        false
    } else if a[0] != b[0] {
        (a[0] as int) < (b[0] as int)
    } else {
        text_lt(a.drop_first(), b.drop_first())
    }
}

/// Strict order on token identifiers: every CW20 token comes before every
/// native denom; within a kind, by address or denom.
pub open spec fn key_lt(a: AssetKey, b: AssetKey) -> bool {
    match (a, b) {
        (AssetKey::Token(x), AssetKey::Token(y)) => text_lt(x, y),
        (AssetKey::Native(x), AssetKey::Native(y)) => text_lt(x, y),
        (AssetKey::Token(_), AssetKey::Native(_)) => true,
        (AssetKey::Native(_), AssetKey::Token(_)) => false,
    }
}

/// No element is below one before it.
pub open spec fn is_sorted(s: Seq<AssetKey>) -> bool {
    forall|i: int, j: int| 0 <= i < j < s.len() ==> !key_lt(#[trigger] s[j], #[trigger] s[i])
}

/// Where `x` goes in `s`: before the first element above it.
pub open spec fn insert_pos(s: Seq<AssetKey>, x: AssetKey) -> nat
    decreases s.len(),
{
    if s.len() == 0 {
        0
    } else if key_lt(x, s[0]) {
        0
    } else {
        1 + insert_pos(s.drop_first(), x)
    }
}

/// `s` in order; elements that neither precedes keep the order they came in.
pub open spec fn sort_keys(s: Seq<AssetKey>) -> Seq<AssetKey>
    decreases s.len(),
{
    if s.len() == 0 {
        s
    } else {
        let r = sort_keys(s.drop_last());
        r.insert(insert_pos(r, s.last()) as int, s.last())
    }
}

/// The identifiers of a sequence of token identifiers.
pub open spec fn keys(s: Seq<AssetInfo>) -> Seq<AssetKey> {
    s.map_values(|a: AssetInfo| a@)
}

pub proof fn lemma_text_lt_irreflexive(a: Seq<char>)
    ensures
        !text_lt(a, a),
    decreases a.len(),
{
    if a.len() > 0 {
        lemma_text_lt_irreflexive(a.drop_first());
    }
}

pub proof fn lemma_text_lt_asymmetric(a: Seq<char>, b: Seq<char>)
    ensures
        !(text_lt(a, b) && text_lt(b, a)),
    decreases a.len(),
{
    if a.len() > 0 && b.len() > 0 && a[0] == b[0] {
        lemma_text_lt_asymmetric(a.drop_first(), b.drop_first());
    }
}

pub proof fn lemma_text_lt_transitive(a: Seq<char>, b: Seq<char>, c: Seq<char>)
    requires
        text_lt(a, b),
        text_lt(b, c),
    ensures
        text_lt(a, c),
    decreases a.len(),
{
    if a.len() > 0 && b.len() > 0 && c.len() > 0 && a[0] == b[0] && b[0] == c[0] {
        lemma_text_lt_transitive(a.drop_first(), b.drop_first(), c.drop_first());
    }
}

/// Two different strings are ordered one way or the other.
pub proof fn lemma_text_lt_total(a: Seq<char>, b: Seq<char>)
    requires
        a != b,
    ensures
        text_lt(a, b) || text_lt(b, a),
    decreases a.len(),
{
    if a.len() > 0 && b.len() > 0 && a[0] == b[0] {
        if a.drop_first() == b.drop_first() {
            assert(a =~= seq![a[0]] + a.drop_first());
            assert(b =~= seq![b[0]] + b.drop_first());
        }
        lemma_text_lt_total(a.drop_first(), b.drop_first());
    } else if a.len() > 0 && b.len() > 0 {
        assert((a[0] as int) != (b[0] as int));
    } else if a.len() == 0 && b.len() == 0 {
        assert(a =~= b);
    }
}

pub proof fn lemma_key_lt_asymmetric(a: AssetKey, b: AssetKey)
    ensures
        !(key_lt(a, b) && key_lt(b, a)),
{
    match (a, b) {
        (AssetKey::Token(x), AssetKey::Token(y)) => lemma_text_lt_asymmetric(x, y),
        (AssetKey::Native(x), AssetKey::Native(y)) => lemma_text_lt_asymmetric(x, y),
        _ => {},
    }
}

pub proof fn lemma_key_lt_transitive(a: AssetKey, b: AssetKey, c: AssetKey)
    requires
        key_lt(a, b),
        key_lt(b, c),
    ensures
        key_lt(a, c),
{
    match (a, b, c) {
        (AssetKey::Token(x), AssetKey::Token(y), AssetKey::Token(z)) => lemma_text_lt_transitive(x, y, z),
        (AssetKey::Native(x), AssetKey::Native(y), AssetKey::Native(z)) => lemma_text_lt_transitive(x, y, z),
        _ => {},
    }
}

/// Two different identifiers are ordered one way or the other.
pub proof fn lemma_key_lt_total(a: AssetKey, b: AssetKey)
    requires
        a != b,
    ensures
        key_lt(a, b) || key_lt(b, a),
{
    match (a, b) {
        (AssetKey::Token(x), AssetKey::Token(y)) => lemma_text_lt_total(x, y),
        (AssetKey::Native(x), AssetKey::Native(y)) => lemma_text_lt_total(x, y),
        _ => {},
    }
}

/// The insertion point is after everything not above `x` and before the rest.
proof fn lemma_insert_pos(s: Seq<AssetKey>, x: AssetKey)
    ensures
        insert_pos(s, x) <= s.len(),
        forall|k: int| 0 <= k < insert_pos(s, x) ==> !key_lt(x, #[trigger] s[k]),
        insert_pos(s, x) < s.len() ==> key_lt(x, s[insert_pos(s, x) as int]),
    decreases s.len(),
{
    if s.len() > 0 && !key_lt(x, s[0]) {
        lemma_insert_pos(s.drop_first(), x);
        assert forall|k: int| 0 <= k < insert_pos(s, x) implies !key_lt(x, #[trigger] s[k]) by {
            if k > 0 {
                assert(s[k] == s.drop_first()[k - 1]);
            }
        }
    }
}

/// The first position whose element is above `x` is the insertion point.
proof fn lemma_insert_pos_first(s: Seq<AssetKey>, x: AssetKey, j: int)
    requires
        0 <= j <= s.len(),
        forall|k: int| 0 <= k < j ==> !key_lt(x, #[trigger] s[k]),
        j < s.len() ==> key_lt(x, s[j]),
    ensures
        insert_pos(s, x) == j,
    decreases s.len(),
{
    if s.len() > 0 && j > 0 {
        assert(!key_lt(x, s[0]));
        assert forall|k: int| 0 <= k < j - 1 implies !key_lt(x, #[trigger] s.drop_first()[k]) by {
            assert(s.drop_first()[k] == s[k + 1]);
        }
        lemma_insert_pos_first(s.drop_first(), x, j - 1);
    }
}

/// Sorting keeps the elements and puts them in order.
pub proof fn lemma_sort_keys(s: Seq<AssetKey>)
    ensures
        is_sorted(sort_keys(s)),
        sort_keys(s).to_multiset() == s.to_multiset(),
        sort_keys(s).len() == s.len(),
    decreases s.len(),
{
    if s.len() > 0 {
        let r = sort_keys(s.drop_last());
        let x = s.last();
        lemma_sort_keys(s.drop_last());
        lemma_insert_pos(r, x);
        let p = insert_pos(r, x) as int;
        let t = r.insert(p, x);
        assert forall|i: int, j: int| 0 <= i < j < t.len() implies !key_lt(#[trigger] t[j], #[trigger] t[i]) by {
            if j < p {
                assert(t[i] == r[i] && t[j] == r[j]);
            } else if j == p {
                assert(t[i] == r[i] && t[j] == x);
            } else if i < p {
                assert(t[i] == r[i] && t[j] == r[j - 1]);
                if i < j - 1 {
                    assert(!key_lt(r[j - 1], r[i]));
                }
            } else if i == p {
                assert(t[i] == x && t[j] == r[j - 1]);
                assert(key_lt(x, r[p]));
                if key_lt(r[j - 1], x) {
                    lemma_key_lt_transitive(r[j - 1], x, r[p]);
                    if p < j - 1 {
                        assert(!key_lt(r[j - 1], r[p]));
                    } else {
                        lemma_key_lt_asymmetric(r[p], x);
                    }
                }
            } else {
                assert(t[i] == r[i - 1] && t[j] == r[j - 1]);
            }
        }
        vstd::seq_lib::to_multiset_insert(r, p, x);
        vstd::seq_lib::to_multiset_build(s.drop_last(), x);
        assert(s.drop_last().push(x) =~= s);
    }
}

/// Strict order of two strings, character by character.
pub fn text_less(a: &String, b: &String) -> (r: bool)
    ensures
        r == text_lt(a@, b@),
{
    let sa = a.as_str();
    let sb = b.as_str();
    let la = sa.unicode_len();
    let lb = sb.unicode_len();
    let mut i: usize = 0;
    assert(a@.skip(0) =~= a@ && b@.skip(0) =~= b@);
    while i < la && i < lb
        invariant
            la == a@.len(),
            lb == b@.len(),
            sa@ == a@,
            sb@ == b@,
            i <= la,
            i <= lb,
            text_lt(a@, b@) == text_lt(a@.skip(i as int), b@.skip(i as int)),
        decreases la - i,
    {
        let ca = sa.get_char(i);
        let cb = sb.get_char(i);
        assert(a@.skip(i as int)[0] == ca && b@.skip(i as int)[0] == cb);
        if ca != cb {
            return (ca as u32) < (cb as u32);
        }
        assert(a@.skip(i as int).drop_first() =~= a@.skip(i as int + 1));
        assert(b@.skip(i as int).drop_first() =~= b@.skip(i as int + 1));
        i = i + 1;
    }
    i < lb
}

/// Strict order of two token identifiers.
pub fn info_less(a: &AssetInfo, b: &AssetInfo) -> (r: bool)
    ensures
        r == key_lt(a@, b@),
{
    match (a, b) {
        (AssetInfo::Token { contract_addr: x }, AssetInfo::Token { contract_addr: y }) => text_less(x, y),
        (AssetInfo::NativeToken { denom: x }, AssetInfo::NativeToken { denom: y }) => text_less(x, y),
        (AssetInfo::Token { .. }, AssetInfo::NativeToken { .. }) => true,
        (AssetInfo::NativeToken { .. }, AssetInfo::Token { .. }) => false,
    }
}

/// The identifiers in order: CW20 tokens by address, then native denoms by denom.
pub fn sort_asset_infos(v: &Vec<AssetInfo>) -> (r: Vec<AssetInfo>)
    ensures
        keys(r@) == sort_keys(keys(v@)),
        r@.to_multiset() == v@.to_multiset(),
        is_sorted(keys(r@)),
{
    let mut r: Vec<AssetInfo> = Vec::new();
    let mut i: usize = 0;
    assert(keys(v@.take(0)) =~= Seq::<AssetKey>::empty());
    assert(r@ =~= v@.take(0));
    while i < v.len()
        invariant
            i <= v.len(),
            keys(r@) == sort_keys(keys(v@.take(i as int))),
            r@.to_multiset() == v@.take(i as int).to_multiset(),
        decreases v.len() - i,
    {
        let x = &v[i];
        let mut j: usize = 0;
        while j < r.len() && !info_less(x, &r[j])
            invariant
                j <= r.len(),
                forall|k: int| 0 <= k < j ==> !key_lt(x@, #[trigger] keys(r@)[k]),
            decreases r.len() - j,
        {
            j = j + 1;
        }
        let ghost before = r@;
        proof {
            lemma_insert_pos_first(keys(before), x@, j as int);
            assert(keys(v@.take(i as int + 1)).drop_last() =~= keys(v@.take(i as int)));
            assert(keys(v@.take(i as int + 1)).last() == x@);
        }
        r.insert(j, x.copy());
        proof {
            assert(keys(r@) =~= keys(before).insert(j as int, x@));
            vstd::seq_lib::to_multiset_insert(before, j as int, *x);
            vstd::seq_lib::to_multiset_build(v@.take(i as int), *x);
            assert(v@.take(i as int).push(*x) =~= v@.take(i as int + 1));
        }
        i = i + 1;
    }
    assert(v@.take(v.len() as int) =~= v@);
    proof { lemma_sort_keys(keys(v@)); }
    r
}

} // verus!
