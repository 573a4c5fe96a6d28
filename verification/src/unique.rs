//! The identities decide their profiles: no two lists are the profiles of
//! the same identities.

use vstd::prelude::*;
use crate::identity::IdentityView;
use crate::profile::{ProfileView, SshVariantView};
use crate::projection::{
    comes_from, entry_in_group, fits, has_profile, has_variant, is_profile_of, is_projection,
    lemma_profile_before_transitive, name_before, profile_before, same_group, same_key,
    variant_before, variant_of,
};
use crate::text::{
    lemma_text_before_asymmetric, lemma_text_before_irreflexive, lemma_text_before_transitive,
    text_before, without_sk,
};
use crate::text_map::strictly_sorted;

verus! {

/// `before` is a strict order: nothing stands before itself, and what
/// stands before something stands before all that comes after it.
pub open spec fn strict_order<T>(before: spec_fn(T, T) -> bool) -> bool {
    &&& forall|x: T| !#[trigger] before(x, x)
    &&& forall|x: T, y: T, z: T| #[trigger] before(x, y) && #[trigger] before(y, z) ==> before(x, z)
}

/// `s` rises strictly by `before`.
pub open spec fn rises<T>(s: Seq<T>, before: spec_fn(T, T) -> bool) -> bool {
    forall|i: int, j: int| 0 <= i < j < s.len() ==> before(#[trigger] s[i], #[trigger] s[j])
}

/// Every element of `s` is one of `t`.
pub open spec fn within<T>(s: Seq<T>, t: Seq<T>) -> bool {
    forall|i: int| 0 <= i < s.len() ==> t.contains(#[trigger] s[i])
}

/// Two sequences that rise strictly and hold the same elements are the
/// same sequence.
pub proof fn lemma_rising_equal<T>(s: Seq<T>, t: Seq<T>, before: spec_fn(T, T) -> bool)
    requires
        strict_order(before),
        rises(s, before),
        rises(t, before),
        within(s, t),
        within(t, s),
    ensures
        s == t,
    decreases s.len(),
{
    if s.len() == 0 {
        if t.len() > 0 {
            assert(s.contains(t[0]));
        }
        assert(s =~= t);
    } else {
        assert(t.contains(s[0]));
        assert(t.len() > 0);
        let a = s.last();
        let b = t.last();
        assert(s[s.len() - 1] == a);
        assert(t[t.len() - 1] == b);
        // The last elements are the same.
        assert(t.contains(a));
        let j = choose|j: int| 0 <= j < t.len() && t[j] == a;
        assert(s.contains(b));
        let i = choose|i: int| 0 <= i < s.len() && s[i] == b;
        if j < t.len() - 1 {
            assert(before(t[j], t[t.len() - 1]));
            if i < s.len() - 1 {
                assert(before(s[i], s[s.len() - 1]));
                assert(before(a, a));
            } else {
                assert(before(a, a));
            }
        }
        assert(a == b);
        let s0 = s.drop_last();
        let t0 = t.drop_last();
        assert(rises(s0, before)) by {
            assert forall|x: int, y: int| 0 <= x < y < s0.len() implies before(
                #[trigger] s0[x],
                #[trigger] s0[y],
            ) by {
                assert(s0[x] == s[x] && s0[y] == s[y]);
            }
        }
        assert(rises(t0, before)) by {
            assert forall|x: int, y: int| 0 <= x < y < t0.len() implies before(
                #[trigger] t0[x],
                #[trigger] t0[y],
            ) by {
                assert(t0[x] == t[x] && t0[y] == t[y]);
            }
        }
        assert(within(s0, t0)) by {
            assert forall|x: int| 0 <= x < s0.len() implies t0.contains(#[trigger] s0[x]) by {
                assert(s0[x] == s[x]);
                assert(t.contains(s[x]));
                let y = choose|y: int| 0 <= y < t.len() && t[y] == s[x];
                assert(before(s[x], s[s.len() - 1]));
                if y == t.len() - 1 {
                    assert(before(a, a));
                }
                assert(t0[y] == s0[x]);
            }
        }
        assert(within(t0, s0)) by {
            assert forall|x: int| 0 <= x < t0.len() implies s0.contains(#[trigger] t0[x]) by {
                assert(t0[x] == t[x]);
                assert(s.contains(t[x]));
                let y = choose|y: int| 0 <= y < s.len() && s[y] == t[x];
                assert(before(t[x], t[t.len() - 1]));
                if y == s.len() - 1 {
                    assert(before(b, b));
                }
                assert(s0[y] == t0[x]);
            }
        }
        lemma_rising_equal(s0, t0, before);
        assert(s =~= s0.push(a));
        assert(t =~= t0.push(b));
    }
}

/// The order of variants is a strict order.
pub proof fn lemma_variant_order()
    ensures
        strict_order(|a: SshVariantView, b: SshVariantView| variant_before(a, b)),
{
    let before = |a: SshVariantView, b: SshVariantView| variant_before(a, b);
    assert forall|x: SshVariantView| !#[trigger] before(x, x) by {
        lemma_text_before_irreflexive(x.identity_name);
    }
    assert forall|x: SshVariantView, y: SshVariantView, z: SshVariantView| #[trigger]
        before(x, y) && #[trigger] before(y, z) implies before(x, z) by {
        if x.key_type == y.key_type && y.key_type == z.key_type {
            lemma_text_before_transitive(x.identity_name, y.identity_name, z.identity_name);
        }
    }
}

/// The order of profiles is a strict order.
pub proof fn lemma_profile_order()
    ensures
        strict_order(|a: ProfileView, b: ProfileView| profile_before(a, b)),
{
    let before = |a: ProfileView, b: ProfileView| profile_before(a, b);
    assert forall|x: ProfileView| !#[trigger] before(x, x) by {
        lemma_text_before_irreflexive(x.name);
        lemma_text_before_irreflexive(x.provider);
        lemma_text_before_irreflexive(x.user);
    }
    assert forall|x: ProfileView, y: ProfileView, z: ProfileView| #[trigger]
        before(x, y) && #[trigger] before(y, z) implies before(x, z) by {
        lemma_profile_before_transitive(x, y, z);
    }
}

/// In a list in strict key order two entries with one name are one entry.
pub proof fn lemma_names_once(ids: Seq<(Seq<char>, IdentityView)>, a: int, b: int)
    requires
        strictly_sorted(ids),
        0 <= a < ids.len(),
        0 <= b < ids.len(),
        ids[a].0 == ids[b].0,
    ensures
        a == b,
{
    lemma_text_before_irreflexive(ids[a].0);
    if a < b {
        assert(text_before(ids[a].0, ids[b].0));
    } else if b < a {
        assert(text_before(ids[b].0, ids[a].0));
    }
}

/// The variants of a profile of `ids` are among those of any profile of the
/// same provider and user.
pub proof fn lemma_variants_within(
    ids: Seq<(Seq<char>, IdentityView)>,
    p: ProfileView,
    q: ProfileView,
)
    requires
        strictly_sorted(ids),
        is_profile_of(ids, p),
        is_profile_of(ids, q),
        same_key(p, q),
    ensures
        within(p.variants, q.variants),
{
    assert forall|j: int| 0 <= j < p.variants.len() implies q.variants.contains(
        #[trigger] p.variants[j],
    ) by {
        let v = p.variants[j];
        assert(comes_from(ids, ids.len() as int, p.provider, p.user, v));
        let k = choose|k: int|
            0 <= k < ids.len() && k < ids.len() && #[trigger] variant_of(ids, k) == v
                && same_group(ids[k].1, p.provider, p.user);
        assert(entry_in_group(ids, k, q.provider, q.user));
        assert(has_variant(q.variants, ids[k].0));
        let i = choose|i: int|
            0 <= i < q.variants.len() && (#[trigger] q.variants[i]).identity_name == ids[k].0;
        let w = q.variants[i];
        assert(comes_from(ids, ids.len() as int, q.provider, q.user, w));
        let k2 = choose|k2: int|
            0 <= k2 < ids.len() && k2 < ids.len() && #[trigger] variant_of(ids, k2) == w
                && same_group(ids[k2].1, q.provider, q.user);
        lemma_names_once(ids, k, k2);
        assert(w == v);
    }
}

/// The order of names is one-way.
pub proof fn lemma_name_before_asymmetric(a: Seq<char>, b: Seq<char>)
    requires
        name_before(a, b),
    ensures
        !name_before(b, a),
        a != b,
{
    lemma_text_before_irreflexive(a);
    if text_before(a, b) {
        lemma_text_before_asymmetric(a, b);
    }
}

/// There is one profile of a provider and user among `ids`.
pub proof fn lemma_profile_unique(
    ids: Seq<(Seq<char>, IdentityView)>,
    p: ProfileView,
    q: ProfileView,
)
    requires
        strictly_sorted(ids),
        is_profile_of(ids, p),
        is_profile_of(ids, q),
        same_key(p, q),
    ensures
        p == q,
{
    lemma_variants_within(ids, p, q);
    lemma_variants_within(ids, q, p);
    lemma_variant_order();
    lemma_rising_equal(
        p.variants,
        q.variants,
        |a: SshVariantView, b: SshVariantView| variant_before(a, b),
    );
    let list = p.variants;
    let i = choose|j: int|
        0 <= j < list.len() && p.name == without_sk((#[trigger] list[j]).identity_name);
    let j = choose|j: int|
        0 <= j < list.len() && q.name == without_sk((#[trigger] list[j]).identity_name);
    assert(fits(q.name, list[i]));
    assert(fits(p.name, list[j]));
    if p.name != q.name {
        lemma_name_before_asymmetric(p.name, q.name);
    }
}

/// The profiles of a list of profiles of `ids` are among those of any
/// other.
pub proof fn lemma_profiles_within(
    ids: Seq<(Seq<char>, IdentityView)>,
    a: Seq<ProfileView>,
    b: Seq<ProfileView>,
)
    requires
        strictly_sorted(ids),
        is_projection(ids, a),
        is_projection(ids, b),
    ensures
        within(a, b),
{
    assert forall|i: int| 0 <= i < a.len() implies b.contains(#[trigger] a[i]) by {
        let p = a[i];
        let v = p.variants[0];
        assert(comes_from(ids, ids.len() as int, p.provider, p.user, v));
        let k = choose|k: int|
            0 <= k < ids.len() && k < ids.len() && #[trigger] variant_of(ids, k) == v
                && same_group(ids[k].1, p.provider, p.user);
        assert(has_profile(ids, k, b));
        let j = choose|j: int|
            0 <= j < b.len() && same_group(ids[k].1, (#[trigger] b[j]).provider, b[j].user);
        assert(same_key(p, b[j]));
        lemma_profile_unique(ids, p, b[j]);
    }
}

/// The identities decide their profiles: two lists of profiles of the same
/// identities are the same list.
pub proof fn lemma_projection_unique(
    ids: Seq<(Seq<char>, IdentityView)>,
    a: Seq<ProfileView>,
    b: Seq<ProfileView>,
)
    requires
        strictly_sorted(ids),
        is_projection(ids, a),
        is_projection(ids, b),
    ensures
        a == b,
{
    lemma_profiles_within(ids, a, b);
    lemma_profiles_within(ids, b, a);
    lemma_profile_order();
    lemma_rising_equal(a, b, |x: ProfileView, y: ProfileView| profile_before(x, y));
}

} // verus!
