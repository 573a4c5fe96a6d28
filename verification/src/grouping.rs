//! Groups of identities while the profiles are being made.
//!
//! The identities are taken in the order of their names. Each goes to the
//! group of its provider and user, to the keys in files or to the keys on
//! tokens, so that both lists stay in the order of the names.

use vstd::prelude::*;
use crate::identity::{Identity, IdentityView, SshKeyType};
use crate::profile::{variants_model, Profile, ProfileView, SshVariant, SshVariantView};
use crate::projection::{
    comes_from, covers, entry_in_group, fits, has_profile, has_variant, is_profile_of,
    is_projection, lemma_name_before_total, lemma_name_before_transitive,
    lemma_profile_before_total, lemma_profile_before_transitive, lemma_projection_is, listed,
    name_before, name_precedes, names_group, profile_before, profile_precedes, profiles_model,
    projection, same_group, same_key, sorted_variants, total_variants, variant_before, variant_of,
};
use crate::text::{same_text, strip_sk, text_before, without_sk};
use crate::text_map::{strictly_sorted, TextMap};

verus! {

/// The model of a group.
pub struct GroupView {
    pub provider: Seq<char>,
    pub user: Seq<char>,
    pub best: Seq<char>,
    pub regular: Seq<SshVariantView>,
    pub fido: Seq<SshVariantView>,
}

impl GroupView {
    /// The members of the group: the keys in files, then the keys on tokens.
    pub open spec fn members(self) -> Seq<SshVariantView> {
        self.regular + self.fido
    }
}

/// Every variant of `list` has a key of the kind `key_type`.
pub open spec fn all_of_type(list: Seq<SshVariantView>, key_type: SshKeyType) -> bool {
    forall|j: int| 0 <= j < list.len() ==> (#[trigger] list[j]).key_type == key_type
}

/// `g` is the group of its provider and user among the first `n` entries of
/// `ids`.
pub open spec fn group_ok(ids: Seq<(Seq<char>, IdentityView)>, n: int, g: GroupView) -> bool {
    &&& g.members().len() > 0
    &&& all_of_type(g.regular, SshKeyType::Regular)
    &&& all_of_type(g.fido, SshKeyType::Fido2)
    &&& listed(ids, n, g.provider, g.user, g.members())
    &&& covers(ids, n, g.provider, g.user, g.members())
    &&& sorted_variants(g.members())
    &&& names_group(g.best, g.members())
}

/// The name of a group after a member with the name `name` has joined it.
pub open spec fn better(best: Seq<char>, name: Seq<char>) -> Seq<char> {
    if name_before(without_sk(name), best) {
        without_sk(name)
    } else {
        best
    }
}

/// `g` with the entry `n` of `ids` as a further member.
pub open spec fn grown(ids: Seq<(Seq<char>, IdentityView)>, n: int, g: GroupView) -> GroupView {
    let v = variant_of(ids, n);
    if v.key_type == SshKeyType::Regular {
        GroupView {
            provider: g.provider,
            user: g.user,
            best: better(g.best, ids[n].0),
            regular: g.regular.push(v),
            fido: g.fido,
        }
    } else {
        GroupView {
            provider: g.provider,
            user: g.user,
            best: better(g.best, ids[n].0),
            regular: g.regular,
            fido: g.fido.push(v),
        }
    }
}

/// The group that the entry `n` of `ids` makes by itself.
pub open spec fn fresh(ids: Seq<(Seq<char>, IdentityView)>, n: int) -> GroupView {
    let v = variant_of(ids, n);
    GroupView {
        provider: ids[n].1.provider,
        user: ids[n].1.user,
        best: without_sk(ids[n].0),
        regular: if v.key_type == SshKeyType::Regular {
            seq![v]
        } else {
            Seq::empty()
        },
        fido: if v.key_type == SshKeyType::Regular {
            Seq::empty()
        } else {
            seq![v]
        },
    }
}

/// The names of the members of a group come before the names of the entries
/// that have not been taken yet.
pub proof fn lemma_member_names(
    ids: Seq<(Seq<char>, IdentityView)>,
    n: int,
    g: GroupView,
    j: int,
)
    requires
        strictly_sorted(ids),
        0 <= n < ids.len(),
        listed(ids, n, g.provider, g.user, g.members()),
        0 <= j < g.members().len(),
    ensures
        text_before(g.members()[j].identity_name, ids[n].0),
{
    let v = g.members()[j];
    assert(comes_from(ids, n, g.provider, g.user, v));
    let k = choose|k: int|
        0 <= k < n && k < ids.len() && #[trigger] variant_of(ids, k) == v && same_group(
            ids[k].1,
            g.provider,
            g.user,
        );
    assert(text_before(ids[k].0, ids[n].0));
}

/// A group stays the group of its provider and user when an entry of
/// another group is taken.
pub proof fn lemma_group_stays(ids: Seq<(Seq<char>, IdentityView)>, n: int, g: GroupView)
    requires
        0 <= n < ids.len(),
        group_ok(ids, n, g),
        !same_group(ids[n].1, g.provider, g.user),
    ensures
        group_ok(ids, n + 1, g),
{
    let m = g.members();
    assert forall|j: int| 0 <= j < m.len() implies comes_from(
        ids,
        n + 1,
        g.provider,
        g.user,
        #[trigger] m[j],
    ) by {
        assert(comes_from(ids, n, g.provider, g.user, m[j]));
        let k = choose|k: int|
            0 <= k < n && k < ids.len() && #[trigger] variant_of(ids, k) == m[j] && same_group(
                ids[k].1,
                g.provider,
                g.user,
            );
        assert(variant_of(ids, k) == m[j]);
    }
    assert forall|k: int|
        0 <= k < n + 1 && k < ids.len() && #[trigger] entry_in_group(
            ids,
            k,
            g.provider,
            g.user,
        ) implies has_variant(m, ids[k].0) by {
        assert(k < n);
    }
}

/// An entry that belongs to no group yet makes a group by itself.
pub proof fn lemma_group_fresh(ids: Seq<(Seq<char>, IdentityView)>, n: int)
    requires
        0 <= n < ids.len(),
        forall|k: int|
            0 <= k < n ==> !#[trigger] entry_in_group(ids, k, ids[n].1.provider, ids[n].1.user),
    ensures
        group_ok(ids, n + 1, fresh(ids, n)),
        fresh(ids, n).members().len() == 1,
{
    let g = fresh(ids, n);
    let v = variant_of(ids, n);
    let m = g.members();
    assert(m =~= seq![v]);
    assert(variant_of(ids, n) == m[0]);
    assert(comes_from(ids, n + 1, g.provider, g.user, m[0]));
    assert forall|k: int|
        0 <= k < n + 1 && k < ids.len() && #[trigger] entry_in_group(
            ids,
            k,
            g.provider,
            g.user,
        ) implies has_variant(m, ids[k].0) by {
        assert(k == n);
        assert(m[0].identity_name == ids[n].0);
    }
    assert(g.best == without_sk(m[0].identity_name));
    assert(fits(g.best, m[0]));
}

/// A group with a further entry of its provider and user as a member is the
/// group of one entry more.
pub proof fn lemma_group_grows(ids: Seq<(Seq<char>, IdentityView)>, n: int, g: GroupView)
    requires
        strictly_sorted(ids),
        0 <= n < ids.len(),
        group_ok(ids, n, g),
        same_group(ids[n].1, g.provider, g.user),
    ensures
        group_ok(ids, n + 1, grown(ids, n, g)),
        grown(ids, n, g).members().len() == g.members().len() + 1,
{
    let h = grown(ids, n, g);
    let v = variant_of(ids, n);
    let old_m = g.members();
    let new_m = h.members();
    let p: int = if v.key_type == SshKeyType::Regular {
        g.regular.len() as int
    } else {
        old_m.len() as int
    };
    assert(new_m =~= old_m.insert(p, v));
    assert forall|j: int| 0 <= j < old_m.len() implies text_before(
        (#[trigger] old_m[j]).identity_name,
        ids[n].0,
    ) by {
        lemma_member_names(ids, n, g, j);
    }
    assert forall|j: int| 0 <= j < old_m.len() implies #[trigger] old_m[j].key_type == (if j
        < g.regular.len() {
        SshKeyType::Regular
    } else {
        SshKeyType::Fido2
    }) by {
        if j < g.regular.len() {
            assert(old_m[j] == g.regular[j]);
        } else {
            assert(old_m[j] == g.fido[j - g.regular.len()]);
        }
    }
    // The kinds of key, list by list.
    assert(all_of_type(h.regular, SshKeyType::Regular)) by {
        assert forall|j: int| 0 <= j < h.regular.len() implies (#[trigger] h.regular[j]).key_type
            == SshKeyType::Regular by {
            if j < g.regular.len() {
                assert(h.regular[j] == g.regular[j]);
            }
        }
    }
    assert(all_of_type(h.fido, SshKeyType::Fido2)) by {
        assert forall|j: int| 0 <= j < h.fido.len() implies (#[trigger] h.fido[j]).key_type
            == SshKeyType::Fido2 by {
            if j < g.fido.len() {
                assert(h.fido[j] == g.fido[j]);
            }
        }
    }
    // Every member stands for an entry.
    assert forall|j: int| 0 <= j < new_m.len() implies comes_from(
        ids,
        n + 1,
        h.provider,
        h.user,
        #[trigger] new_m[j],
    ) by {
        if j == p {
            assert(variant_of(ids, n) == new_m[j]);
        } else {
            let i = if j < p {
                j
            } else {
                j - 1
            };
            assert(new_m[j] == old_m[i]);
            assert(comes_from(ids, n, g.provider, g.user, old_m[i]));
            let k = choose|k: int|
                0 <= k < n && k < ids.len() && #[trigger] variant_of(ids, k) == old_m[i]
                    && same_group(ids[k].1, g.provider, g.user);
            assert(variant_of(ids, k) == new_m[j]);
        }
    }
    // Every entry of the group has a member.
    assert forall|k: int|
        0 <= k < n + 1 && k < ids.len() && #[trigger] entry_in_group(
            ids,
            k,
            h.provider,
            h.user,
        ) implies has_variant(new_m, ids[k].0) by {
        if k == n {
            assert(new_m[p].identity_name == ids[k].0);
        } else {
            assert(entry_in_group(ids, k, g.provider, g.user));
            assert(has_variant(old_m, ids[k].0));
            let i = choose|i: int|
                0 <= i < old_m.len() && (#[trigger] old_m[i]).identity_name == ids[k].0;
            let j = if i < p {
                i
            } else {
                i + 1
            };
            assert(new_m[j] == old_m[i]);
        }
    }
    // The members stand in their order.
    assert forall|i: int, j: int| 0 <= i < j < new_m.len() implies variant_before(
        #[trigger] new_m[i],
        #[trigger] new_m[j],
    ) by {
        let a = if i < p {
            i
        } else {
            i - 1
        };
        let b = if j < p {
            j
        } else {
            j - 1
        };
        if i != p && j != p {
            assert(new_m[i] == old_m[a] && new_m[j] == old_m[b]);
            assert(variant_before(old_m[a], old_m[b]));
        } else if j == p {
            assert(new_m[i] == old_m[a]);
            assert(text_before(old_m[a].identity_name, ids[n].0));
        } else {
            assert(new_m[j] == old_m[b]);
            assert(text_before(old_m[b].identity_name, ids[n].0));
        }
    }
    // The name of the group.
    let cand = without_sk(ids[n].0);
    assert(names_group(h.best, new_m)) by {
        let w = choose|j: int|
            0 <= j < old_m.len() && g.best == without_sk((#[trigger] old_m[j]).identity_name);
        if h.best == cand {
            assert(h.best == without_sk(new_m[p].identity_name));
        } else {
            let j = if w < p {
                w
            } else {
                w + 1
            };
            assert(new_m[j] == old_m[w]);
            assert(h.best == without_sk(new_m[j].identity_name));
        }
        assert forall|j: int| 0 <= j < new_m.len() implies fits(h.best, #[trigger] new_m[j]) by {
            if j == p {
                lemma_name_before_total(cand, g.best);
            } else {
                let i = if j < p {
                    j
                } else {
                    j - 1
                };
                assert(new_m[j] == old_m[i]);
                assert(fits(g.best, old_m[i]));
                if name_before(cand, g.best) {
                    if g.best != without_sk(old_m[i].identity_name) {
                        lemma_name_before_transitive(
                            cand,
                            g.best,
                            without_sk(old_m[i].identity_name),
                        );
                    }
                }
            }
        }
    }
}


/// Two groups are of one provider and user.
pub open spec fn same_pair(a: GroupView, b: GroupView) -> bool {
    a.provider == b.provider && a.user == b.user
}

/// Some group of `groups` is that of the entry `k` of `ids`.
pub open spec fn has_group(
    ids: Seq<(Seq<char>, IdentityView)>,
    k: int,
    groups: Seq<GroupView>,
) -> bool {
    exists|i: int|
        0 <= i < groups.len() && same_group(ids[k].1, (#[trigger] groups[i]).provider, groups[i].user)
}

/// The number of members of all the groups of `groups`.
pub open spec fn total_members(groups: Seq<GroupView>) -> nat
    decreases groups.len(),
{
    if groups.len() == 0 {
        0
    } else {
        total_members(groups.drop_last()) + groups.last().members().len()
    }
}

/// `groups` holds the groups of the first `n` entries of `ids`.
pub open spec fn groups_ok(
    ids: Seq<(Seq<char>, IdentityView)>,
    n: int,
    groups: Seq<GroupView>,
) -> bool {
    &&& forall|i: int| 0 <= i < groups.len() ==> group_ok(ids, n, #[trigger] groups[i])
    &&& forall|i: int, j: int|
        0 <= i < groups.len() && 0 <= j < groups.len() && i != j ==> !#[trigger] same_pair(
            groups[i],
            groups[j],
        )
    &&& forall|k: int| 0 <= k < n ==> #[trigger] has_group(ids, k, groups)
    &&& total_members(groups) == n
}

/// The members of the groups when one group is exchanged for another.
pub proof fn lemma_total_update(groups: Seq<GroupView>, i: int, g: GroupView)
    requires
        0 <= i < groups.len(),
    ensures
        total_members(groups.update(i, g)) + groups[i].members().len() == total_members(groups)
            + g.members().len(),
    decreases groups.len(),
{
    let changed = groups.update(i, g);
    if i == groups.len() - 1 {
        assert(changed.drop_last() =~= groups.drop_last());
    } else {
        assert(changed.drop_last() =~= groups.drop_last().update(i, g));
        lemma_total_update(groups.drop_last(), i, g);
    }
}

/// The groups after an entry has joined the group `i`.
pub proof fn lemma_groups_grow(
    ids: Seq<(Seq<char>, IdentityView)>,
    n: int,
    groups: Seq<GroupView>,
    i: int,
)
    requires
        strictly_sorted(ids),
        0 <= n < ids.len(),
        groups_ok(ids, n, groups),
        0 <= i < groups.len(),
        same_group(ids[n].1, groups[i].provider, groups[i].user),
    ensures
        groups_ok(ids, n + 1, groups.update(i, grown(ids, n, groups[i]))),
{
    let h = grown(ids, n, groups[i]);
    let next = groups.update(i, h);
    lemma_group_grows(ids, n, groups[i]);
    lemma_total_update(groups, i, h);
    assert forall|j: int| 0 <= j < next.len() implies group_ok(ids, n + 1, #[trigger] next[j]) by {
        if j != i {
            assert(next[j] == groups[j]);
            assert(!same_pair(groups[j], groups[i]));
            lemma_group_stays(ids, n, groups[j]);
        }
    }
    assert forall|a: int, b: int|
        0 <= a < next.len() && 0 <= b < next.len() && a != b implies !#[trigger] same_pair(
        next[a],
        next[b],
    ) by {
        assert(!same_pair(groups[a], groups[b]));
    }
    assert forall|k: int| 0 <= k < n + 1 implies #[trigger] has_group(ids, k, next) by {
        if k == n {
            assert(same_group(ids[k].1, next[i].provider, next[i].user));
        } else {
            assert(has_group(ids, k, groups));
            let j = choose|j: int|
                0 <= j < groups.len() && same_group(
                    ids[k].1,
                    (#[trigger] groups[j]).provider,
                    groups[j].user,
                );
            assert(same_group(ids[k].1, next[j].provider, next[j].user));
        }
    }
}

/// The groups after an entry of no group has made one.
pub proof fn lemma_groups_fresh(
    ids: Seq<(Seq<char>, IdentityView)>,
    n: int,
    groups: Seq<GroupView>,
)
    requires
        0 <= n < ids.len(),
        groups_ok(ids, n, groups),
        forall|i: int|
            0 <= i < groups.len() ==> !same_group(
                ids[n].1,
                (#[trigger] groups[i]).provider,
                groups[i].user,
            ),
    ensures
        groups_ok(ids, n + 1, groups.push(fresh(ids, n))),
{
    let g = fresh(ids, n);
    let next = groups.push(g);
    assert forall|k: int| 0 <= k < n implies !#[trigger] entry_in_group(
        ids,
        k,
        ids[n].1.provider,
        ids[n].1.user,
    ) by {
        assert(has_group(ids, k, groups));
        let j = choose|j: int|
            0 <= j < groups.len() && same_group(
                ids[k].1,
                (#[trigger] groups[j]).provider,
                groups[j].user,
            );
        assert(!same_group(ids[n].1, groups[j].provider, groups[j].user));
    }
    lemma_group_fresh(ids, n);
    assert(next.drop_last() =~= groups);
    assert forall|j: int| 0 <= j < next.len() implies group_ok(ids, n + 1, #[trigger] next[j]) by {
        if j < groups.len() {
            assert(next[j] == groups[j]);
            lemma_group_stays(ids, n, groups[j]);
        }
    }
    assert forall|a: int, b: int|
        0 <= a < next.len() && 0 <= b < next.len() && a != b implies !#[trigger] same_pair(
        next[a],
        next[b],
    ) by {
        if a < groups.len() && b < groups.len() {
            assert(!same_pair(groups[a], groups[b]));
        } else if a < groups.len() {
            assert(next[a] == groups[a]);
        } else {
            assert(next[b] == groups[b]);
        }
    }
    assert forall|k: int| 0 <= k < n + 1 implies #[trigger] has_group(ids, k, next) by {
        if k == n {
            assert(same_group(ids[k].1, next[groups.len() as int].provider, next[groups.len() as int].user));
        } else {
            assert(has_group(ids, k, groups));
            let j = choose|j: int|
                0 <= j < groups.len() && same_group(
                    ids[k].1,
                    (#[trigger] groups[j]).provider,
                    groups[j].user,
                );
            assert(same_group(ids[k].1, next[j].provider, next[j].user));
        }
    }
}


/// The identities of one provider and user that have been taken so far.
pub struct Group {
    pub provider: String,
    pub user: String,
    /// The name that stands for the group so far.
    pub best: String,
    /// The members with keys in files, in the order of their names.
    pub regular: Vec<SshVariant>,
    /// The members with keys on tokens, in the order of their names.
    pub fido: Vec<SshVariant>,
}

impl View for Group {
    type V = GroupView;

    open spec fn view(&self) -> GroupView {
        GroupView {
            provider: self.provider@,
            user: self.user@,
            best: self.best@,
            regular: variants_model(self.regular@),
            fido: variants_model(self.fido@),
        }
    }
}

/// The models of a list of groups, in order.
pub open spec fn groups_model(list: Seq<Group>) -> Seq<GroupView> {
    Seq::new(list.len(), |i: int| list[i]@)
}

/// The place of the group of `provider` and `user` in `groups`, if it is
/// there.
pub fn find_group(groups: &Vec<Group>, provider: &str, user: &str) -> (r: Option<usize>)
    ensures
        r matches Some(i) ==> i < groups.len() && groups@[i as int]@.provider == provider@
            && groups@[i as int]@.user == user@,
        r is None ==> forall|i: int|
            0 <= i < groups.len() ==> !((#[trigger] groups@[i])@.provider == provider@
                && groups@[i]@.user == user@),
{
    let mut i: usize = 0;
    while i < groups.len()
        invariant
            i <= groups.len(),
            forall|j: int|
                0 <= j < i ==> !((#[trigger] groups@[j])@.provider == provider@ && groups@[j]@.user
                    == user@),
        decreases groups.len() - i,
    {
        if same_text(groups[i].provider.as_str(), provider) && same_text(
            groups[i].user.as_str(),
            user,
        ) {
            return Some(i);
        }
        i += 1;
    }
    None
}

/// The groups of all the identities.
pub fn group_identities(identities: &TextMap<Identity>) -> (groups: Vec<Group>)
    ensures
        groups_ok(identities@, identities@.len() as int, groups_model(groups@)),
        crate::text_map::strictly_sorted(identities@),
{
    let total = identities.len();
    let ghost ids = identities@;
    let mut groups: Vec<Group> = Vec::new();
    let mut n: usize = 0;
    assert(groups_model(groups@) =~= Seq::<GroupView>::empty());
    while n < total
        invariant
            n <= total,
            total == ids.len(),
            ids == identities@,
            strictly_sorted(ids),
            groups_ok(ids, n as int, groups_model(groups@)),
        decreases total - n,
    {
        let name = identities.key_at(n);
        let identity = identities.value_at(n);
        let variant = SshVariant {
            identity_name: name.clone(),
            key_type: identity.key_type(),
            identity: identity.clone(),
        };
        assert(variant@ == variant_of(ids, n as int));
        let candidate = strip_sk(name.as_str());
        let ghost before = groups_model(groups@);
        match find_group(&groups, identity.provider.as_str(), identity.user.as_str()) {
            Some(i) => {
                let mut group = groups.remove(i);
                let ghost joined = group@;
                assert(joined == before[i as int]);
                if name_precedes(candidate.as_str(), group.best.as_str()) {
                    group.best = candidate;
                }
                match variant.key_type {
                    SshKeyType::Regular => {
                        group.regular.push(variant);
                        assert(variants_model(group.regular@) =~= joined.regular.push(
                            variant_of(ids, n as int),
                        ));
                    },
                    SshKeyType::Fido2 => {
                        group.fido.push(variant);
                        assert(variants_model(group.fido@) =~= joined.fido.push(
                            variant_of(ids, n as int),
                        ));
                    },
                }
                assert(group@ == grown(ids, n as int, joined));
                groups.insert(i, group);
                proof {
                    assert(groups_model(groups@) =~= before.update(
                        i as int,
                        grown(ids, n as int, joined),
                    ));
                    lemma_groups_grow(ids, n as int, before, i as int);
                }
            },
            None => {
                let mut regular: Vec<SshVariant> = Vec::new();
                let mut fido: Vec<SshVariant> = Vec::new();
                match variant.key_type {
                    SshKeyType::Regular => {
                        regular.push(variant);
                    },
                    SshKeyType::Fido2 => {
                        fido.push(variant);
                    },
                }
                let group = Group {
                    provider: identity.provider.clone(),
                    user: identity.user.clone(),
                    best: candidate,
                    regular,
                    fido,
                };
                proof {
                    let f = fresh(ids, n as int);
                    assert(group@.regular =~= f.regular);
                    assert(group@.fido =~= f.fido);
                    assert(group@ == f);
                }
                groups.push(group);
                proof {
                    assert(groups_model(groups@) =~= before.push(fresh(ids, n as int)));
                    lemma_groups_fresh(ids, n as int, before);
                }
            },
        }
        n += 1;
    }
    groups
}


/// The profile that a finished group makes.
pub open spec fn finished(g: GroupView) -> ProfileView {
    ProfileView {
        name: g.best,
        provider: g.provider,
        user: g.user,
        email: g.members()[0].identity.email,
        gpg: g.members()[0].identity.gpg,
        variants: g.members(),
    }
}

/// The group of a provider and user among all the entries makes the profile
/// of that provider and user.
pub proof fn lemma_finished(ids: Seq<(Seq<char>, IdentityView)>, g: GroupView)
    requires
        group_ok(ids, ids.len() as int, g),
    ensures
        is_profile_of(ids, finished(g)),
{
}

/// Makes the profile of a group.
fn finish(group: Group) -> (r: Profile)
    requires
        group@.members().len() > 0,
    ensures
        r@ == finished(group@),
{
    let ghost g = group@;
    let Group { provider, user, best, regular, fido } = group;
    let mut variants = regular;
    let mut rest = fido;
    variants.append(&mut rest);
    assert(variants_model(variants@) =~= g.members());
    let email = variants[0].identity.email.clone();
    let gpg = variants[0].identity.gpg.clone();
    Profile { name: best, provider, user, email, gpg, variants }
}

/// The entry `k` of `ids` has its group or its profile.
pub open spec fn placed(
    ids: Seq<(Seq<char>, IdentityView)>,
    k: int,
    groups: Seq<GroupView>,
    list: Seq<ProfileView>,
) -> bool {
    has_group(ids, k, groups) || has_profile(ids, k, list)
}

/// A group and a profile are of one provider and user.
pub open spec fn made_from(g: GroupView, p: ProfileView) -> bool {
    g.provider == p.provider && g.user == p.user
}

/// The groups of `groups` are complete and of different providers and users.
pub open spec fn groups_fine(ids: Seq<(Seq<char>, IdentityView)>, groups: Seq<GroupView>) -> bool {
    &&& forall|i: int|
        0 <= i < groups.len() ==> group_ok(ids, ids.len() as int, #[trigger] groups[i])
    &&& forall|i: int, j: int|
        0 <= i < groups.len() && 0 <= j < groups.len() && i != j ==> !#[trigger] same_pair(
            groups[i],
            groups[j],
        )
}

/// The profiles of `list` are profiles of `ids`, of different providers and
/// users, in their order.
pub open spec fn list_fine(ids: Seq<(Seq<char>, IdentityView)>, list: Seq<ProfileView>) -> bool {
    &&& forall|i: int| 0 <= i < list.len() ==> is_profile_of(ids, #[trigger] list[i])
    &&& forall|i: int, j: int|
        0 <= i < j < list.len() ==> profile_before(#[trigger] list[i], #[trigger] list[j])
    &&& forall|i: int, j: int|
        0 <= i < list.len() && 0 <= j < list.len() && i != j ==> !#[trigger] same_key(
            list[i],
            list[j],
        )
}

/// No group is of the provider and user of a profile.
pub open spec fn apart(groups: Seq<GroupView>, list: Seq<ProfileView>) -> bool {
    forall|i: int, j: int|
        0 <= i < groups.len() && 0 <= j < list.len() ==> !#[trigger] made_from(groups[i], list[j])
}

/// Every entry of `ids` has its group or its profile.
pub open spec fn all_placed(
    ids: Seq<(Seq<char>, IdentityView)>,
    groups: Seq<GroupView>,
    list: Seq<ProfileView>,
) -> bool {
    forall|k: int| 0 <= k < ids.len() ==> #[trigger] placed(ids, k, groups, list)
}

/// `groups` and `list` hold between them the groups and the profiles of
/// `ids`, the profiles in their order.
pub open spec fn halfway(
    ids: Seq<(Seq<char>, IdentityView)>,
    groups: Seq<GroupView>,
    list: Seq<ProfileView>,
) -> bool {
    &&& groups_fine(ids, groups)
    &&& list_fine(ids, list)
    &&& apart(groups, list)
    &&& all_placed(ids, groups, list)
    &&& total_members(groups) + total_variants(list) == ids.len()
}

/// The variants of the profiles when a profile is put among them.
pub proof fn lemma_total_insert(list: Seq<ProfileView>, at: int, p: ProfileView)
    requires
        0 <= at <= list.len(),
    ensures
        total_variants(list.insert(at, p)) == total_variants(list) + p.variants.len(),
    decreases list.len(),
{
    let more = list.insert(at, p);
    if at == list.len() {
        assert(more.drop_last() =~= list);
    } else {
        assert(more.drop_last() =~= list.drop_last().insert(at, p));
        assert(more.last() == list.last());
        lemma_total_insert(list.drop_last(), at, p);
    }
}

/// Profiles that all have a variant have no more profiles than variants.
pub proof fn lemma_total_at_least(list: Seq<ProfileView>)
    requires
        forall|i: int| 0 <= i < list.len() ==> (#[trigger] list[i]).variants.len() > 0,
    ensures
        list.len() <= total_variants(list),
    decreases list.len(),
{
    if list.len() > 0 {
        let rest = list.drop_last();
        assert forall|i: int| 0 <= i < rest.len() implies (#[trigger] rest[i]).variants.len()
            > 0 by {
            assert(rest[i] == list[i]);
        }
        lemma_total_at_least(rest);
        assert(list.last() == list[list.len() - 1]);
    }
}

/// The groups without the last one are still fine.
proof fn lemma_move_groups(ids: Seq<(Seq<char>, IdentityView)>, groups: Seq<GroupView>, g: GroupView)
    requires
        groups_fine(ids, groups.push(g)),
    ensures
        groups_fine(ids, groups),
        group_ok(ids, ids.len() as int, g),
        forall|i: int| 0 <= i < groups.len() ==> !same_pair(#[trigger] groups[i], g),
{
    let all = groups.push(g);
    let last = groups.len() as int;
    assert(all[last] == g);
    assert forall|i: int| 0 <= i < groups.len() implies group_ok(
        ids,
        ids.len() as int,
        #[trigger] groups[i],
    ) by {
        assert(groups[i] == all[i]);
    }
    assert forall|i: int, j: int|
        0 <= i < groups.len() && 0 <= j < groups.len() && i != j implies !#[trigger] same_pair(
        groups[i],
        groups[j],
    ) by {
        assert(!same_pair(all[i], all[j]));
    }
    assert forall|i: int| 0 <= i < groups.len() implies !same_pair(#[trigger] groups[i], g) by {
        assert(!same_pair(all[i], all[last]));
    }
}

/// A profile of a further provider and user goes to its place among the
/// profiles.
proof fn lemma_move_list(
    ids: Seq<(Seq<char>, IdentityView)>,
    list: Seq<ProfileView>,
    p: ProfileView,
    at: int,
)
    requires
        list_fine(ids, list),
        is_profile_of(ids, p),
        forall|j: int| 0 <= j < list.len() ==> !same_key(p, #[trigger] list[j]),
        0 <= at <= list.len(),
        forall|i: int| 0 <= i < at ==> profile_before(#[trigger] list[i], p),
        at < list.len() ==> !profile_before(list[at], p),
    ensures
        list_fine(ids, list.insert(at, p)),
{
    let more = list.insert(at, p);
    assert forall|i: int| 0 <= i < more.len() implies is_profile_of(ids, #[trigger] more[i]) by {
        if i < at {
            assert(more[i] == list[i]);
        } else if i > at {
            assert(more[i] == list[i - 1]);
        }
    }
    assert forall|i: int| at <= i < list.len() implies profile_before(p, #[trigger] list[i]) by {
        assert(!same_key(p, list[at]));
        lemma_profile_before_total(p, list[at]);
        if at < i {
            assert(profile_before(list[at], list[i]));
            lemma_profile_before_transitive(p, list[at], list[i]);
        }
    }
    assert forall|i: int, j: int| 0 <= i < j < more.len() implies profile_before(
        #[trigger] more[i],
        #[trigger] more[j],
    ) by {
        let a = if i < at {
            i
        } else {
            i - 1
        };
        let b = if j < at {
            j
        } else {
            j - 1
        };
        if i != at && j != at {
            assert(more[i] == list[a] && more[j] == list[b]);
            assert(profile_before(list[a], list[b]));
        } else if j == at {
            assert(more[i] == list[a]);
        } else {
            assert(more[j] == list[b]);
        }
    }
    assert forall|i: int, j: int|
        0 <= i < more.len() && 0 <= j < more.len() && i != j implies !#[trigger] same_key(
        more[i],
        more[j],
    ) by {
        let a = if i < at {
            i
        } else {
            i - 1
        };
        let b = if j < at {
            j
        } else {
            j - 1
        };
        if i != at && j != at {
            assert(more[i] == list[a] && more[j] == list[b]);
            assert(!same_key(list[a], list[b]));
        } else if j == at {
            assert(more[i] == list[a]);
            assert(!same_key(p, list[a]));
        } else {
            assert(more[j] == list[b]);
            assert(!same_key(p, list[b]));
        }
    }
}

/// The groups without the last one are apart from the profiles with the
/// profile of the last one.
proof fn lemma_move_apart(groups: Seq<GroupView>, g: GroupView, list: Seq<ProfileView>, at: int)
    requires
        apart(groups.push(g), list),
        forall|i: int| 0 <= i < groups.len() ==> !same_pair(#[trigger] groups[i], g),
        0 <= at <= list.len(),
    ensures
        apart(groups, list.insert(at, finished(g))),
{
    let all = groups.push(g);
    let more = list.insert(at, finished(g));
    assert forall|i: int, j: int|
        0 <= i < groups.len() && 0 <= j < more.len() implies !#[trigger] made_from(
        groups[i],
        more[j],
    ) by {
        if j == at {
            assert(!same_pair(groups[i], g));
        } else {
            let b = if j < at {
                j
            } else {
                j - 1
            };
            assert(more[j] == list[b]);
            assert(!made_from(all[i], list[b]));
        }
    }
}

/// Every entry keeps its place when the last group becomes a profile.
proof fn lemma_move_placed(
    ids: Seq<(Seq<char>, IdentityView)>,
    groups: Seq<GroupView>,
    g: GroupView,
    list: Seq<ProfileView>,
    at: int,
)
    requires
        all_placed(ids, groups.push(g), list),
        0 <= at <= list.len(),
    ensures
        all_placed(ids, groups, list.insert(at, finished(g))),
{
    let all = groups.push(g);
    let more = list.insert(at, finished(g));
    let last = groups.len() as int;
    assert forall|k: int| 0 <= k < ids.len() implies #[trigger] placed(ids, k, groups, more) by {
        assert(placed(ids, k, all, list));
        if has_group(ids, k, all) {
            let i = choose|i: int|
                0 <= i < all.len() && same_group(ids[k].1, (#[trigger] all[i]).provider, all[i].user);
            if i == last {
                assert(same_group(ids[k].1, more[at].provider, more[at].user));
            } else {
                assert(same_group(ids[k].1, groups[i].provider, groups[i].user));
            }
        } else {
            let j = choose|j: int|
                0 <= j < list.len() && same_group(
                    ids[k].1,
                    (#[trigger] list[j]).provider,
                    list[j].user,
                );
            let b = if j < at {
                j
            } else {
                j + 1
            };
            assert(more[b] == list[j]);
            assert(same_group(ids[k].1, more[b].provider, more[b].user));
        }
    }
}

/// The last group leaves the groups and its profile goes to its place among
/// the profiles.
pub proof fn lemma_move(
    ids: Seq<(Seq<char>, IdentityView)>,
    groups: Seq<GroupView>,
    g: GroupView,
    list: Seq<ProfileView>,
    at: int,
)
    requires
        halfway(ids, groups.push(g), list),
        0 <= at <= list.len(),
        forall|i: int| 0 <= i < at ==> profile_before(#[trigger] list[i], finished(g)),
        at < list.len() ==> !profile_before(list[at], finished(g)),
    ensures
        halfway(ids, groups, list.insert(at, finished(g))),
{
    let all = groups.push(g);
    let p = finished(g);
    assert(all.drop_last() =~= groups);
    assert(all[groups.len() as int] == g);
    lemma_move_groups(ids, groups, g);
    lemma_finished(ids, g);
    assert forall|j: int| 0 <= j < list.len() implies !same_key(p, #[trigger] list[j]) by {
        assert(!made_from(all[groups.len() as int], list[j]));
    }
    lemma_move_list(ids, list, p, at);
    lemma_move_apart(groups, g, list, at);
    lemma_move_placed(ids, groups, g, list, at);
    lemma_total_insert(list, at, p);
}

/// The profiles of the identities: one for each pair of provider and user,
/// in the order of profiles.
pub fn project(identities: &TextMap<Identity>) -> (r: Vec<Profile>)
    ensures
        profiles_model(r@) == projection(identities@),
        is_projection(identities@, profiles_model(r@)),
        total_variants(profiles_model(r@)) == identities@.len(),
        r.len() <= identities@.len(),
        crate::text_map::strictly_sorted(identities@),
{
    let ghost ids = identities@;
    let mut groups = group_identities(identities);
    let mut result: Vec<Profile> = Vec::new();
    proof {
        let gs = groups_model(groups@);
        let ps = profiles_model(result@);
        assert(ps =~= Seq::<ProfileView>::empty());
        assert forall|k: int| 0 <= k < ids.len() implies #[trigger] placed(ids, k, gs, ps) by {
            assert(has_group(ids, k, gs));
        }
    }
    while groups.len() > 0
        invariant
            halfway(ids, groups_model(groups@), profiles_model(result@)),
        decreases groups.len(),
    {
        let ghost gs = groups_model(groups@);
        let ghost ps = profiles_model(result@);
        let group = groups.pop().unwrap();
        let ghost g = group@;
        proof {
            assert(gs =~= groups_model(groups@).push(g));
            assert(gs[gs.len() - 1] == g);
            assert(group_ok(ids, ids.len() as int, gs[gs.len() - 1]));
        }
        let profile = finish(group);
        let mut at: usize = 0;
        while at < result.len() && profile_precedes(&result[at], &profile)
            invariant
                at <= result.len(),
                ps == profiles_model(result@),
                forall|i: int| 0 <= i < at ==> profile_before(#[trigger] ps[i], profile@),
            decreases result.len() - at,
        {
            at += 1;
        }
        proof {
            lemma_move(ids, groups_model(groups@), g, ps, at as int);
        }
        result.insert(at, profile);
        assert(profiles_model(result@) =~= ps.insert(at as int, finished(g)));
    }
    proof {
        let gs = groups_model(groups@);
        let ps = profiles_model(result@);
        assert(gs =~= Seq::<GroupView>::empty());
        assert forall|k: int| 0 <= k < ids.len() implies #[trigger] has_profile(ids, k, ps) by {
            assert(placed(ids, k, gs, ps));
        }
        lemma_total_at_least(ps);
        lemma_projection_is(ids, ps);
    }
    result
}

} // verus!
