//! What the profiles of a set of identities are, and how they are made.

use vstd::prelude::*;
use crate::config::Config;
use crate::grouping::project;
use crate::identity::{texts, IdentityView, SshKeyType};
use crate::profile::{variants_model, Profile, ProfileView, SshVariant, SshVariantView};
use crate::text::{
    byte_len, lemma_text_before_total, lemma_text_before_transitive, precedes, same_text,
    text_before, without_sk,
};
use crate::text_map::{lemma_lookup_at, lemma_lookup_has_key, lookup, strictly_sorted};
use crate::unique::lemma_projection_unique;

verus! {

/// Keys in files come before keys on hardware tokens.
pub open spec fn rank(key_type: SshKeyType) -> int {
    match key_type {
        SshKeyType::Regular => 0,
        SshKeyType::Fido2 => 1,
    }
}

/// The order of the variants of a profile: by the kind of key, then by the
/// name of the identity.
pub open spec fn variant_before(a: SshVariantView, b: SshVariantView) -> bool {
    rank(a.key_type) < rank(b.key_type) || (a.key_type == b.key_type && text_before(
        a.identity_name,
        b.identity_name,
    ))
}

/// The order in which names stand for a profile: the shorter one first, and
/// of two names of one length the one that sorts first.
pub open spec fn name_before(a: Seq<char>, b: Seq<char>) -> bool {
    byte_len(a) < byte_len(b) || (byte_len(a) == byte_len(b) && text_before(a, b))
}

/// The order of profiles: by name, then by provider, then by user.
pub open spec fn profile_before(a: ProfileView, b: ProfileView) -> bool {
    text_before(a.name, b.name) || (a.name == b.name && (text_before(a.provider, b.provider) || (
    a.provider == b.provider && text_before(a.user, b.user))))
}

/// The identity belongs to the group of `provider` and `user`.
pub open spec fn same_group(identity: IdentityView, provider: Seq<char>, user: Seq<char>) -> bool {
    identity.provider == provider && identity.user == user
}

/// The variant that stands for the entry `k` of `ids`.
pub open spec fn variant_of(ids: Seq<(Seq<char>, IdentityView)>, k: int) -> SshVariantView {
    SshVariantView { identity_name: ids[k].0, key_type: ids[k].1.key_type(), identity: ids[k].1 }
}

/// `v` stands for one of the first `n` entries of `ids`, one of the group of
/// `provider` and `user`.
pub open spec fn comes_from(
    ids: Seq<(Seq<char>, IdentityView)>,
    n: int,
    provider: Seq<char>,
    user: Seq<char>,
    v: SshVariantView,
) -> bool {
    exists|k: int|
        0 <= k < n && k < ids.len() && #[trigger] variant_of(ids, k) == v && same_group(
            ids[k].1,
            provider,
            user,
        )
}

/// Every variant of `list` stands for one of the first `n` entries of `ids`
/// that belongs to the group.
pub open spec fn listed(
    ids: Seq<(Seq<char>, IdentityView)>,
    n: int,
    provider: Seq<char>,
    user: Seq<char>,
    list: Seq<SshVariantView>,
) -> bool {
    forall|j: int| 0 <= j < list.len() ==> comes_from(ids, n, provider, user, #[trigger] list[j])
}

/// Some variant of `list` has the name `name`.
pub open spec fn has_variant(list: Seq<SshVariantView>, name: Seq<char>) -> bool {
    exists|j: int| 0 <= j < list.len() && (#[trigger] list[j]).identity_name == name
}

/// The entry `k` of `ids` belongs to the group.
pub open spec fn entry_in_group(
    ids: Seq<(Seq<char>, IdentityView)>,
    k: int,
    provider: Seq<char>,
    user: Seq<char>,
) -> bool {
    same_group(ids[k].1, provider, user)
}

/// Each of the first `n` entries of `ids` that belongs to the group has a
/// variant in `list`.
pub open spec fn covers(
    ids: Seq<(Seq<char>, IdentityView)>,
    n: int,
    provider: Seq<char>,
    user: Seq<char>,
    list: Seq<SshVariantView>,
) -> bool {
    forall|k: int|
        0 <= k < n && k < ids.len() && #[trigger] entry_in_group(ids, k, provider, user)
            ==> has_variant(list, ids[k].0)
}

/// The variants of `list` stand in their order.
pub open spec fn sorted_variants(list: Seq<SshVariantView>) -> bool {
    forall|i: int, j: int|
        0 <= i < j < list.len() ==> variant_before(#[trigger] list[i], #[trigger] list[j])
}

/// `name` may stand for a group with the member `v`: it is the member's
/// name without `-sk`, or comes before that.
pub open spec fn fits(name: Seq<char>, v: SshVariantView) -> bool {
    name == without_sk(v.identity_name) || name_before(name, without_sk(v.identity_name))
}

/// `name` is the name of the group with the members `list`: the first, in
/// the order of names, of the members' names without `-sk`.
pub open spec fn names_group(name: Seq<char>, list: Seq<SshVariantView>) -> bool {
    &&& exists|j: int| 0 <= j < list.len() && name == without_sk((#[trigger] list[j]).identity_name)
    &&& forall|j: int| 0 <= j < list.len() ==> fits(name, #[trigger] list[j])
}

/// `p` is the profile of its provider and user among `ids`.
pub open spec fn is_profile_of(ids: Seq<(Seq<char>, IdentityView)>, p: ProfileView) -> bool {
    &&& p.variants.len() > 0
    &&& listed(ids, ids.len() as int, p.provider, p.user, p.variants)
    &&& covers(ids, ids.len() as int, p.provider, p.user, p.variants)
    &&& sorted_variants(p.variants)
    &&& names_group(p.name, p.variants)
    &&& p.email == p.variants[0].identity.email
    &&& p.gpg == p.variants[0].identity.gpg
}

/// Two profiles are of one provider and user.
pub open spec fn same_key(a: ProfileView, b: ProfileView) -> bool {
    a.provider == b.provider && a.user == b.user
}

/// Some profile of `list` is that of the entry `k` of `ids`.
pub open spec fn has_profile(
    ids: Seq<(Seq<char>, IdentityView)>,
    k: int,
    list: Seq<ProfileView>,
) -> bool {
    exists|i: int|
        0 <= i < list.len() && same_group(ids[k].1, (#[trigger] list[i]).provider, list[i].user)
}

/// `list` holds the profiles of `ids`: one for each pair of provider and
/// user that occurs, each complete, in the order of profiles.
pub open spec fn is_projection(ids: Seq<(Seq<char>, IdentityView)>, list: Seq<ProfileView>) -> bool {
    &&& forall|i: int| 0 <= i < list.len() ==> is_profile_of(ids, #[trigger] list[i])
    &&& forall|i: int, j: int|
        0 <= i < j < list.len() ==> profile_before(#[trigger] list[i], #[trigger] list[j])
    &&& forall|i: int, j: int|
        0 <= i < list.len() && 0 <= j < list.len() && i != j ==> !#[trigger] same_key(
            list[i],
            list[j],
        )
    &&& forall|k: int| 0 <= k < ids.len() ==> #[trigger] has_profile(ids, k, list)
}

/// The number of variants of all the profiles of `list`.
pub open spec fn total_variants(list: Seq<ProfileView>) -> nat
    decreases list.len(),
{
    if list.len() == 0 {
        0
    } else {
        total_variants(list.drop_last()) + list.last().variants.len()
    }
}

pub proof fn lemma_name_before_transitive(a: Seq<char>, b: Seq<char>, c: Seq<char>)
    requires
        name_before(a, b),
        name_before(b, c),
    ensures
        name_before(a, c),
{
    if byte_len(a) == byte_len(b) && byte_len(b) == byte_len(c) {
        lemma_text_before_transitive(a, b, c);
    }
}

pub proof fn lemma_name_before_total(a: Seq<char>, b: Seq<char>)
    ensures
        name_before(a, b) || a == b || name_before(b, a),
{
    lemma_text_before_total(a, b);
}

pub proof fn lemma_profile_before_transitive(a: ProfileView, b: ProfileView, c: ProfileView)
    requires
        profile_before(a, b),
        profile_before(b, c),
    ensures
        profile_before(a, c),
{
    if text_before(a.name, b.name) && text_before(b.name, c.name) {
        lemma_text_before_transitive(a.name, b.name, c.name);
    }
    if a.name == b.name && b.name == c.name {
        if text_before(a.provider, b.provider) && text_before(b.provider, c.provider) {
            lemma_text_before_transitive(a.provider, b.provider, c.provider);
        }
        if a.provider == b.provider && b.provider == c.provider {
            lemma_text_before_transitive(a.user, b.user, c.user);
        }
    }
}

/// Two profiles of different groups stand one before the other.
pub proof fn lemma_profile_before_total(a: ProfileView, b: ProfileView)
    requires
        !same_key(a, b),
    ensures
        profile_before(a, b) || profile_before(b, a),
{
    lemma_text_before_total(a.name, b.name);
    lemma_text_before_total(a.provider, b.provider);
    lemma_text_before_total(a.user, b.user);
}

/// Whether `a` comes before `b` in the order of names.
pub fn name_precedes(a: &str, b: &str) -> (r: bool)
    ensures
        r == name_before(a@, b@),
{
    let x = a.as_bytes().len();
    let y = b.as_bytes().len();
    x < y || (x == y && precedes(a, b))
}

/// Whether `a` comes before `b` in the order of profiles.
pub fn profile_precedes(a: &Profile, b: &Profile) -> (r: bool)
    ensures
        r == profile_before(a@, b@),
{
    let an = a.name.as_str();
    let bn = b.name.as_str();
    if precedes(an, bn) {
        return true;
    }
    if !same_text(an, bn) {
        return false;
    }
    let ap = a.provider.as_str();
    let bp = b.provider.as_str();
    if precedes(ap, bp) {
        return true;
    }
    if !same_text(ap, bp) {
        return false;
    }
    precedes(a.user.as_str(), b.user.as_str())
}

/// The models of a list of profiles, in order.
pub open spec fn profiles_model(list: Seq<Profile>) -> Seq<ProfileView> {
    Seq::new(list.len(), |i: int| list[i]@)
}

/// The profiles of `ids`. Identities in key order have profiles, and only
/// one list of them.
pub open spec fn projection(ids: Seq<(Seq<char>, IdentityView)>) -> Seq<ProfileView> {
    choose|list: Seq<ProfileView>| is_projection(ids, list)
}

/// A list that holds the profiles of `ids` is the list of the profiles of
/// `ids`.
pub proof fn lemma_projection_is(ids: Seq<(Seq<char>, IdentityView)>, list: Seq<ProfileView>)
    requires
        strictly_sorted(ids),
        is_projection(ids, list),
    ensures
        projection(ids) == list,
{
    let chosen = projection(ids);
    assert(is_projection(ids, chosen));
    lemma_projection_unique(ids, list, chosen);
}

/// The names of the profiles of `list`, in order.
pub open spec fn names_of(list: Seq<ProfileView>) -> Seq<Seq<char>> {
    Seq::new(list.len(), |i: int| list[i].name)
}

/// The first profile of `list` with the name `name`.
pub open spec fn first_named(list: Seq<ProfileView>, name: Seq<char>) -> Option<ProfileView>
    decreases list.len(),
{
    if list.len() == 0 {
        None
    } else if list[0].name == name {
        Some(list[0])
    } else {
        first_named(list.drop_first(), name)
    }
}

/// The variant that stands for the identity `identity` with the name `name`.
pub open spec fn variant_for(name: Seq<char>, identity: IdentityView) -> SshVariantView {
    SshVariantView { identity_name: name, key_type: identity.key_type(), identity }
}

impl Config {
    /// The profiles of the configuration: its identities grouped by
    /// provider and user.
    ///
    /// Every identity is a variant of one profile, so there are as many
    /// variants as identities, no more profiles than identities, and no
    /// profile without a variant.
    pub fn profiles(&self) -> (r: Vec<Profile>)
        ensures
            profiles_model(r@) == projection(self@.identities),
            is_projection(self@.identities, profiles_model(r@)),
            total_variants(profiles_model(r@)) == self@.identities.len(),
            r.len() <= self@.identities.len(),
            forall|i: int| 0 <= i < r.len() ==> (#[trigger] r@[i])@.variants.len() > 0,
            strictly_sorted(self@.identities),
    {
        let r = project(&self.identities);
        proof {
            let ps = profiles_model(r@);
            assert forall|i: int| 0 <= i < r.len() implies (#[trigger] r@[i])@.variants.len()
                > 0 by {
                assert(is_profile_of(self@.identities, ps[i]));
            }
        }
        r
    }

    /// The names of the profiles, in the order of the profiles.
    pub fn profile_names(&self) -> (r: Vec<String>)
        ensures
            texts(r@) == names_of(projection(self@.identities)),
    {
        let list = self.profiles();
        let mut names: Vec<String> = Vec::new();
        let mut i: usize = 0;
        while i < list.len()
            invariant
                i <= list.len(),
                names.len() == i,
                forall|j: int| 0 <= j < i ==> names@[j]@ == list@[j]@.name,
            decreases list.len() - i,
        {
            names.push(list[i].name.clone());
            i += 1;
        }
        assert(texts(names@) =~= names_of(profiles_model(list@)));
        names
    }

    /// The first profile with the name `name`, if there is one.
    pub fn get_profile(&self, name: &str) -> (r: Option<Profile>)
        ensures
            r matches Some(p) ==> first_named(projection(self@.identities), name@) == Some(p@),
            r is None ==> first_named(projection(self@.identities), name@) is None,
    {
        let mut list = self.profiles();
        let ghost all = profiles_model(list@);
        let mut i: usize = 0;
        proof {
            assert(all.subrange(0, all.len() as int) =~= all);
        }
        while i < list.len()
            invariant
                i <= list.len(),
                all == profiles_model(list@),
                all == projection(self@.identities),
                first_named(all, name@) == first_named(
                    all.subrange(i as int, all.len() as int),
                    name@,
                ),
            decreases list.len() - i,
        {
            let ghost rest = all.subrange(i as int, all.len() as int);
            assert(rest[0] == list@[i as int]@);
            assert(rest.drop_first() =~= all.subrange(i + 1, all.len() as int));
            if same_text(list[i].name.as_str(), name) {
                let found = list.remove(i);
                assert(found@ == rest[0]);
                return Some(found);
            }
            i += 1;
        }
        None
    }

    /// The profile of the identity that is selected: none where no identity
    /// is selected or the selected name is bound to nothing.
    pub fn current_profile(&self) -> (r: Option<Profile>)
        ensures
            match self@.current_identity() {
                None => r is None,
                Some(identity) => r matches Some(p) && projection(self@.identities).contains(p@)
                    && same_group(identity, p@.provider, p@.user),
            },
    {
        let current = match self.current_identity() {
            Some(identity) => identity,
            None => {
                return None;
            },
        };
        let ghost ids = self@.identities;
        let mut list = self.profiles();
        let ghost all = profiles_model(list@);
        let mut i: usize = 0;
        while i < list.len()
            invariant
                i <= list.len(),
                all == profiles_model(list@),
                all == projection(self@.identities),
                self@.current_identity() == Some(current@),
                forall|j: int|
                    0 <= j < i ==> !same_group(current@, (#[trigger] all[j]).provider, all[j].user),
            decreases list.len() - i,
        {
            if same_text(list[i].provider.as_str(), current.provider.as_str()) && same_text(
                list[i].user.as_str(),
                current.user.as_str(),
            ) {
                assert(all[i as int] == list@[i as int]@);
                let found = list.remove(i);
                assert(all[i as int] == found@);
                assert(all.contains(found@));
                return Some(found);
            }
            assert(all[i as int] == list@[i as int]@);
            i += 1;
        }
        proof {
            let name = self@.state.current_identity;
            lemma_lookup_has_key(ids, name);
            let k = choose|k: int| 0 <= k < ids.len() && #[trigger] ids[k] == (name, current@);
            assert(has_profile(ids, k, all));
            let j = choose|j: int|
                0 <= j < all.len() && same_group(ids[k].1, (#[trigger] all[j]).provider, all[j].user);
            assert(!same_group(current@, all[j].provider, all[j].user));
        }
        None
    }

    /// The variant of the identity that is selected: none where no identity
    /// is selected or the selected name is bound to nothing.
    pub fn current_variant(&self) -> (r: Option<SshVariant>)
        ensures
            match self@.current_identity() {
                None => r is None,
                Some(identity) => r matches Some(v) && v@ == variant_for(
                    self@.state.current_identity,
                    identity,
                ),
            },
    {
        if self.state.current_identity.as_str().is_empty() {
            return None;
        }
        let name = self.state.current_identity.as_str();
        let ghost ids = self@.identities;
        let list = self.profiles();
        let ghost all = profiles_model(list@);
        let mut i: usize = 0;
        while i < list.len()
            invariant
                i <= list.len(),
                all == profiles_model(list@),
                ids == self@.identities,
                strictly_sorted(ids),
                is_projection(ids, all),
                name@ == self@.state.current_identity,
                name@.len() > 0,
                forall|a: int| 0 <= a < i ==> !has_variant((#[trigger] all[a]).variants, name@),
            decreases list.len() - i,
        {
            let variants = &list[i].variants;
            let ghost vs = all[i as int].variants;
            assert(all[i as int] == list@[i as int]@);
            let mut j: usize = 0;
            while j < variants.len()
                invariant
                    j <= variants.len(),
                    vs == variants_model(variants@),
                    0 <= i < all.len(),
                    vs == all[i as int].variants,
                    ids == self@.identities,
                    strictly_sorted(ids),
                    is_projection(ids, all),
                    name@ == self@.state.current_identity,
                    name@.len() > 0,
                    forall|b: int| 0 <= b < j ==> (#[trigger] vs[b]).identity_name != name@,
                decreases variants.len() - j,
            {
                assert(vs[j as int] == variants@[j as int]@);
                if same_text(variants[j].identity_name.as_str(), name) {
                    let found = variants[j].clone();
                    proof {
                        let p = all[i as int];
                        assert(is_profile_of(ids, p));
                        assert(comes_from(ids, ids.len() as int, p.provider, p.user, vs[j as int]));
                        let k = choose|k: int|
                            0 <= k < ids.len() && k < ids.len() && #[trigger] variant_of(ids, k)
                                == vs[j as int] && same_group(ids[k].1, p.provider, p.user);
                        lemma_lookup_at(ids, k);
                    }
                    return Some(found);
                }
                j += 1;
            }
            i += 1;
        }
        proof {
            lemma_lookup_has_key(ids, name@);
            if lookup(ids, name@) is Some {
                let identity = lookup(ids, name@)->0;
                let k = choose|k: int| 0 <= k < ids.len() && #[trigger] ids[k] == (name@, identity);
                assert(has_profile(ids, k, all));
                let a = choose|a: int|
                    0 <= a < all.len() && same_group(
                        ids[k].1,
                        (#[trigger] all[a]).provider,
                        all[a].user,
                    );
                assert(is_profile_of(ids, all[a]));
                assert(entry_in_group(ids, k, all[a].provider, all[a].user));
                assert(has_variant(all[a].variants, ids[k].0));
            }
        }
        None
    }
}

} // verus!
