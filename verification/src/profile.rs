//! Profiles: the identities of a configuration, grouped by provider and
//! user.
//!
//! A profile holds one variant for each identity of its provider and user.
//! Nothing of it is stored: it is derived from the identities whenever it is
//! asked for, and the identities alone decide what comes out.

use vstd::prelude::*;
use crate::identity::{
    show_name, shown_name, GpgConfig, GpgConfigView, Identity, IdentityView, SshKeyType,
};

verus! {

/// The model of an `SshVariant`.
pub struct SshVariantView {
    pub identity_name: Seq<char>,
    pub key_type: SshKeyType,
    pub identity: IdentityView,
}

/// One identity of a profile, with the kind of its SSH key.
#[derive(Debug, PartialEq, Eq)]
pub struct SshVariant {
    /// The name of the identity in the configuration.
    pub identity_name: String,
    pub key_type: SshKeyType,
    pub identity: Identity,
}

impl View for SshVariant {
    type V = SshVariantView;

    open spec fn view(&self) -> SshVariantView {
        SshVariantView {
            identity_name: self.identity_name@,
            key_type: self.key_type,
            identity: self.identity@,
        }
    }
}

impl Clone for SshVariant {
    fn clone(&self) -> (r: Self)
        ensures
            r@ == self@,
    {
        SshVariant {
            identity_name: self.identity_name.clone(),
            key_type: self.key_type,
            identity: self.identity.clone(),
        }
    }
}

impl SshVariant {
    /// The name shown for the variant: that of the kind of its key.
    pub fn display_name(&self) -> (r: String)
        ensures
            r@ == self@.key_type.display_text(),
    {
        self.key_type.display_name().to_owned()
    }
}

/// The models of a list of variants, in order.
pub open spec fn variants_model(list: Seq<SshVariant>) -> Seq<SshVariantView> {
    Seq::new(list.len(), |i: int| list[i]@)
}

/// The first variant of `list` with a key of the kind `key_type`.
pub open spec fn first_of_type(list: Seq<SshVariantView>, key_type: SshKeyType) -> Option<
    SshVariantView,
>
    decreases list.len(),
{
    if list.len() == 0 {
        None
    } else if list[0].key_type == key_type {
        Some(list[0])
    } else {
        first_of_type(list.drop_first(), key_type)
    }
}

/// The variant that a profile prefers: the first one on a hardware token,
/// or else the first one.
pub open spec fn preferred(list: Seq<SshVariantView>) -> Option<SshVariantView> {
    match first_of_type(list, SshKeyType::Fido2) {
        Some(v) => Some(v),
        None => if list.len() > 0 {
            Some(list[0])
        } else {
            None
        },
    }
}

/// The model of a `Profile`.
pub struct ProfileView {
    pub name: Seq<char>,
    pub provider: Seq<char>,
    pub user: Seq<char>,
    pub email: Seq<char>,
    pub gpg: GpgConfigView,
    pub variants: Seq<SshVariantView>,
}

/// The identities of one user at one provider.
#[derive(Debug, PartialEq, Eq)]
pub struct Profile {
    pub name: String,
    pub provider: String,
    pub user: String,
    pub email: String,
    pub gpg: GpgConfig,
    pub variants: Vec<SshVariant>,
}

impl View for Profile {
    type V = ProfileView;

    open spec fn view(&self) -> ProfileView {
        ProfileView {
            name: self.name@,
            provider: self.provider@,
            user: self.user@,
            email: self.email@,
            gpg: self.gpg@,
            variants: variants_model(self.variants@),
        }
    }
}

/// A copy of a list of variants.
pub fn copy_variants(list: &Vec<SshVariant>) -> (r: Vec<SshVariant>)
    ensures
        variants_model(r@) == variants_model(list@),
{
    let mut r: Vec<SshVariant> = Vec::new();
    let mut i: usize = 0;
    while i < list.len()
        invariant
            i <= list.len(),
            r.len() == i,
            forall|j: int| 0 <= j < i ==> r@[j]@ == list@[j]@,
        decreases list.len() - i,
    {
        r.push(list[i].clone());
        i += 1;
    }
    assert(variants_model(r@) =~= variants_model(list@));
    r
}

impl Clone for Profile {
    fn clone(&self) -> (r: Self)
        ensures
            r@ == self@,
    {
        Profile {
            name: self.name.clone(),
            provider: self.provider.clone(),
            user: self.user.clone(),
            email: self.email.clone(),
            gpg: self.gpg.clone(),
            variants: copy_variants(&self.variants),
        }
    }
}

impl Profile {
    /// The name shown for the profile: `user (provider)`, or the profile's
    /// name where there is no user.
    pub fn display_name(&self) -> (r: String)
        ensures
            r@ == shown_name(self@.user, self@.provider, self@.name),
    {
        show_name(self.user.as_str(), self.provider.as_str(), self.name.as_str())
    }

    /// Whether commits are signed: there is a key and signing is switched on.
    pub fn has_gpg_signing(&self) -> (r: bool)
        ensures
            r == self@.gpg.signs(),
    {
        !self.gpg.key_id.as_str().is_empty() && self.gpg.sign_commits
    }

    /// The first variant with a key of the kind `key_type`, if there is one.
    pub fn get_variant(&self, key_type: &SshKeyType) -> (r: Option<&SshVariant>)
        ensures
            r matches Some(v) ==> first_of_type(self@.variants, *key_type) == Some(v@),
            r is None ==> first_of_type(self@.variants, *key_type) is None,
    {
        let ghost all = self@.variants;
        let mut i: usize = 0;
        proof {
            assert(all.subrange(0, all.len() as int) =~= all);
        }
        while i < self.variants.len()
            invariant
                i <= self.variants.len(),
                all == variants_model(self.variants@),
                first_of_type(all, *key_type) == first_of_type(
                    all.subrange(i as int, all.len() as int),
                    *key_type,
                ),
            decreases self.variants.len() - i,
        {
            let ghost rest = all.subrange(i as int, all.len() as int);
            assert(rest[0] == self.variants@[i as int]@);
            assert(rest.drop_first() =~= all.subrange(i + 1, all.len() as int));
            if self.variants[i].key_type == *key_type {
                return Some(&self.variants[i]);
            }
            i += 1;
        }
        None
    }

    /// The first variant with a key held in a file, if there is one.
    pub fn regular_variant(&self) -> (r: Option<&SshVariant>)
        ensures
            r matches Some(v) ==> first_of_type(self@.variants, SshKeyType::Regular) == Some(v@),
            r is None ==> first_of_type(self@.variants, SshKeyType::Regular) is None,
    {
        self.get_variant(&SshKeyType::Regular)
    }

    /// The first variant with a key on a hardware token, if there is one.
    pub fn fido2_variant(&self) -> (r: Option<&SshVariant>)
        ensures
            r matches Some(v) ==> first_of_type(self@.variants, SshKeyType::Fido2) == Some(v@),
            r is None ==> first_of_type(self@.variants, SshKeyType::Fido2) is None,
    {
        self.get_variant(&SshKeyType::Fido2)
    }

    /// The variant that the profile prefers: the first one on a hardware
    /// token, or else the first one. A profile with a variant has one.
    pub fn default_variant(&self) -> (r: Option<&SshVariant>)
        ensures
            r matches Some(v) ==> preferred(self@.variants) == Some(v@),
            r is None ==> preferred(self@.variants) is None,
            self@.variants.len() > 0 ==> r is Some,
    {
        match self.get_variant(&SshKeyType::Fido2) {
            Some(v) => Some(v),
            None => if self.variants.len() > 0 {
                Some(&self.variants[0])
            } else {
                None
            },
        }
    }

    /// Whether the profile has more than one variant.
    pub fn has_multiple_variants(&self) -> (r: bool)
        ensures
            r == (self@.variants.len() > 1),
    {
        self.variants.len() > 1
    }
}

} // verus!
