//! Reading gives back what writing took: the documents that hold a
//! configuration are read as that configuration.

use vstd::prelude::*;
use crate::config::ConfigView;
use crate::decode::{
    decode_config, decode_entries, decode_gpg, decode_identity, decode_settings, decode_state,
    is_known_key, text_items, unknown_members,
};
use crate::encode::{
    encode_config, encode_entries, encode_gpg, encode_identity, encode_settings, encode_state,
    known_members, text_docs,
};
use crate::identity::{lemma_tag_read_back, GpgConfigView, IdentityView};
use crate::json::{member, Json};
use crate::settings::{SettingsView, StateView};
use crate::text::{lemma_text_before_irreflexive, text_before};
use crate::text_map::{
    has_key, lemma_sorted_from, lemma_sorted_from_sorted, lemma_upsert_lookup, lemma_upsert_sorted,
    lookup, sorted_from, strictly_sorted, upsert,
};

verus! {

/// The member at `i` is found by its key where no later member has the key.
pub proof fn lemma_member_at(m: Seq<(Seq<char>, Json)>, i: int)
    requires
        0 <= i < m.len(),
        forall|j: int| i < j < m.len() ==> (#[trigger] m[j]).0 != m[i].0,
    ensures
        member(m, m[i].0) == Some(m[i].1),
    decreases m.len(),
{
    if i < m.len() - 1 {
        assert(m[m.len() - 1].0 != m[i].0);
        let rest = m.drop_last();
        assert(rest[i] == m[i]);
        assert forall|j: int| i < j < rest.len() implies (#[trigger] rest[j]).0 != rest[i].0 by {
            assert(rest[j] == m[j]);
        }
        lemma_member_at(rest, i);
    }
}

/// A key that no member has names no member.
pub proof fn lemma_member_none(m: Seq<(Seq<char>, Json)>, key: Seq<char>)
    requires
        forall|j: int| 0 <= j < m.len() ==> (#[trigger] m[j]).0 != key,
    ensures
        member(m, key) is None,
    decreases m.len(),
{
    if m.len() > 0 {
        assert(m[m.len() - 1].0 != key);
        let rest = m.drop_last();
        assert forall|j: int| 0 <= j < rest.len() implies (#[trigger] rest[j]).0 != key by {
            assert(rest[j] == m[j]);
        }
        lemma_member_none(rest, key);
    }
}

/// A list of strings is read back from the documents that hold them.
pub proof fn lemma_text_items(list: Seq<Seq<char>>)
    ensures
        text_items(text_docs(list)) == Some(list),
    decreases list.len(),
{
    let docs = text_docs(list);
    if list.len() > 0 {
        assert(docs.drop_last() =~= text_docs(list.drop_last()));
        lemma_text_items(list.drop_last());
        assert(list.drop_last().push(list.last()) =~= list);
    } else {
        assert(list =~= Seq::<Seq<char>>::empty());
    }
}

/// A signing setup is read back from the document that holds it.
pub proof fn lemma_gpg_round_trip(g: GpgConfigView)
    ensures
        decode_gpg(encode_gpg(g)) == Some(g),
{
    reveal_strlit("keyId");
    reveal_strlit("signCommits");
    reveal_strlit("signTags");
    reveal_strlit("autoSignoff");
    reveal_strlit("securityMode");
    reveal_strlit("pinStorageMethod");
    lemma_tag_read_back();
    let m = encode_gpg(g)->Object_0;
    assert("keyId"@.len() == 5);
    assert("signCommits"@.len() == 11);
    assert("signTags"@.len() == 8);
    assert("autoSignoff"@.len() == 11);
    assert("securityMode"@.len() == 12);
    assert("pinStorageMethod"@.len() == 16);
    assert("signCommits"@[0] != "autoSignoff"@[0]);
    assert(m[0].0 == "keyId"@);
    assert(m[1].0 == "signCommits"@);
    assert(m[2].0 == "signTags"@);
    assert(m[3].0 == "autoSignoff"@);
    assert(m[4].0 == "securityMode"@);
    lemma_member_at(m, 0);
    lemma_member_at(m, 1);
    lemma_member_at(m, 2);
    lemma_member_at(m, 3);
    lemma_member_at(m, 4);
    match g.pin_storage_method {
        Some(_) => {
            lemma_member_at(m, 5);
        },
        None => {
            lemma_member_none(m, "pinStorageMethod"@);
        },
    }
}

/// An identity is read back from the document that holds it.
pub proof fn lemma_identity_round_trip(id: IdentityView)
    ensures
        decode_identity(encode_identity(id)) == Some(id),
{
    reveal_strlit("provider");
    reveal_strlit("host");
    reveal_strlit("hostname");
    reveal_strlit("user");
    reveal_strlit("email");
    reveal_strlit("sshKeyPath");
    reveal_strlit("credentialSource");
    reveal_strlit("organizations");
    reveal_strlit("gpg");
    let m = encode_identity(id)->Object_0;
    assert("provider"@.len() == 8);
    assert("host"@.len() == 4);
    assert("hostname"@.len() == 8);
    assert("user"@.len() == 4);
    assert("email"@.len() == 5);
    assert("sshKeyPath"@.len() == 10);
    assert("credentialSource"@.len() == 16);
    assert("organizations"@.len() == 13);
    assert("gpg"@.len() == 3);
    assert("provider"@[0] != "hostname"@[0]);
    assert("host"@[0] != "user"@[0]);
    assert(m[0].0 == "provider"@);
    assert(m[1].0 == "host"@);
    assert(m[2].0 == "hostname"@);
    assert(m[3].0 == "user"@);
    assert(m[4].0 == "email"@);
    assert(m[5].0 == "sshKeyPath"@);
    assert(m[6].0 == "credentialSource"@);
    assert(m[7].0 == "organizations"@);
    assert(m[8].0 == "gpg"@);
    lemma_member_at(m, 0);
    lemma_member_at(m, 1);
    lemma_member_at(m, 2);
    lemma_member_at(m, 3);
    lemma_member_at(m, 4);
    lemma_member_at(m, 5);
    lemma_member_at(m, 6);
    lemma_member_at(m, 7);
    lemma_member_at(m, 8);
    lemma_text_items(id.organizations);
    lemma_gpg_round_trip(id.gpg);
}

/// Settings are read back from the document that holds them.
pub proof fn lemma_settings_round_trip(s: SettingsView)
    ensures
        decode_settings(encode_settings(s)) == Some(s),
{
    reveal_strlit("defaultProvider");
    reveal_strlit("autoDetect");
    reveal_strlit("useKeychain");
    reveal_strlit("gpgSign");
    reveal_strlit("gpgVerifyWithProvider");
    reveal_strlit("fallbackToSSH");
    reveal_strlit("verboseLogging");
    let m = encode_settings(s)->Object_0;
    assert("defaultProvider"@.len() == 15);
    assert("autoDetect"@.len() == 10);
    assert("useKeychain"@.len() == 11);
    assert("gpgSign"@.len() == 7);
    assert("gpgVerifyWithProvider"@.len() == 21);
    assert("fallbackToSSH"@.len() == 13);
    assert("verboseLogging"@.len() == 14);
    assert(m[0].0 == "defaultProvider"@);
    assert(m[1].0 == "autoDetect"@);
    assert(m[2].0 == "useKeychain"@);
    assert(m[3].0 == "gpgSign"@);
    assert(m[4].0 == "gpgVerifyWithProvider"@);
    assert(m[5].0 == "fallbackToSSH"@);
    assert(m[6].0 == "verboseLogging"@);
    lemma_member_at(m, 0);
    lemma_member_at(m, 1);
    lemma_member_at(m, 2);
    lemma_member_at(m, 3);
    lemma_member_at(m, 4);
    lemma_member_at(m, 5);
    lemma_member_at(m, 6);
}

/// A selection is read back from the document that holds it.
pub proof fn lemma_state_round_trip(s: StateView)
    ensures
        decode_state(encode_state(s)) == Some(s),
{
    reveal_strlit("currentIdentity");
    reveal_strlit("lastSwitch");
    let m = encode_state(s)->Object_0;
    assert("currentIdentity"@.len() == 15);
    assert("lastSwitch"@.len() == 10);
    assert(m[0].0 == "currentIdentity"@);
    assert(m[1].0 == "lastSwitch"@);
    lemma_member_at(m, 0);
    lemma_member_at(m, 1);
}

/// Identities are read back, one by one, from the members that hold them.
pub proof fn lemma_entries_round_trip(ids: Seq<(Seq<char>, IdentityView)>)
    ensures
        decode_entries(encode_entries(ids)) == Some(ids),
    decreases ids.len(),
{
    let m = encode_entries(ids);
    if ids.len() > 0 {
        assert(m.drop_last() =~= encode_entries(ids.drop_last()));
        lemma_entries_round_trip(ids.drop_last());
        lemma_identity_round_trip(ids.last().1);
        assert(ids.drop_last().push(ids.last()) =~= ids);
    } else {
        assert(ids =~= Seq::<(Seq<char>, IdentityView)>::empty());
    }
}

/// No key of `list` names a member of the configuration proper.
pub open spec fn no_known_key(list: Seq<(Seq<char>, Json)>) -> bool {
    forall|i: int| 0 <= i < list.len() ==> !is_known_key((#[trigger] list[i]).0)
}

/// Every key of `list` names a member of the configuration proper.
pub open spec fn all_known_keys(list: Seq<(Seq<char>, Json)>) -> bool {
    forall|i: int| 0 <= i < list.len() ==> is_known_key((#[trigger] list[i]).0)
}

/// Of known members followed by others, the others are the unknown ones.
pub proof fn lemma_unknown_members(known: Seq<(Seq<char>, Json)>, extra: Seq<(Seq<char>, Json)>)
    requires
        all_known_keys(known),
        no_known_key(extra),
    ensures
        unknown_members(known + extra) == extra,
    decreases extra.len(), known.len(),
{
    let all = known + extra;
    if extra.len() > 0 {
        assert(all.last() == extra.last());
        assert(all.drop_last() =~= known + extra.drop_last());
        assert(no_known_key(extra.drop_last())) by {
            assert forall|i: int| 0 <= i < extra.drop_last().len() implies !is_known_key(
                (#[trigger] extra.drop_last()[i]).0,
            ) by {
                assert(extra.drop_last()[i] == extra[i]);
            }
        }
        lemma_unknown_members(known, extra.drop_last());
        assert(extra.drop_last().push(extra.last()) =~= extra);
    } else if known.len() > 0 {
        assert(all =~= known);
        assert(all.last() == known[known.len() - 1]);
        assert(all_known_keys(known.drop_last())) by {
            assert forall|i: int| 0 <= i < known.drop_last().len() implies is_known_key(
                (#[trigger] known.drop_last()[i]).0,
            ) by {
                assert(known.drop_last()[i] == known[i]);
            }
        }
        lemma_unknown_members(known.drop_last(), extra);
        assert(known.drop_last() + extra =~= all.drop_last());
    } else {
        assert(all =~= Seq::<(Seq<char>, Json)>::empty());
        assert(extra =~= Seq::<(Seq<char>, Json)>::empty());
    }
}

/// A configuration as `load` makes it: the identities and the extra
/// members in key order, and no extra member under a key of the
/// configuration proper.
pub open spec fn is_valid(c: ConfigView) -> bool {
    &&& strictly_sorted(c.identities)
    &&& strictly_sorted(c.extra)
    &&& no_known_key(c.extra)
}

/// Every key of the sorted map of `s` is a key of `s`.
pub proof fn lemma_sorted_from_keys<T>(s: Seq<(Seq<char>, T)>)
    ensures
        forall|i: int|
            0 <= i < sorted_from(s).len() ==> has_key(s, (#[trigger] sorted_from(s)[i]).0),
    decreases s.len(),
{
    if s.len() > 0 {
        let rest = s.drop_last();
        let before = sorted_from(rest);
        let after = sorted_from(s);
        lemma_sorted_from_keys(rest);
        lemma_sorted_from(rest);
        lemma_upsert_sorted(before, s.last().0, s.last().1);
        assert forall|i: int| 0 <= i < after.len() implies has_key(s, (#[trigger] after[i]).0) by {
            if after[i].0 == s.last().0 {
                assert(s[s.len() - 1].0 == after[i].0);
            } else {
                assert(has_key(before, after[i].0));
                let j = choose|j: int| 0 <= j < before.len() && (#[trigger] before[j]).0 == after[i].0;
                assert(has_key(rest, before[j].0));
                let k = choose|k: int| 0 <= k < rest.len() && (#[trigger] rest[k]).0 == before[j].0;
                assert(s[k].0 == after[i].0);
            }
        }
    }
}

/// The unknown members have no key of the configuration proper.
pub proof fn lemma_unknown_keys(m: Seq<(Seq<char>, Json)>)
    ensures
        no_known_key(unknown_members(m)),
    decreases m.len(),
{
    if m.len() > 0 {
        lemma_unknown_keys(m.drop_last());
        let rest = unknown_members(m.drop_last());
        if !is_known_key(m.last().0) {
            assert forall|i: int| 0 <= i < rest.push(m.last()).len() implies !is_known_key(
                (#[trigger] rest.push(m.last())[i]).0,
            ) by {
                if i < rest.len() {
                    assert(rest.push(m.last())[i] == rest[i]);
                }
            }
        }
    }
}

/// What is read from a document is a valid configuration.
pub proof fn lemma_decoded_is_valid(doc: Json)
    requires
        decode_config(doc) is Some,
    ensures
        is_valid(decode_config(doc)->0),
{
    let c = decode_config(doc)->0;
    let m = doc->Object_0;
    let entries = decode_entries(member(m, "identities"@)->0->Object_0)->0;
    lemma_sorted_from(entries);
    let kept = unknown_members(m);
    lemma_sorted_from(kept);
    lemma_sorted_from_keys(kept);
    lemma_unknown_keys(kept);
    lemma_unknown_keys(m);
    assert forall|i: int| 0 <= i < c.extra.len() implies !is_known_key((#[trigger] c.extra[i]).0) by {
        assert(has_key(kept, c.extra[i].0));
        let j = choose|j: int| 0 <= j < kept.len() && (#[trigger] kept[j]).0 == c.extra[i].0;
        assert(!is_known_key(kept[j].0));
    }
}

/// Writing a configuration as a document and reading the document gives the
/// configuration back: the version, the identities under their names, the
/// settings, the selection and all the rest.
pub proof fn lemma_round_trip(c: ConfigView)
    requires
        is_valid(c),
    ensures
        decode_config(encode_config(c)) == Some(c),
{
    reveal_strlit("$schema");
    reveal_strlit("version");
    reveal_strlit("generated");
    reveal_strlit("identities");
    reveal_strlit("settings");
    reveal_strlit("state");
    assert("$schema"@.len() == 7);
    assert("version"@.len() == 7);
    assert("generated"@.len() == 9);
    assert("identities"@.len() == 10);
    assert("settings"@.len() == 8);
    assert("state"@.len() == 5);
    assert("$schema"@[0] != "version"@[0]);
    let known = known_members(c);
    let m = known + c.extra;
    assert(encode_config(c) == Json::Object(m));
    let base: int = match c.schema {
        Some(_) => 1,
        None => 0,
    };
    assert(known.len() == base + 5);
    assert(known[base].0 == "version"@);
    assert(known[base + 1].0 == "generated"@);
    assert(known[base + 2].0 == "identities"@);
    assert(known[base + 3].0 == "settings"@);
    assert(known[base + 4].0 == "state"@);
    assert(all_known_keys(known));
    assert forall|j: int| known.len() <= j < m.len() implies !is_known_key((#[trigger] m[j]).0) by {
        assert(m[j] == c.extra[j - known.len()]);
    }
    assert forall|j: int| 0 <= j < known.len() implies #[trigger] m[j] == known[j] by {}
    match c.schema {
        Some(_) => {
            assert(m[0].0 == "$schema"@);
            lemma_member_at(m, 0);
        },
        None => {
            lemma_member_none(m, "$schema"@);
        },
    }
    lemma_member_at(m, base);
    lemma_member_at(m, base + 1);
    lemma_member_at(m, base + 2);
    lemma_member_at(m, base + 3);
    lemma_member_at(m, base + 4);
    lemma_entries_round_trip(c.identities);
    lemma_sorted_from_sorted(c.identities);
    lemma_settings_round_trip(c.settings);
    lemma_state_round_trip(c.state);
    lemma_unknown_members(known, c.extra);
    lemma_sorted_from_sorted(c.extra);
}

/// A document with one more member, under a key that is none of the
/// configuration proper, is a configuration as it was before: the same
/// configuration with that member, as it is, among the extra ones.
pub proof fn lemma_extra_member_kept(m: Seq<(Seq<char>, Json)>, key: Seq<char>, value: Json)
    requires
        decode_config(Json::Object(m)) is Some,
        !is_known_key(key),
    ensures
        decode_config(Json::Object(m.push((key, value)))) matches Some(c) && lookup(c.extra, key)
            == Some(value) && c == (ConfigView {
            extra: upsert(decode_config(Json::Object(m))->0.extra, key, value),
            ..decode_config(Json::Object(m))->0
        }),
{
    let more = m.push((key, value));
    assert(more.drop_last() =~= m);
    assert(more.last() == (key, value));
    assert(member(more, "$schema"@) == member(m, "$schema"@));
    assert(member(more, "version"@) == member(m, "version"@));
    assert(member(more, "generated"@) == member(m, "generated"@));
    assert(member(more, "identities"@) == member(m, "identities"@));
    assert(member(more, "settings"@) == member(m, "settings"@));
    assert(member(more, "state"@) == member(m, "state"@));
    let kept = unknown_members(m);
    assert(unknown_members(more) == kept.push((key, value)));
    assert(kept.push((key, value)).drop_last() =~= kept);
    assert(sorted_from(kept.push((key, value))) == upsert(sorted_from(kept), key, value));
    lemma_upsert_lookup(sorted_from(kept), key, value, key);
}

/// Names in strict order are all different.
pub proof fn lemma_sorted_names_differ<T>(s: Seq<(Seq<char>, T)>, i: int, j: int)
    requires
        strictly_sorted(s),
        0 <= i < s.len(),
        0 <= j < s.len(),
        i != j,
    ensures
        s[i].0 != s[j].0,
{
    lemma_text_before_irreflexive(s[i].0);
    if i < j {
        assert(text_before(s[i].0, s[j].0));
    } else {
        assert(text_before(s[j].0, s[i].0));
    }
}

} // verus!
