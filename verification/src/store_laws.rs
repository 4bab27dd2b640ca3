//! Which setting of a cloud store comes from where.
use vstd::prelude::*;

#[allow(unused_imports)]
use crate::credentials::{override_of, pairs_map};
#[allow(unused_imports)]
use crate::decimal::decimal;
#[allow(unused_imports)]
use crate::error::ZarrErrorView;
#[allow(unused_imports)]
use crate::object_store_backends::{
    ascii_lower, azure_settings, flag_of, gcs_settings, gs_spelling, http_settings, lower,
    read_bool, s3_settings, with_path, StoreView,
};
#[allow(unused_imports)]
use crate::text_laws::{law_prefixes, law_trimming, left_behind, lies_at};

verus! {

/// Whether a setting is what the map holds under a key: its value, or nothing
/// if the key is missing or its value is empty.
pub open spec fn carries(
    setting: Option<Seq<char>>,
    map: Map<Seq<char>, Seq<char>>,
    key: Seq<char>,
) -> bool {
    match setting {
        Some(v) => map.contains_key(key) && v == map[key] && v.len() > 0,
        None => map.contains_key(key) ==> map[key].len() == 0,
    }
}

/// Whether a text is the word, each letter in either case.
pub open spec fn spells(value: Seq<char>, word: Seq<char>) -> bool {
    &&& value.len() == word.len()
    &&& forall|i: int|
        0 <= i < word.len() ==> (#[trigger] value[i] == word[i] || 'a' <= word[i] <= 'z'
            && value[i] as int + 32 == word[i] as int)
}

/// The words for true.
pub open spec fn says_yes(value: Seq<char>) -> bool {
    spells(value, "true"@) || spells(value, "1"@) || spells(value, "yes"@) || spells(value, "on"@)
}

/// The words for false.
pub open spec fn says_no(value: Seq<char>) -> bool {
    spells(value, "false"@) || spells(value, "0"@) || spells(value, "no"@) || spells(value, "off"@)
}

/// Whether a flag is what the map says under a key, or nothing if the key is
/// missing or its value is empty.
pub open spec fn carries_flag(
    flag: Option<bool>,
    map: Map<Seq<char>, Seq<char>>,
    key: Seq<char>,
) -> bool {
    match flag {
        Some(b) => map.contains_key(key) && (b ==> says_yes(map[key])) && (!b ==> says_no(map[key])),
        None => map.contains_key(key) ==> map[key].len() == 0,
    }
}

/// Whether what the map holds under a key is neither true nor false.
pub open spec fn unclear(map: Map<Seq<char>, Seq<char>>, key: Seq<char>) -> bool {
    map.contains_key(key) && map[key].len() > 0 && !says_yes(map[key]) && !says_no(map[key])
}

/// Of several pairs with one key the last counts.
pub proof fn law_last_pair_counts(pairs: Seq<(String, String)>, i: int)
    requires
        0 <= i < pairs.len(),
        forall|j: int| i < j < pairs.len() ==> (#[trigger] pairs[j]).0@ != pairs[i].0@,
    ensures
        pairs_map(pairs).contains_key(pairs[i].0@),
        pairs_map(pairs)[pairs[i].0@] == pairs[i].1@,
    decreases pairs.len(),
{
    let n = pairs.len() - 1;
    if i < n {
        let rest = pairs.drop_last();
        assert(rest[i] == pairs[i]);
        assert forall|j: int| i < j < rest.len() implies (#[trigger] rest[j]).0@ != rest[i].0@ by {
            assert(rest[j] == pairs[j]);
        }
        law_last_pair_counts(rest, i);
        assert(pairs[n].0@ != pairs[i].0@);
    }
}

/// A key without a pair is missing.
pub proof fn law_no_pair_no_key(pairs: Seq<(String, String)>, key: Seq<char>)
    requires
        forall|j: int| 0 <= j < pairs.len() ==> (#[trigger] pairs[j]).0@ != key,
    ensures
        !pairs_map(pairs).contains_key(key),
    decreases pairs.len(),
{
    if pairs.len() > 0 {
        let rest = pairs.drop_last();
        assert forall|j: int| 0 <= j < rest.len() implies (#[trigger] rest[j]).0@ != key by {
            assert(rest[j] == pairs[j]);
        }
        law_no_pair_no_key(rest, key);
        assert(pairs[pairs.len() - 1].0@ != key);
    }
}

/// An override is what the map holds under its key, if that is not empty.
pub proof fn law_overrides(map: Map<Seq<char>, Seq<char>>, key: Seq<char>)
    ensures
        carries(override_of(map, key), map, key),
{
}

proof fn lemma_lower(c: char, w: char)
    requires
        !('A' <= w <= 'Z'),
    ensures
        ascii_lower(c) == w <==> c == w || 'a' <= w <= 'z' && c as int + 32 == w as int,
{
}

proof fn lemma_spells(value: Seq<char>, word: Seq<char>)
    requires
        forall|i: int| 0 <= i < word.len() ==> !('A' <= #[trigger] word[i] <= 'Z'),
    ensures
        lower(value) == word <==> spells(value, word),
{
    assert forall|i: int| 0 <= i < value.len() && i < word.len() implies (#[trigger] lower(value)[i]
        == word[i] <==> (value[i] == word[i] || 'a' <= word[i] <= 'z' && value[i] as int + 32
        == word[i] as int)) by {
        lemma_lower(value[i], word[i]);
    }
    if spells(value, word) {
        assert forall|i: int| 0 <= i < word.len() implies lower(value)[i] == word[i] by {
            assert(value[i] == word[i] || 'a' <= word[i] <= 'z' && value[i] as int + 32
                == word[i] as int);
        }
        assert(lower(value) =~= word);
    }
    if lower(value) == word {
        assert(lower(value).len() == value.len());
        assert forall|i: int| 0 <= i < word.len() implies (#[trigger] value[i] == word[i] || 'a'
            <= word[i] <= 'z' && value[i] as int + 32 == word[i] as int) by {
            assert(lower(value)[i] == word[i]);
        }
    }
}

/// `true`, `1`, `yes` and `on` are true, `false`, `0`, `no` and `off` are
/// false, each letter in either case, and nothing else is either.
pub proof fn law_bools(value: Seq<char>)
    ensures
        read_bool(value) == Some(true) <==> says_yes(value),
        read_bool(value) == Some(false) <==> says_no(value),
        !(says_yes(value) && says_no(value)),
{
    reveal_strlit("true");
    reveal_strlit("1");
    reveal_strlit("yes");
    reveal_strlit("on");
    reveal_strlit("false");
    reveal_strlit("0");
    reveal_strlit("no");
    reveal_strlit("off");
    lemma_spells(value, "true"@);
    lemma_spells(value, "1"@);
    lemma_spells(value, "yes"@);
    lemma_spells(value, "on"@);
    lemma_spells(value, "false"@);
    lemma_spells(value, "0"@);
    lemma_spells(value, "no"@);
    lemma_spells(value, "off"@);
    assert("1"@[0] != "0"@[0]);
    assert("yes"@[0] != "off"@[0]);
    assert("on"@[0] != "no"@[0]);
}

/// A flag is what the map says under its key. If that is neither true nor
/// false, the error names the key and what is set.
pub proof fn law_flags(map: Map<Seq<char>, Seq<char>>, key: Seq<char>)
    ensures
        unclear(map, key) <==> flag_of(map, key) is Err,
        unclear(map, key) ==> flag_of(map, key)->Err_0 == (ZarrErrorView::NotABoolean {
            key,
            value: map[key],
        }),
        flag_of(map, key) matches Ok(flag) ==> carries_flag(flag, map, key),
{
    if map.contains_key(key) {
        law_bools(map[key]);
    }
}

/// Each setting of an S3 store is what is set under its own key, and the store
/// is addressed by the URI. There are no settings if a flag is unclear; the
/// error is then that of the first such flag.
pub proof fn law_s3_settings(uri: Seq<char>, map: Map<Seq<char>, Seq<char>>)
    ensures
        match s3_settings(uri, map) {
            Ok(
                StoreView::S3 {
                    url,
                    access_key_id,
                    secret_access_key,
                    session_token,
                    region,
                    endpoint,
                    allow_http,
                    skip_signature,
                },
            ) => {
                &&& url == uri
                &&& carries(access_key_id, map, "aws.access_key_id"@)
                &&& carries(secret_access_key, map, "aws.secret_access_key"@)
                &&& carries(session_token, map, "aws.session_token"@)
                &&& carries(region, map, "aws.region"@)
                &&& carries(endpoint, map, "aws.endpoint"@)
                &&& carries_flag(allow_http, map, "aws.allow_http"@)
                &&& carries_flag(skip_signature, map, "aws.skip_signature"@)
            },
            Ok(_) => false,
            Err(e) => if unclear(map, "aws.allow_http"@) {
                e == (ZarrErrorView::NotABoolean {
                    key: "aws.allow_http"@,
                    value: map["aws.allow_http"@],
                })
            } else {
                &&& unclear(map, "aws.skip_signature"@)
                &&& e == (ZarrErrorView::NotABoolean {
                    key: "aws.skip_signature"@,
                    value: map["aws.skip_signature"@],
                })
            },
        },
        s3_settings(uri, map) is Err <==> unclear(map, "aws.allow_http"@) || unclear(
            map,
            "aws.skip_signature"@,
        ),
{
    law_flags(map, "aws.allow_http"@);
    law_flags(map, "aws.skip_signature"@);
}

/// Whether two maps hold the same under a key.
pub open spec fn same_under(
    a: Map<Seq<char>, Seq<char>>,
    b: Map<Seq<char>, Seq<char>>,
    key: Seq<char>,
) -> bool {
    &&& a.contains_key(key) <==> b.contains_key(key)
    &&& a.contains_key(key) ==> a[key] == b[key]
}

/// Each setting of an S3 store depends on its own key alone, whatever the
/// other keys hold.
pub proof fn law_s3_settings_are_independent(
    a_uri: Seq<char>,
    a: Map<Seq<char>, Seq<char>>,
    b_uri: Seq<char>,
    b: Map<Seq<char>, Seq<char>>,
)
    requires
        s3_settings(a_uri, a) is Ok,
        s3_settings(b_uri, b) is Ok,
    ensures
        ({
            let s = s3_settings(a_uri, a)->Ok_0;
            let t = s3_settings(b_uri, b)->Ok_0;
            &&& same_under(a, b, "aws.access_key_id"@) ==> s->access_key_id == t->access_key_id
            &&& same_under(a, b, "aws.secret_access_key"@) ==> s->secret_access_key
                == t->secret_access_key
            &&& same_under(a, b, "aws.session_token"@) ==> s->session_token == t->session_token
            &&& same_under(a, b, "aws.region"@) ==> s->region == t->region
            &&& same_under(a, b, "aws.endpoint"@) ==> s->endpoint == t->endpoint
            &&& same_under(a, b, "aws.allow_http"@) ==> s->allow_http == t->allow_http
            &&& same_under(a, b, "aws.skip_signature"@) ==> s->skip_signature == t->skip_signature
        }),
{
}

/// A value that is set under the key of an S3 setting is that setting,
/// whatever else is set.
pub proof fn law_s3_overrides_arrive(
    uri: Seq<char>,
    map: Map<Seq<char>, Seq<char>>,
    v: Seq<char>,
)
    requires
        v.len() > 0,
    ensures
        s3_settings(uri, map.insert("aws.access_key_id"@, v)) matches Ok(s)
            ==> s->access_key_id == Some(v),
        s3_settings(uri, map.insert("aws.secret_access_key"@, v)) matches Ok(s)
            ==> s->secret_access_key == Some(v),
        s3_settings(uri, map.insert("aws.session_token"@, v)) matches Ok(s)
            ==> s->session_token == Some(v),
        s3_settings(uri, map.insert("aws.region"@, v)) matches Ok(s) ==> s->region == Some(v),
        s3_settings(uri, map.insert("aws.endpoint"@, v)) matches Ok(s) ==> s->endpoint == Some(v),
        s3_settings(uri, map.insert("aws.allow_http"@, v)) matches Ok(s) ==> s->allow_http == Some(
            says_yes(v),
        ),
        s3_settings(uri, map.insert("aws.skip_signature"@, v)) matches Ok(s)
            ==> s->skip_signature == Some(says_yes(v)),
{
    law_bools(v);
}

/// `gs://` stands for `gcs://`, and any other URI for itself.
pub proof fn law_gs_spelling(uri: Seq<char>)
    ensures
        !lies_at(uri, "gcs://"@, 0) ==> gs_spelling(uri) == uri,
        gs_spelling("gcs://"@ + uri) == "gs://"@ + uri,
        gs_spelling("gs://"@ + uri) == "gs://"@ + uri,
{
    reveal_strlit("gcs://");
    reveal_strlit("gs://");
    law_prefixes(uri, "gcs://"@);
    let long = "gcs://"@ + uri;
    let short = "gs://"@ + uri;
    law_prefixes(long, "gcs://"@);
    law_prefixes(short, "gcs://"@);
    assert(lies_at(long, "gcs://"@, 0));
    assert(long.skip(6) =~= uri);
    if lies_at(short, "gcs://"@, 0) {
        assert("gcs://"@[1] == short[1]);
    }
}

/// Each setting of a Google Cloud Storage store is what is set under its own
/// key.
pub proof fn law_gcs_settings(uri: Seq<char>, map: Map<Seq<char>, Seq<char>>)
    ensures
        match gcs_settings(uri, map) {
            StoreView::Gcs {
                url,
                service_account_path,
                service_account_key,
                application_credentials_path,
            } => {
                &&& url == gs_spelling(uri)
                &&& carries(service_account_path, map, "gcp.service_account_path"@)
                &&& carries(service_account_key, map, "gcp.service_account_key"@)
                &&& carries(application_credentials_path, map, "gcp.application_credentials_path"@)
            },
            _ => false,
        },
{
}

/// Each setting of an Azure store is what is set under its own key, and the
/// store is addressed by the URI. There are no settings if the flag is
/// unclear.
pub proof fn law_azure_settings(uri: Seq<char>, map: Map<Seq<char>, Seq<char>>)
    ensures
        match azure_settings(uri, map) {
            Ok(
                StoreView::Azure {
                    url,
                    account_name,
                    account_key,
                    client_id,
                    client_secret,
                    tenant_id,
                    use_emulator,
                },
            ) => {
                &&& url == uri
                &&& carries(account_name, map, "azure.account_name"@)
                &&& carries(account_key, map, "azure.account_key"@)
                &&& carries(client_id, map, "azure.client_id"@)
                &&& carries(client_secret, map, "azure.client_secret"@)
                &&& carries(tenant_id, map, "azure.tenant_id"@)
                &&& carries_flag(use_emulator, map, "azure.use_emulator"@)
            },
            Ok(_) => false,
            Err(e) => e == (ZarrErrorView::NotABoolean {
                key: "azure.use_emulator"@,
                value: map["azure.use_emulator"@],
            }),
        },
        azure_settings(uri, map) is Err <==> unclear(map, "azure.use_emulator"@),
{
    law_flags(map, "azure.use_emulator"@);
}

/// Each setting of a Google Cloud Storage or Azure store depends on its own
/// key alone, whatever the other keys hold.
pub proof fn law_other_settings_are_independent(
    a_uri: Seq<char>,
    a: Map<Seq<char>, Seq<char>>,
    b_uri: Seq<char>,
    b: Map<Seq<char>, Seq<char>>,
)
    requires
        azure_settings(a_uri, a) is Ok,
        azure_settings(b_uri, b) is Ok,
    ensures
        ({
            let s = gcs_settings(a_uri, a);
            let t = gcs_settings(b_uri, b);
            &&& same_under(a, b, "gcp.service_account_path"@) ==> s->service_account_path
                == t->service_account_path
            &&& same_under(a, b, "gcp.service_account_key"@) ==> s->service_account_key
                == t->service_account_key
            &&& same_under(a, b, "gcp.application_credentials_path"@)
                ==> s->application_credentials_path == t->application_credentials_path
        }),
        ({
            let s = azure_settings(a_uri, a)->Ok_0;
            let t = azure_settings(b_uri, b)->Ok_0;
            &&& same_under(a, b, "azure.account_name"@) ==> s->account_name == t->account_name
            &&& same_under(a, b, "azure.account_key"@) ==> s->account_key == t->account_key
            &&& same_under(a, b, "azure.client_id"@) ==> s->client_id == t->client_id
            &&& same_under(a, b, "azure.client_secret"@) ==> s->client_secret == t->client_secret
            &&& same_under(a, b, "azure.tenant_id"@) ==> s->tenant_id == t->tenant_id
            &&& same_under(a, b, "azure.use_emulator"@) ==> s->use_emulator == t->use_emulator
        }),
{
}

/// An HTTP store is addressed by `scheme://host`, with `:port` behind it if
/// the URL names a port; without a host there is no store.
pub proof fn law_http_settings(
    uri: Seq<char>,
    scheme: Seq<char>,
    host: Seq<char>,
    port: u16,
    path: Seq<char>,
)
    ensures
        http_settings(uri, (scheme, Some(host), None, path)) == Ok::<StoreView, ZarrErrorView>(
            StoreView::Http { base: scheme + seq![':', '/', '/'] + host },
        ),
        http_settings(uri, (scheme, Some(host), Some(port), path)) == Ok::<
            StoreView,
            ZarrErrorView,
        >(
            StoreView::Http {
                base: scheme + seq![':', '/', '/'] + host + seq![':'] + decimal(port as nat),
            },
        ),
        http_settings(uri, (scheme, None, Some(port), path)) == Err::<StoreView, ZarrErrorView>(
            ZarrErrorView::MissingHost { uri },
        ),
        http_settings(uri, (scheme, None, None, path)) == Err::<StoreView, ZarrErrorView>(
            ZarrErrorView::MissingHost { uri },
        ),
{
    reveal_strlit("://");
    reveal_strlit(":");
    assert("://"@ =~= seq![':', '/', '/']);
    assert(":"@ =~= seq![':']);
}

/// The path in a store is that of the URL without the slashes in front. What
/// is wrong with the URL comes before what is wrong with the settings.
pub proof fn law_paths_in_stores(
    uri: Seq<char>,
    parts: (Seq<char>, Option<Seq<char>>, Option<u16>, Seq<char>),
    reason: Seq<char>,
    settings: Result<StoreView, ZarrErrorView>,
)
    ensures
        with_path(uri, Err(reason), settings) == Err::<(StoreView, Seq<char>), ZarrErrorView>(
            ZarrErrorView::InvalidUri { uri, reason },
        ),
        settings matches Err(e) ==> with_path(uri, Ok(parts), settings) == Err::<
            (StoreView, Seq<char>),
            ZarrErrorView,
        >(e),
        settings matches Ok(store) ==> {
            &&& with_path(uri, Ok(parts), settings) matches Ok((given, path))
            &&& given == store
            &&& left_behind(parts.3, path, '/')
        },
{
    law_trimming(parts.3, '/');
}

} // verus!
