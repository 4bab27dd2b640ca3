//! Where the parts of chunk anchors lie, and what each URI names.
use vstd::prelude::*;

#[allow(unused_imports)]
use crate::decimal::{decimal, parse_unsigned};
#[allow(unused_imports)]
use crate::error::ZarrErrorView;
#[allow(unused_imports)]
use crate::object_store_backends::{
    azure_settings, gcs_settings, http_settings, s3_settings, StoreView,
};
#[allow(unused_imports)]
use crate::source_uri::{
    anchor_text, group_path, index_numerals, last_value, lemma_read_indices_prefix,
    lemma_scheme_prefix, locate, read_anchor, read_indices, scheme_of, ChunkAnchorView,
    ZarrStorageView,
};
#[allow(unused_imports)]
use crate::text::{
    first_index, first_match, join, lemma_first_index_unique, lemma_split_first, lemma_split_join,
    split, trim_start,
};
#[allow(unused_imports)]
use crate::text_laws::{
    law_first_match, law_joining, law_prefixes, law_trimming, left_behind, lemma_left_behind_once,
    lies_at,
};

verus! {

/// Whether a text holds `://` at `i`.
pub open spec fn marks_scheme(uri: Seq<char>, i: int) -> bool {
    0 <= i && i + 3 <= uri.len() && uri[i] == ':' && uri[i + 1] == '/' && uri[i + 2] == '/'
}

proof fn lemma_marks(uri: Seq<char>, i: int)
    ensures
        marks_scheme(uri, i) <==> lies_at(uri, "://"@, i),
{
    reveal_strlit("://");
    let p = "://"@;
    assert(p[0] == ':' && p[1] == '/' && p[2] == '/');
    if lies_at(uri, p, i) {
        assert(p[0] == uri[i + 0]);
        assert(p[1] == uri[i + 1]);
        assert(p[2] == uri[i + 2]);
    }
}

/// The scheme of a URI is what lies before its first `://`; a text without
/// one has no scheme.
pub proof fn law_schemes(uri: Seq<char>, i: int)
    requires
        forall|j: int| 0 <= j < i ==> !#[trigger] marks_scheme(uri, j),
    ensures
        marks_scheme(uri, i) ==> scheme_of(uri) == Some(uri.take(i)),
        i >= uri.len() ==> scheme_of(uri) is None,
{
    law_first_match(uri, "://"@);
    lemma_marks(uri, i);
    if let Some(k) = first_match(uri, "://"@) {
        lemma_marks(uri, k);
        assert(marks_scheme(uri, k));
    }
}

/// A URI without `://` is a path of the filesystem, kept character by
/// character, and the group is the root of the store there.
pub proof fn law_bare_paths(
    uri: Seq<char>,
    url: Result<(Seq<char>, Option<Seq<char>>, Option<u16>, Seq<char>), Seq<char>>,
    creds: Map<Seq<char>, Seq<char>>,
)
    requires
        forall|i: int| !#[trigger] marks_scheme(uri, i),
    ensures
        ({
            &&& locate(uri, url, creds) matches Ok((ZarrStorageView::Filesystem { path }, group))
            &&& path.len() == uri.len()
            &&& forall|i: int| 0 <= i < uri.len() ==> #[trigger] path[i] == uri[i]
            &&& group == seq!['/']
        }),
{
    reveal_strlit("/");
    assert("/"@ =~= seq!['/']);
    law_schemes(uri, uri.len() as int);
}

/// `file://` and a path name that path of the filesystem.
pub proof fn law_file_uris(
    rest: Seq<char>,
    url: Result<(Seq<char>, Option<Seq<char>>, Option<u16>, Seq<char>), Seq<char>>,
    creds: Map<Seq<char>, Seq<char>>,
)
    ensures
        ({
            let uri = seq!['f', 'i', 'l', 'e', ':', '/', '/'] + rest;
            &&& locate(uri, url, creds) matches Ok((ZarrStorageView::Filesystem { path }, group))
            &&& path.len() == rest.len()
            &&& forall|i: int| 0 <= i < rest.len() ==> #[trigger] path[i] == rest[i]
            &&& group == seq!['/']
        }),
{
    reveal_strlit("/");
    reveal_strlit("file");
    reveal_strlit("://");
    reveal_strlit("file://");
    assert("/"@ =~= seq!['/']);
    let uri = seq!['f', 'i', 'l', 'e', ':', '/', '/'] + rest;
    assert(uri =~= "file"@ + "://"@ + rest);
    lemma_scheme_prefix("file"@, rest);
}

/// A bare path and `file://` in front of it name the same directory.
pub proof fn law_file_uris_are_bare_paths(
    path: Seq<char>,
    url: Result<(Seq<char>, Option<Seq<char>>, Option<u16>, Seq<char>), Seq<char>>,
    creds: Map<Seq<char>, Seq<char>>,
)
    requires
        forall|i: int| !#[trigger] marks_scheme(path, i),
    ensures
        locate("file://"@ + path, url, creds) == locate(path, url, creds),
{
    reveal_strlit("file://");
    law_bare_paths(path, url, creds);
    law_file_uris(path, url, creds);
    assert(seq!['f', 'i', 'l', 'e', ':', '/', '/'] =~= "file://"@);
    let a = locate(path, url, creds)->Ok_0;
    let b = locate("file://"@ + path, url, creds)->Ok_0;
    assert(a.0->path =~= b.0->path);
}

/// The path of a group in a cloud store is a slash and what follows the
/// slashes that the URL's path starts with.
pub open spec fn group_at(group: Seq<char>, path: Seq<char>) -> bool {
    &&& group.len() > 0
    &&& group[0] == '/'
    &&& left_behind(path, group.skip(1), '/')
}

proof fn lemma_group_path(path: Seq<char>)
    ensures
        group_at(group_path(trim_start(path, '/')), path),
        group_at(group_path(path), path),
{
    reveal_strlit("/");
    law_trimming(path, '/');
    let once = trim_start(path, '/');
    law_trimming(once, '/');
    assert(left_behind(once, once, '/'));
    lemma_left_behind_once(once, once, trim_start(once, '/'), '/');
    assert(group_path(once).skip(1) =~= once);
    assert(group_path(path).skip(1) =~= once);
}

/// What opening a group path adds and takes away.
pub proof fn law_group_paths(path: Seq<char>)
    ensures
        group_at(group_path(path), path),
{
    lemma_group_path(path);
}

/// Whether a URI was located in the store with these settings.
pub open spec fn located_in(
    located: Result<(ZarrStorageView, Seq<char>), ZarrErrorView>,
    uri: Seq<char>,
    url: Result<(Seq<char>, Option<Seq<char>>, Option<u16>, Seq<char>), Seq<char>>,
    settings: Result<StoreView, ZarrErrorView>,
) -> bool {
    match (url, settings) {
        (Err(reason), _) => located == Err::<(ZarrStorageView, Seq<char>), ZarrErrorView>(
            ZarrErrorView::InvalidUri { uri, reason },
        ),
        (Ok(_), Err(e)) => located == Err::<(ZarrStorageView, Seq<char>), ZarrErrorView>(e),
        (Ok(parts), Ok(given)) => {
            &&& located matches Ok((ZarrStorageView::Cloud { store }, group))
            &&& store == given
            &&& group_at(group, parts.3)
        },
    }
}

/// Each scheme of a cloud store leads to the settings of that store, and to
/// the path of the URL in it.
pub proof fn law_cloud_uris(
    rest: Seq<char>,
    url: Result<(Seq<char>, Option<Seq<char>>, Option<u16>, Seq<char>), Seq<char>>,
    creds: Map<Seq<char>, Seq<char>>,
)
    ensures
        ({
            let uri = "s3"@ + "://"@ + rest;
            located_in(locate(uri, url, creds), uri, url, s3_settings(uri, creds))
        }),
        ({
            let uri = "gs"@ + "://"@ + rest;
            located_in(locate(uri, url, creds), uri, url, Ok(gcs_settings(uri, creds)))
        }),
        ({
            let uri = "gcs"@ + "://"@ + rest;
            located_in(locate(uri, url, creds), uri, url, Ok(gcs_settings(uri, creds)))
        }),
        ({
            let uri = "az"@ + "://"@ + rest;
            located_in(locate(uri, url, creds), uri, url, azure_settings(uri, creds))
        }),
        ({
            let uri = "abfs"@ + "://"@ + rest;
            located_in(locate(uri, url, creds), uri, url, azure_settings(uri, creds))
        }),
        ({
            let uri = "abfss"@ + "://"@ + rest;
            located_in(locate(uri, url, creds), uri, url, azure_settings(uri, creds))
        }),
        ({
            let uri = "http"@ + "://"@ + rest;
            url matches Ok(parts) ==> located_in(
                locate(uri, url, creds),
                uri,
                url,
                http_settings(uri, parts),
            )
        }),
        ({
            let uri = "https"@ + "://"@ + rest;
            url matches Ok(parts) ==> located_in(
                locate(uri, url, creds),
                uri,
                url,
                http_settings(uri, parts),
            )
        }),
{
    reveal_strlit("s3");
    reveal_strlit("gs");
    reveal_strlit("gcs");
    reveal_strlit("az");
    reveal_strlit("abfs");
    reveal_strlit("abfss");
    reveal_strlit("http");
    reveal_strlit("https");
    reveal_strlit("file");
    assert("s3"@[0] == 's' && "gs"@[0] == 'g' && "gcs"@[0] == 'g' && "az"@[0] == 'a');
    assert("abfs"@[0] == 'a' && "abfss"@[0] == 'a' && "http"@[0] == 'h' && "https"@[0] == 'h');
    assert("file"@[0] == 'f');
    lemma_scheme_prefix("s3"@, rest);
    lemma_scheme_prefix("gs"@, rest);
    lemma_scheme_prefix("gcs"@, rest);
    lemma_scheme_prefix("az"@, rest);
    lemma_scheme_prefix("abfs"@, rest);
    lemma_scheme_prefix("abfss"@, rest);
    lemma_scheme_prefix("http"@, rest);
    lemma_scheme_prefix("https"@, rest);
    if let Ok(parts) = url {
        lemma_group_path(parts.3);
    }
}

/// What is no URL names no HTTP store.
pub proof fn law_http_uris_are_urls(
    rest: Seq<char>,
    reason: Seq<char>,
    creds: Map<Seq<char>, Seq<char>>,
)
    ensures
        ({
            let uri = "http"@ + "://"@ + rest;
            locate(uri, Err(reason), creds) == Err::<(ZarrStorageView, Seq<char>), ZarrErrorView>(
                ZarrErrorView::InvalidUri { uri, reason },
            )
        }),
        ({
            let uri = "https"@ + "://"@ + rest;
            locate(uri, Err(reason), creds) == Err::<(ZarrStorageView, Seq<char>), ZarrErrorView>(
                ZarrErrorView::InvalidUri { uri, reason },
            )
        }),
{
    reveal_strlit("s3");
    reveal_strlit("gs");
    reveal_strlit("gcs");
    reveal_strlit("az");
    reveal_strlit("abfs");
    reveal_strlit("abfss");
    reveal_strlit("http");
    reveal_strlit("https");
    reveal_strlit("file");
    assert("s3"@[0] == 's' && "gs"@[0] == 'g' && "gcs"@[0] == 'g' && "az"@[0] == 'a');
    assert("abfs"@[0] == 'a' && "abfss"@[0] == 'a' && "http"@[0] == 'h' && "https"@[0] == 'h');
    assert("file"@[0] == 'f');
    lemma_scheme_prefix("http"@, rest);
    lemma_scheme_prefix("https"@, rest);
}

/// Any other scheme is refused, with the scheme and the URI in the error.
pub proof fn law_other_schemes_are_refused(
    uri: Seq<char>,
    i: int,
    url: Result<(Seq<char>, Option<Seq<char>>, Option<u16>, Seq<char>), Seq<char>>,
    creds: Map<Seq<char>, Seq<char>>,
)
    requires
        marks_scheme(uri, i),
        forall|j: int| 0 <= j < i ==> !#[trigger] marks_scheme(uri, j),
        uri.take(i) != "file"@,
        uri.take(i) != "s3"@,
        uri.take(i) != "gs"@,
        uri.take(i) != "gcs"@,
        uri.take(i) != "az"@,
        uri.take(i) != "abfs"@,
        uri.take(i) != "abfss"@,
        uri.take(i) != "http"@,
        uri.take(i) != "https"@,
    ensures
        locate(uri, url, creds) == Err::<(ZarrStorageView, Seq<char>), ZarrErrorView>(
            ZarrErrorView::UnsupportedScheme { scheme: uri.take(i), uri },
        ),
{
    law_schemes(uri, i);
}

/// An anchor is the store URI, `#array=`, the array path without the slashes
/// in front, `&chunk=` and the list of indices, one behind the other.
pub proof fn law_anchor_layout(
    store_uri: Seq<char>,
    array_path: Seq<char>,
    array: Seq<char>,
    indices: Seq<u64>,
)
    requires
        left_behind(array_path, array, '/'),
    ensures
        ({
            let text = anchor_text(store_uri, array_path, indices);
            let list = join(index_numerals(indices), seq![',']);
            let a = store_uri.len() as int;
            let b = a + 7 + array.len();
            &&& text.len() == b + 7 + list.len()
            &&& text.subrange(0, a) == store_uri
            &&& text.subrange(a, a + 7) == seq!['#', 'a', 'r', 'r', 'a', 'y', '=']
            &&& text.subrange(a + 7, b) == array
            &&& text.subrange(b, b + 7) == seq!['&', 'c', 'h', 'u', 'n', 'k', '=']
            &&& text.subrange(b + 7, text.len() as int) == list
        }),
{
    reveal_strlit("#array=");
    reveal_strlit("&chunk=");
    reveal_strlit(",");
    assert(","@ =~= seq![',']);
    law_trimming(array_path, '/');
    lemma_left_behind_once(array_path, array, trim_start(array_path, '/'), '/');
    let text = anchor_text(store_uri, array_path, indices);
    let list = join(index_numerals(indices), seq![',']);
    let a = store_uri.len() as int;
    let b = a + 7 + array.len();
    assert(text.subrange(0, a) =~= store_uri);
    assert(text.subrange(a, a + 7) =~= seq!['#', 'a', 'r', 'r', 'a', 'y', '=']);
    assert(text.subrange(a + 7, b) =~= array);
    assert(text.subrange(b, b + 7) =~= seq!['&', 'c', 'h', 'u', 'n', 'k', '=']);
    assert(text.subrange(b + 7, text.len() as int) =~= list);
}

/// The list of indices holds the numerals of the indices in their order, with
/// a comma between neighbours.
pub proof fn law_index_lists(indices: Seq<u64>, n: u64)
    ensures
        join(index_numerals(Seq::empty()), seq![',']).len() == 0,
        join(index_numerals(seq![n]), seq![',']) == decimal(n as nat),
        indices.len() > 0 ==> join(index_numerals(indices.push(n)), seq![',']) == join(
            index_numerals(indices),
            seq![','],
        ) + seq![','] + decimal(n as nat),
{
    law_joining(index_numerals(indices), decimal(n as nat), seq![',']);
    assert(index_numerals(Seq::empty()) =~= Seq::<Seq<char>>::empty());
    assert(index_numerals(seq![n]) =~= seq![decimal(n as nat)]);
    assert(index_numerals(indices.push(n)) =~= index_numerals(indices).push(decimal(n as nat)));
}

/// A text without `#` is no anchor.
pub proof fn law_anchors_have_a_fragment(uri: Seq<char>)
    requires
        !uri.contains('#'),
    ensures
        read_anchor(uri) == Err::<ChunkAnchorView, ZarrErrorView>(
            ZarrErrorView::MissingFragment { uri },
        ),
{
    assert forall|j: int| 0 <= j < uri.len() implies uri[j] != '#' by {
        assert(uri.contains(uri[j]));
    }
    lemma_first_index_unique(uri, '#', uri.len() as int);
}

/// Whether a parameter sets a key.
pub open spec fn sets(param: Seq<char>, key: Seq<char>) -> bool {
    lies_at(param, key, 0)
}

proof fn lemma_last_value(params: Seq<Seq<char>>, key: Seq<char>, i: int)
    requires
        -1 <= i < params.len(),
        forall|j: int| i < j < params.len() ==> !sets(#[trigger] params[j], key),
        i >= 0 ==> sets(params[i], key),
    ensures
        i < 0 ==> last_value(params, key) is None,
        i >= 0 ==> last_value(params, key) == Some(params[i].skip(key.len() as int)),
    decreases params.len(),
{
    if params.len() > 0 {
        let n = params.len() - 1;
        law_prefixes(params[n], key);
        if i < n {
            let rest = params.drop_last();
            assert forall|j: int| i < j < rest.len() implies !sets(#[trigger] rest[j], key) by {
                assert(rest[j] == params[j]);
            }
            if i >= 0 {
                assert(rest[i] == params[i]);
            }
            lemma_last_value(rest, key, i);
            assert(!sets(params[n], key));
        }
    }
}

proof fn lemma_fragment(store_uri: Seq<char>, params: Seq<Seq<char>>)
    requires
        !store_uri.contains('#'),
        params.len() > 0,
        forall|i: int| 0 <= i < params.len() ==> !(#[trigger] params[i]).contains('&'),
    ensures
        ({
            let uri = store_uri + seq!['#'] + join(params, seq!['&']);
            &&& first_index(uri, '#') == store_uri.len()
            &&& uri.take(store_uri.len() as int) == store_uri
            &&& split(uri.skip(store_uri.len() as int + 1), '&') == params
        }),
{
    let fragment = join(params, seq!['&']);
    let uri = store_uri + seq!['#'] + fragment;
    lemma_split_first(store_uri, '#', fragment);
    assert(uri.take(store_uri.len() as int) =~= store_uri);
    assert(uri.skip(store_uri.len() as int + 1) =~= fragment);
    lemma_split_join(params, '&');
}

/// What lies behind the first `#` of an anchor are parameters with `&`
/// between them. If none of them sets `array=`, that is the error, whatever
/// else they set.
pub proof fn law_anchors_need_an_array(store_uri: Seq<char>, params: Seq<Seq<char>>)
    requires
        !store_uri.contains('#'),
        params.len() > 0,
        forall|i: int| 0 <= i < params.len() ==> !(#[trigger] params[i]).contains('&'),
        forall|i: int| 0 <= i < params.len() ==> !sets(#[trigger] params[i], "array="@),
    ensures
        ({
            let uri = store_uri + seq!['#'] + join(params, seq!['&']);
            read_anchor(uri) == Err::<ChunkAnchorView, ZarrErrorView>(
                ZarrErrorView::MissingArray { uri },
            )
        }),
{
    lemma_fragment(store_uri, params);
    let uri = store_uri + seq!['#'] + join(params, seq!['&']);
    lemma_array_is_found(params, params.len() as int);
    assert(params.take(params.len() as int) =~= params);
    assert(store_uri.len() < uri.len());
}

/// With an array but without a parameter that sets `chunk=`, or with an empty
/// list in the last one that does, that is the error.
pub proof fn law_anchors_need_indices(
    store_uri: Seq<char>,
    params: Seq<Seq<char>>,
    a: int,
    c: int,
)
    requires
        !store_uri.contains('#'),
        forall|i: int| 0 <= i < params.len() ==> !(#[trigger] params[i]).contains('&'),
        0 <= a < params.len(),
        sets(params[a], "array="@),
        -1 <= c < params.len(),
        forall|j: int| c < j < params.len() ==> !sets(#[trigger] params[j], "chunk="@),
        c >= 0 ==> params[c] == "chunk="@,
    ensures
        ({
            let uri = store_uri + seq!['#'] + join(params, seq!['&']);
            &&& c < 0 ==> read_anchor(uri) == Err::<ChunkAnchorView, ZarrErrorView>(
                ZarrErrorView::MissingChunk { uri },
            )
            &&& c >= 0 ==> read_anchor(uri) == Err::<ChunkAnchorView, ZarrErrorView>(
                ZarrErrorView::EmptyIndices { uri },
            )
        }),
{
    lemma_fragment(store_uri, params);
    let uri = store_uri + seq!['#'] + join(params, seq!['&']);
    lemma_last_value(params, "chunk="@, c);
    lemma_array_is_found(params, params.len() as int);
    assert(params.take(params.len() as int) =~= params);
    reveal_strlit("chunk=");
    if c >= 0 {
        assert(params[c].skip(6).len() == 0);
    }
    assert(store_uri.len() < uri.len());
}

proof fn lemma_array_is_found(params: Seq<Seq<char>>, n: int)
    requires
        0 <= n <= params.len(),
    ensures
        last_value(params.take(n), "array="@) is None <==> forall|i: int|
            0 <= i < n ==> !sets(#[trigger] params[i], "array="@),
    decreases n,
{
    if n > 0 {
        lemma_array_is_found(params, n - 1);
        let some = params.take(n);
        assert(some.drop_last() =~= params.take(n - 1));
        assert(some.last() == params[n - 1]);
        law_prefixes(params[n - 1], "array="@);
    }
}

/// An anchor is read as what lies before its first `#`, the value of the last
/// parameter that sets `array=`, and the numbers with commas between them that
/// the last one that sets `chunk=` lists; other parameters are ignored. If
/// what it lists are not all numbers, the error names the first that is none.
pub proof fn law_reading_anchors(
    store_uri: Seq<char>,
    params: Seq<Seq<char>>,
    a: int,
    c: int,
    texts: Seq<Seq<char>>,
    k: int,
)
    requires
        !store_uri.contains('#'),
        forall|i: int| 0 <= i < params.len() ==> !(#[trigger] params[i]).contains('&'),
        0 <= a < params.len(),
        sets(params[a], "array="@),
        forall|j: int| a < j < params.len() ==> !sets(#[trigger] params[j], "array="@),
        0 <= c < params.len(),
        params[c] == "chunk="@ + join(texts, seq![',']),
        forall|j: int| c < j < params.len() ==> !sets(#[trigger] params[j], "chunk="@),
        texts.len() > 0,
        join(texts, seq![',']).len() > 0,
        forall|i: int| 0 <= i < texts.len() ==> !(#[trigger] texts[i]).contains(','),
        0 <= k <= texts.len(),
        forall|i: int|
            0 <= i < k ==> parse_unsigned(#[trigger] texts[i], 0xffff_ffff_ffff_ffff) is Some,
        k < texts.len() ==> parse_unsigned(texts[k], 0xffff_ffff_ffff_ffff) is None,
    ensures
        ({
            let uri = store_uri + seq!['#'] + join(params, seq!['&']);
            &&& k < texts.len() ==> read_anchor(uri) == Err::<ChunkAnchorView, ZarrErrorView>(
                ZarrErrorView::BadIndex { index: texts[k], uri },
            )
            &&& k == texts.len() ==> {
                &&& read_anchor(uri) matches Ok(anchor)
                &&& anchor.store_uri == store_uri
                &&& params[a] == "array="@ + anchor.array_path
                &&& anchor.chunk_indices.len() == texts.len()
                &&& forall|i: int|
                    0 <= i < texts.len() ==> parse_unsigned(texts[i], 0xffff_ffff_ffff_ffff)
                        == Some(#[trigger] anchor.chunk_indices[i] as nat)
            }
        }),
{
    lemma_fragment(store_uri, params);
    let uri = store_uri + seq!['#'] + join(params, seq!['&']);
    let list = join(texts, seq![',']);
    assert(store_uri.len() < uri.len());
    assert(sets(params[c], "chunk="@));
    lemma_last_value(params, "array="@, a);
    lemma_last_value(params, "chunk="@, c);
    law_prefixes(params[a], "array="@);
    assert(params[c].skip("chunk="@.len() as int) =~= list);
    lemma_split_join(texts, ',');
    lemma_read_indices_prefix(texts, k);
    if k < texts.len() {
        assert(texts.skip(k)[0] == texts[k]);
        assert(read_indices(texts.skip(k)) == Err::<Seq<u64>, Seq<char>>(texts[k]));
    } else {
        assert(texts.skip(k) =~= Seq::<Seq<char>>::empty());
        let anchor = read_anchor(uri)->Ok_0;
        assert forall|i: int| 0 <= i < texts.len() implies parse_unsigned(
            texts[i],
            0xffff_ffff_ffff_ffff,
        ) == Some(#[trigger] anchor.chunk_indices[i] as nat) by {
            assert(parse_unsigned(texts[i], 0xffff_ffff_ffff_ffff) is Some);
        }
    }
}

} // verus!
