//! Zarr URIs: chunk anchors, and which backend a group URI names.
//!
//! A chunk anchor addresses one chunk of one array within a group:
//! `<store-uri>#array=<array-path>&chunk=<i0>,<i1>,...`. The store URI is the
//! group URI as it was given; the array path and the chunk indices live in
//! the fragment, so the parts can be told apart even where both contain `/`.
use vstd::prelude::*;

use crate::credentials::ZarrCredentialOptions;
use crate::decimal::{decimal_text, parse_up_to};
use crate::error::ZarrError;
use crate::object_store_backends::{
    build_azure, build_gcs, build_http, build_s3, AzureStore, GcsStore, HttpStore, S3Store,
};
use crate::text::{
    before_match, join_texts, same_text, split_at_char, split_once, strip_prefix, trim_start_char,
};

#[allow(unused_imports)]
use crate::credentials::override_of;
#[allow(unused_imports)]
use crate::decimal::{decimal, is_digit, law_decimal_round_trip, lemma_decimal, parse_unsigned};
#[allow(unused_imports)]
use crate::error::ZarrErrorView;
#[allow(unused_imports)]
use crate::object_store_backends::{
    azure_settings, gcs_settings, gs_spelling, http_settings, s3_settings, url_parts, with_path,
    StoreView,
};
#[allow(unused_imports)]
use crate::text::{
    after_prefix, first_index, first_match, join, lemma_first_index, lemma_join_contains,
    lemma_split_first, lemma_split_join, lemma_split_parts, lemma_split_single, lemma_trim_start,
    split, string_views, trim_start, views,
};

verus! {

/// The parts of a chunk anchor.
#[derive(Debug, Clone, PartialEq, Eq)]
pub struct ChunkAnchor {
    /// The URI of the group, the same for every chunk of every array in it.
    pub store_uri: String,
    /// The array's path within the store.
    pub array_path: String,
    /// The chunk's position in the array's chunk grid, one index per dimension.
    pub chunk_indices: Vec<u64>,
}

/// A [`ChunkAnchor`] with its texts as character sequences.
#[verifier::ext_equal]
pub ghost struct ChunkAnchorView {
    pub store_uri: Seq<char>,
    pub array_path: Seq<char>,
    pub chunk_indices: Seq<u64>,
}

impl View for ChunkAnchor {
    type V = ChunkAnchorView;

    open spec fn view(&self) -> ChunkAnchorView {
        ChunkAnchorView {
            store_uri: self.store_uri@,
            array_path: self.array_path@,
            chunk_indices: self.chunk_indices@,
        }
    }
}

/// The numerals of a list of indices.
pub open spec fn index_numerals(indices: Seq<u64>) -> Seq<Seq<char>> {
    indices.map_values(|n: u64| decimal(n as nat))
}

/// The anchor of a chunk. Slashes in front of the array path are left out.
pub open spec fn anchor_text(store_uri: Seq<char>, array_path: Seq<char>, indices: Seq<u64>) -> Seq<
    char,
> {
    store_uri + "#array="@ + trim_start(array_path, '/') + "&chunk="@ + join(
        index_numerals(indices),
        ","@,
    )
}

/// The value of the last parameter whose text starts with `key`.
pub open spec fn last_value(params: Seq<Seq<char>>, key: Seq<char>) -> Option<Seq<char>>
    decreases params.len(),
{
    if params.len() == 0 {
        None
    } else {
        match after_prefix(params.last(), key) {
            Some(v) => Some(v),
            None => last_value(params.drop_last(), key),
        }
    }
}

/// The numbers that a list of texts is read as, or the first text that is none.
pub open spec fn read_indices(parts: Seq<Seq<char>>) -> Result<Seq<u64>, Seq<char>>
    decreases parts.len(),
{
    if parts.len() == 0 {
        Ok(Seq::empty())
    } else {
        match parse_unsigned(parts[0], u64::MAX as nat) {
            None => Err(parts[0]),
            Some(v) => match read_indices(parts.drop_first()) {
                Ok(rest) => Ok(seq![v as u64] + rest),
                Err(bad) => Err(bad),
            },
        }
    }
}

/// What a text is as a chunk anchor: its parts, or why it is none.
pub open spec fn read_anchor(uri: Seq<char>) -> Result<ChunkAnchorView, ZarrErrorView> {
    let i = first_index(uri, '#');
    if i == uri.len() {
        Err(ZarrErrorView::MissingFragment { uri })
    } else {
        let params = split(uri.skip(i + 1), '&');
        match (last_value(params, "array="@), last_value(params, "chunk="@)) {
            (None, _) => Err(ZarrErrorView::MissingArray { uri }),
            (Some(_), None) => Err(ZarrErrorView::MissingChunk { uri }),
            (Some(array_path), Some(list)) => if list.len() == 0 {
                Err(ZarrErrorView::EmptyIndices { uri })
            } else {
                match read_indices(split(list, ',')) {
                    Err(index) => Err(ZarrErrorView::BadIndex { index, uri }),
                    Ok(chunk_indices) => Ok(
                        ChunkAnchorView { store_uri: uri.take(i), array_path, chunk_indices },
                    ),
                }
            },
        }
    }
}

/// Builds the anchor of a chunk from its parts.
pub fn build_chunk_anchor(store_uri: &str, array_path: &str, chunk_indices: &[u64]) -> (r: String)
    ensures
        r@ == anchor_text(store_uri@, array_path@, chunk_indices@),
{
    let mut numerals: Vec<String> = Vec::new();
    let mut i: usize = 0;
    while i < chunk_indices.len()
        invariant
            i <= chunk_indices@.len(),
            string_views(numerals@) == index_numerals(chunk_indices@).take(i as int),
        decreases chunk_indices@.len() - i,
    {
        let ghost done = string_views(numerals@);
        numerals.push(decimal_text(chunk_indices[i]));
        assert(string_views(numerals@) =~= done.push(decimal(chunk_indices@[i as int] as nat)));
        i += 1;
        assert(string_views(numerals@) =~= index_numerals(chunk_indices@).take(i as int));
    }
    assert(string_views(numerals@) =~= index_numerals(chunk_indices@));
    let indices = join_texts(&numerals, ",");
    let array = trim_start_char(array_path, '/');
    let mut r = store_uri.to_string();
    r.append("#array=");
    r.append(array);
    r.append("&chunk=");
    r.append(indices.as_str());
    r
}

/// Texts that are numbers, in front of others, are read as these numbers.
pub proof fn lemma_read_indices_prefix(parts: Seq<Seq<char>>, i: int)
    requires
        0 <= i <= parts.len(),
        forall|j: int| 0 <= j < i ==> parse_unsigned(#[trigger] parts[j], u64::MAX as nat) is Some,
    ensures
        match read_indices(parts.skip(i)) {
            Ok(rest) => read_indices(parts) == Ok::<Seq<u64>, Seq<char>>(
                Seq::new(
                    i as nat,
                    |j: int| parse_unsigned(parts[j], u64::MAX as nat)->0 as u64,
                ) + rest,
            ),
            Err(bad) => read_indices(parts) == Err::<Seq<u64>, Seq<char>>(bad),
        },
    decreases i,
{
    if i == 0 {
        assert(parts.skip(0) =~= parts);
        let none = Seq::new(0, |j: int| parse_unsigned(parts[j], u64::MAX as nat)->0 as u64);
        if let Ok(rest) = read_indices(parts) {
            assert(none + rest =~= rest);
        }
    } else {
        lemma_read_indices_prefix(parts, i - 1);
        assert(parts.skip(i - 1)[0] == parts[i - 1]);
        assert(parts.skip(i - 1).drop_first() =~= parts.skip(i));
        if let Ok(rest) = read_indices(parts.skip(i)) {
            let v = parse_unsigned(parts[i - 1], u64::MAX as nat)->0 as u64;
            let f = |j: int| parse_unsigned(parts[j], u64::MAX as nat)->0 as u64;
            assert(Seq::new((i - 1) as nat, f) + (seq![v] + rest) =~= Seq::new(i as nat, f) + rest);
        }
    }
}

/// Reads a list of numbers, or finds the first text that is none.
fn parse_indices<'a>(parts: &Vec<&'a str>) -> (r: Result<Vec<u64>, &'a str>)
    ensures
        match r {
            Ok(v) => read_indices(views(parts@)) == Ok::<Seq<u64>, Seq<char>>(v@),
            Err(bad) => read_indices(views(parts@)) == Err::<Seq<u64>, Seq<char>>(bad@),
        },
{
    let ghost all = views(parts@);
    let ghost f = |j: int| parse_unsigned(all[j], u64::MAX as nat)->0 as u64;
    let mut out: Vec<u64> = Vec::new();
    let mut i: usize = 0;
    while i < parts.len()
        invariant
            i <= parts.len(),
            all == views(parts@),
            f == (|j: int| parse_unsigned(all[j], u64::MAX as nat)->0 as u64),
            out@ == Seq::new(i as nat, f),
            forall|j: int|
                0 <= j < i ==> parse_unsigned(#[trigger] all[j], u64::MAX as nat) is Some,
        decreases parts.len() - i,
    {
        assert(all[i as int] == parts@[i as int]@);
        match parse_up_to(parts[i], u64::MAX) {
            Some(v) => {
                out.push(v);
                assert(out@ =~= Seq::new((i + 1) as nat, f));
            },
            None => {
                proof {
                    lemma_read_indices_prefix(all, i as int);
                    assert(all.skip(i as int)[0] == all[i as int]);
                }
                return Err(parts[i]);
            },
        }
        i += 1;
    }
    proof {
        lemma_read_indices_prefix(all, i as int);
        assert(all.skip(i as int) =~= Seq::<Seq<char>>::empty());
        assert(out@ + Seq::<u64>::empty() =~= out@);
    }
    Ok(out)
}

/// The value of the last parameter whose text starts with `key`.
fn find_last_value<'a>(params: &Vec<&'a str>, key: &str) -> (r: Option<&'a str>)
    ensures
        match r {
            Some(v) => last_value(views(params@), key@) == Some(v@),
            None => last_value(views(params@), key@) is None,
        },
{
    let ghost all = views(params@);
    let mut found: Option<&'a str> = None;
    let mut i: usize = 0;
    assert(all.take(0) =~= Seq::<Seq<char>>::empty());
    while i < params.len()
        invariant
            i <= params.len(),
            all == views(params@),
            match found {
                Some(v) => last_value(all.take(i as int), key@) == Some(v@),
                None => last_value(all.take(i as int), key@) is None,
            },
        decreases params.len() - i,
    {
        proof {
            assert(all.take(i + 1).drop_last() =~= all.take(i as int));
            assert(all.take(i + 1).last() == params@[i as int]@);
        }
        if let Some(v) = strip_prefix(params[i], key) {
            found = Some(v);
        }
        i += 1;
    }
    assert(all.take(i as int) =~= all);
    found
}

/// Reads a chunk anchor back into its parts.
///
/// Strict: a text without both an `array=` and a `chunk=` parameter, each
/// with a valid value, is rejected. Parameters with other keys are ignored;
/// of several with one key the last counts.
pub fn parse_chunk_anchor(uri: &str) -> (r: Result<ChunkAnchor, ZarrError>)
    ensures
        match r {
            Ok(anchor) => read_anchor(uri@) == Ok::<ChunkAnchorView, ZarrErrorView>(anchor@),
            Err(e) => read_anchor(uri@) == Err::<ChunkAnchorView, ZarrErrorView>(e@),
        },
{
    let (store_uri, fragment) = match split_once(uri, '#') {
        Some(parts) => parts,
        None => return Err(ZarrError::MissingFragment { uri: uri.to_string() }),
    };
    proof {
        lemma_first_index(uri@, '#');
    }
    let params = split_at_char(fragment, '&');
    let array_path = match find_last_value(&params, "array=") {
        Some(v) => v.to_string(),
        None => return Err(ZarrError::MissingArray { uri: uri.to_string() }),
    };
    let list = match find_last_value(&params, "chunk=") {
        Some(v) => v,
        None => return Err(ZarrError::MissingChunk { uri: uri.to_string() }),
    };
    if list.is_empty() {
        return Err(ZarrError::EmptyIndices { uri: uri.to_string() });
    }
    let parts = split_at_char(list, ',');
    match parse_indices(&parts) {
        Err(index) => Err(ZarrError::BadIndex { index: index.to_string(), uri: uri.to_string() }),
        Ok(chunk_indices) => Ok(
            ChunkAnchor { store_uri: store_uri.to_string(), array_path, chunk_indices },
        ),
    }
}

/// The storage that a group URI names.
#[derive(Debug, Clone)]
pub enum ZarrStorage {
    /// A directory of the local filesystem.
    Filesystem { path: String },
    S3(S3Store),
    Gcs(GcsStore),
    Azure(AzureStore),
    Http(HttpStore),
}

/// A [`ZarrStorage`] with its texts as character sequences.
#[verifier::ext_equal]
pub ghost enum ZarrStorageView {
    Filesystem { path: Seq<char> },
    Cloud { store: StoreView },
}

impl View for ZarrStorage {
    type V = ZarrStorageView;

    open spec fn view(&self) -> ZarrStorageView {
        match *self {
            ZarrStorage::Filesystem { path } => ZarrStorageView::Filesystem { path: path@ },
            ZarrStorage::S3(store) => ZarrStorageView::Cloud { store: store@ },
            ZarrStorage::Gcs(store) => ZarrStorageView::Cloud { store: store@ },
            ZarrStorage::Azure(store) => ZarrStorageView::Cloud { store: store@ },
            ZarrStorage::Http(store) => ZarrStorageView::Cloud { store: store@ },
        }
    }
}

/// The scheme of a URI: what lies before the first `://`.
pub open spec fn scheme_of(uri: Seq<char>) -> Option<Seq<char>> {
    match first_match(uri, "://"@) {
        Some(i) => Some(uri.take(i)),
        None => None,
    }
}

/// The path of a group as it is opened: absolute, with one slash in front.
pub open spec fn group_path(path: Seq<char>) -> Seq<char> {
    "/"@ + trim_start(path, '/')
}

/// A cloud store and the path of the group in it.
pub open spec fn in_cloud(located: Result<(StoreView, Seq<char>), ZarrErrorView>) -> Result<
    (ZarrStorageView, Seq<char>),
    ZarrErrorView,
> {
    match located {
        Ok((store, path)) => Ok((ZarrStorageView::Cloud { store }, group_path(path))),
        Err(e) => Err(e),
    }
}

/// The storage that a group URI names and the path of the group in it, given
/// what the URI (with `gs` for `gcs`) is as a URL; or why it names none.
pub open spec fn locate(
    uri: Seq<char>,
    url: Result<(Seq<char>, Option<Seq<char>>, Option<u16>, Seq<char>), Seq<char>>,
    creds: Map<Seq<char>, Seq<char>>,
) -> Result<(ZarrStorageView, Seq<char>), ZarrErrorView> {
    match scheme_of(uri) {
        None => Ok((ZarrStorageView::Filesystem { path: uri }, "/"@)),
        Some(scheme) => if scheme == "file"@ {
            Ok((ZarrStorageView::Filesystem { path: uri.skip("file://"@.len() as int) }, "/"@))
        } else if scheme == "s3"@ {
            in_cloud(with_path(uri, url, s3_settings(uri, creds)))
        } else if scheme == "gs"@ || scheme == "gcs"@ {
            in_cloud(with_path(uri, url, Ok(gcs_settings(uri, creds))))
        } else if scheme == "az"@ || scheme == "abfs"@ || scheme == "abfss"@ {
            in_cloud(with_path(uri, url, azure_settings(uri, creds)))
        } else if scheme == "http"@ || scheme == "https"@ {
            in_cloud(
                match url {
                    Ok(parts) => with_path(uri, url, http_settings(uri, parts)),
                    Err(reason) => Err(ZarrErrorView::InvalidUri { uri, reason }),
                },
            )
        } else {
            Err(ZarrErrorView::UnsupportedScheme { scheme, uri })
        },
    }
}

/// Turns the path of a group in a cloud store into the one it is opened by.
pub fn absolute_group_path(path: String) -> (r: String)
    ensures
        r@ == group_path(path@),
{
    if path.as_str().is_empty() {
        assert("/"@ + trim_start(path@, '/') =~= "/"@);
        "/".to_string()
    } else {
        "/".to_string().concat(trim_start_char(path.as_str(), '/'))
    }
}

/// Finds the storage that a group URI names.
///
/// Returns the storage together with the path of the group inside it, which
/// is `/` for filesystem stores and the path of the URL for cloud stores.
///
/// | Scheme                         | Storage                |
/// |--------------------------------|------------------------|
/// | `file://`, bare path           | local filesystem       |
/// | `s3://`                        | S3                     |
/// | `gs://`, `gcs://`              | Google Cloud Storage   |
/// | `az://`, `abfs://`, `abfss://` | Azure                  |
/// | `http://`, `https://`          | HTTP                   |
pub fn parse_zarr_uri(uri: &str, creds: &ZarrCredentialOptions) -> (r: Result<
    (ZarrStorage, String),
    ZarrError,
>)
    requires
        creds.wf(),
    ensures
        match locate(uri@, url_parts(gs_spelling(uri@)), creds@) {
            Ok((storage, path)) => r is Ok && r->Ok_0.0@ == storage && r->Ok_0.1@ == path,
            Err(e) => r is Err && r->Err_0@ == e,
        },
{
    proof {
        lemma_gcs_prefix(uri@);
        reveal_strlit("s3");
        reveal_strlit("az");
        reveal_strlit("abfs");
        reveal_strlit("abfss");
        reveal_strlit("http");
        reveal_strlit("https");
        reveal_strlit("gcs");
        assert("gcs"@[0] == 'g');
    }
    let scheme = match before_match(uri, "://") {
        Some(scheme) => scheme,
        None => return Ok(
            (ZarrStorage::Filesystem { path: uri.to_string() }, "/".to_string()),
        ),
    };
    if same_text(scheme, "file") {
        proof {
            lemma_file_prefix(uri@);
        }
        let path = match strip_prefix(uri, "file://") {
            Some(rest) => rest,
            None => uri,
        };
        return Ok((ZarrStorage::Filesystem { path: path.to_string() }, "/".to_string()));
    }
    if same_text(scheme, "s3") {
        match build_s3(uri, creds) {
            Ok((store, path)) => Ok((ZarrStorage::S3(store), absolute_group_path(path))),
            Err(e) => Err(e),
        }
    } else if same_text(scheme, "gs") || same_text(scheme, "gcs") {
        match build_gcs(uri, creds) {
            Ok((store, path)) => Ok((ZarrStorage::Gcs(store), absolute_group_path(path))),
            Err(e) => Err(e),
        }
    } else if same_text(scheme, "az") || same_text(scheme, "abfs") || same_text(scheme, "abfss") {
        match build_azure(uri, creds) {
            Ok((store, path)) => Ok((ZarrStorage::Azure(store), absolute_group_path(path))),
            Err(e) => Err(e),
        }
    } else if same_text(scheme, "http") || same_text(scheme, "https") {
        match build_http(uri, creds) {
            Ok((store, path)) => Ok((ZarrStorage::Http(store), absolute_group_path(path))),
            Err(e) => Err(e),
        }
    } else {
        Err(ZarrError::UnsupportedScheme { scheme: scheme.to_string(), uri: uri.to_string() })
    }
}

proof fn lemma_first_match(s: Seq<char>, pattern: Seq<char>)
    requires
        first_match(s, pattern) is Some,
    ensures
        0 <= first_match(s, pattern)->0,
        first_match(s, pattern)->0 + pattern.len() <= s.len(),
        s.subrange(
            first_match(s, pattern)->0,
            first_match(s, pattern)->0 + pattern.len() as int,
        ) == pattern,
    decreases s.len(),
{
    if pattern.is_prefix_of(s) {
        assert(s.subrange(0, pattern.len() as int) =~= pattern);
    } else {
        lemma_first_match(s.drop_first(), pattern);
        let i = first_match(s, pattern)->0;
        assert(s.subrange(i, i + pattern.len() as int) =~= s.drop_first().subrange(
            i - 1,
            i - 1 + pattern.len() as int,
        ));
    }
}

proof fn lemma_file_prefix(uri: Seq<char>)
    requires
        scheme_of(uri) == Some("file"@),
    ensures
        after_prefix(uri, "file://"@) == Some(uri.skip("file://"@.len() as int)),
{
    reveal_strlit("file");
    reveal_strlit("://");
    reveal_strlit("file://");
    let i = first_match(uri, "://"@)->0;
    lemma_first_match(uri, "://"@);
    assert(uri.take(i) == "file"@);
    assert(uri.take(i).len() == i);
    assert forall|j: int| 0 <= j < 7 implies uri[j] == "file://"@[j] by {
        if j < 4 {
            assert(uri.take(i)[j] == "file"@[j]);
        } else {
            assert(uri.subrange(i, i + 3)[j - 4] == "://"@[j - 4]);
        }
    }
    assert("file://"@.is_prefix_of(uri));
}

/// What lies before the first `://` is the scheme.
pub proof fn lemma_scheme_prefix(scheme: Seq<char>, rest: Seq<char>)
    requires
        !scheme.contains(':'),
    ensures
        scheme_of(scheme + "://"@ + rest) == Some(scheme),
    decreases scheme.len(),
{
    reveal_strlit("://");
    let uri = scheme + "://"@ + rest;
    if scheme.len() == 0 {
        assert("://"@.is_prefix_of(uri));
        assert(uri.take(0) =~= scheme);
    } else {
        let tail = scheme.drop_first();
        assert(scheme.contains(scheme[0]));
        assert(uri[0] == scheme[0]);
        if "://"@.is_prefix_of(uri) {
            assert(uri.subrange(0, 3)[0] == ':');
        }
        assert forall|c: char| tail.contains(c) implies scheme.contains(c) by {
            let i = choose|i: int| 0 <= i < tail.len() && tail[i] == c;
            assert(scheme[i + 1] == c);
        }
        lemma_scheme_prefix(tail, rest);
        assert(uri.drop_first() =~= tail + "://"@ + rest);
        lemma_first_match(uri.drop_first(), "://"@);
        let i = first_match(uri.drop_first(), "://"@)->0;
        assert((tail + "://"@ + rest).take(i).len() == i);
        assert(uri.take(i + 1) =~= scheme);
    }
}

proof fn lemma_gcs_prefix(uri: Seq<char>)
    ensures
        after_prefix(uri, "gcs://"@) is Some ==> scheme_of(uri) == Some("gcs"@),
        after_prefix(uri, "gcs://"@) is None ==> gs_spelling(uri) == uri,
{
    reveal_strlit("gcs");
    reveal_strlit("://");
    reveal_strlit("gcs://");
    if "gcs://"@.is_prefix_of(uri) {
        let rest = uri.skip(6);
        assert(uri =~= "gcs"@ + "://"@ + rest) by {
            assert forall|j: int| 0 <= j < 6 implies uri[j] == ("gcs"@ + "://"@ + rest)[j] by {
                assert(uri[j] == "gcs://"@[j]);
            }
        }
        lemma_scheme_prefix("gcs"@, rest);
    }
}

/// `gcs://` names what `gs://` names: the same store with the same settings,
/// and the same path in it.
pub proof fn law_gcs_is_gs(
    rest: Seq<char>,
    url: Result<(Seq<char>, Option<Seq<char>>, Option<u16>, Seq<char>), Seq<char>>,
    creds: Map<Seq<char>, Seq<char>>,
)
    ensures
        gs_spelling("gcs://"@ + rest) == gs_spelling("gs://"@ + rest),
        gcs_settings("gcs://"@ + rest, creds) == gcs_settings("gs://"@ + rest, creds),
        locate("gs://"@ + rest, url, creds) is Ok <==> url is Ok,
        locate("gcs://"@ + rest, url, creds) is Ok <==> url is Ok,
        url is Ok ==> locate("gcs://"@ + rest, url, creds) == locate("gs://"@ + rest, url, creds),
{
    reveal_strlit("gcs://");
    reveal_strlit("gs://");
    reveal_strlit("://");
    reveal_strlit("gcs");
    reveal_strlit("gs");
    reveal_strlit("s3");
    reveal_strlit("file");
    let long = "gcs://"@ + rest;
    let short = "gs://"@ + rest;
    assert(long =~= "gcs"@ + "://"@ + rest);
    assert(short =~= "gs"@ + "://"@ + rest);
    lemma_scheme_prefix("gcs"@, rest);
    lemma_scheme_prefix("gs"@, rest);
    assert("gcs://"@.is_prefix_of(long));
    assert(long.skip(6) =~= rest);
    assert(short[1] == 's' && "gcs://"@[1] == 'c');
    assert(!"gcs://"@.is_prefix_of(short));
    assert("gcs"@[0] == 'g' && "gs"@[0] == 'g');
    assert("s3"@[0] == 's' && "file"@[0] == 'f');
}

/// Wherever a group lies, its path is absolute and starts with one slash only.
pub proof fn law_group_path_is_absolute(
    uri: Seq<char>,
    url: Result<(Seq<char>, Option<Seq<char>>, Option<u16>, Seq<char>), Seq<char>>,
    creds: Map<Seq<char>, Seq<char>>,
)
    requires
        locate(uri, url, creds) is Ok,
    ensures
        ({
            let path = locate(uri, url, creds)->Ok_0.1;
            &&& path.len() > 0
            &&& path[0] == '/'
            &&& path.len() > 1 ==> path[1] != '/'
        }),
{
    reveal_strlit("/");
    let path = locate(uri, url, creds)->Ok_0.1;
    if path != "/"@ {
        if let Ok(parts) = url {
            lemma_trim_start(parts.3, '/');
            lemma_trim_start(trim_start(parts.3, '/'), '/');
        }
    }
}

/// The keys that some backend reads.
pub open spec fn known_keys() -> Seq<Seq<char>> {
    seq![
        "aws.access_key_id"@,
        "aws.secret_access_key"@,
        "aws.session_token"@,
        "aws.region"@,
        "aws.endpoint"@,
        "aws.allow_http"@,
        "aws.skip_signature"@,
        "gcp.service_account_path"@,
        "gcp.service_account_key"@,
        "gcp.application_credentials_path"@,
        "azure.account_name"@,
        "azure.account_key"@,
        "azure.client_id"@,
        "azure.client_secret"@,
        "azure.tenant_id"@,
        "azure.use_emulator"@,
    ]
}

/// Only what is set under a known key matters: other keys are ignored, and an
/// empty value counts as none.
pub proof fn law_only_set_known_keys_matter(
    uri: Seq<char>,
    url: Result<(Seq<char>, Option<Seq<char>>, Option<u16>, Seq<char>), Seq<char>>,
    a: Map<Seq<char>, Seq<char>>,
    b: Map<Seq<char>, Seq<char>>,
)
    requires
        forall|i: int|
            0 <= i < known_keys().len() ==> override_of(a, #[trigger] known_keys()[i])
                == override_of(b, known_keys()[i]),
    ensures
        locate(uri, url, a) == locate(uri, url, b),
{
    let k = known_keys();
    assert(override_of(a, k[0]) == override_of(b, k[0]));
    assert(override_of(a, k[1]) == override_of(b, k[1]));
    assert(override_of(a, k[2]) == override_of(b, k[2]));
    assert(override_of(a, k[3]) == override_of(b, k[3]));
    assert(override_of(a, k[4]) == override_of(b, k[4]));
    assert(override_of(a, k[5]) == override_of(b, k[5]));
    assert(override_of(a, k[6]) == override_of(b, k[6]));
    assert(override_of(a, k[7]) == override_of(b, k[7]));
    assert(override_of(a, k[8]) == override_of(b, k[8]));
    assert(override_of(a, k[9]) == override_of(b, k[9]));
    assert(override_of(a, k[10]) == override_of(b, k[10]));
    assert(override_of(a, k[11]) == override_of(b, k[11]));
    assert(override_of(a, k[12]) == override_of(b, k[12]));
    assert(override_of(a, k[13]) == override_of(b, k[13]));
    assert(override_of(a, k[14]) == override_of(b, k[14]));
    assert(override_of(a, k[15]) == override_of(b, k[15]));
}

proof fn lemma_numerals(indices: Seq<u64>)
    ensures
        forall|i: int|
            0 <= i < indices.len() ==> {
                &&& !(#[trigger] index_numerals(indices)[i]).contains(',')
                &&& !index_numerals(indices)[i].contains('&')
                &&& parse_unsigned(index_numerals(indices)[i], u64::MAX as nat) == Some(
                    indices[i] as nat,
                )
            },
{
    assert forall|i: int| 0 <= i < indices.len() implies {
        &&& !(#[trigger] index_numerals(indices)[i]).contains(',')
        &&& !index_numerals(indices)[i].contains('&')
        &&& parse_unsigned(index_numerals(indices)[i], u64::MAX as nat) == Some(indices[i] as nat)
    } by {
        let n = indices[i] as nat;
        lemma_decimal(n);
        law_decimal_round_trip(n, u64::MAX as nat);
        let d = decimal(n);
        assert(index_numerals(indices)[i] == d);
        if d.contains(',') {
            let k = choose|k: int| 0 <= k < d.len() && d[k] == ',';
            assert(is_digit(d[k]));
        }
        if d.contains('&') {
            let k = choose|k: int| 0 <= k < d.len() && d[k] == '&';
            assert(is_digit(d[k]));
        }
    }
}

/// Reading an anchor gives back the parts that it was built from, the array
/// path without the slashes in front of it.
///
/// The store URI has no fragment of its own, the array path holds no `&`, and
/// there is at least one index.
pub proof fn law_anchor_round_trip(
    store_uri: Seq<char>,
    array_path: Seq<char>,
    chunk_indices: Seq<u64>,
)
    requires
        !store_uri.contains('#'),
        !trim_start(array_path, '/').contains('&'),
        chunk_indices.len() > 0,
    ensures
        read_anchor(anchor_text(store_uri, array_path, chunk_indices)) == Ok::<
            ChunkAnchorView,
            ZarrErrorView,
        >(
            ChunkAnchorView {
                store_uri,
                array_path: trim_start(array_path, '/'),
                chunk_indices,
            },
        ),
{
    reveal_strlit("#array=");
    reveal_strlit("&chunk=");
    reveal_strlit("array=");
    reveal_strlit("chunk=");
    reveal_strlit(",");
    let a = trim_start(array_path, '/');
    let numerals = index_numerals(chunk_indices);
    let list = join(numerals, ","@);
    let uri = anchor_text(store_uri, array_path, chunk_indices);
    let first = "array="@ + a;
    let second = "chunk="@ + list;
    let fragment = first + seq!['&'] + second;
    assert(","@ =~= seq![',']);
    assert(uri =~= store_uri + seq!['#'] + fragment);

    lemma_split_first(store_uri, '#', fragment);
    assert(uri.take(store_uri.len() as int) =~= store_uri);
    assert(uri.skip(store_uri.len() as int + 1) =~= fragment);

    lemma_numerals(chunk_indices);
    assert forall|i: int| 0 <= i < numerals.len() implies !(#[trigger] numerals[i]).contains(
        '&',
    ) by {}
    lemma_join_contains(numerals, ","@, '&');
    if first.contains('&') {
        let k = choose|k: int| 0 <= k < first.len() && first[k] == '&';
        assert(k >= 6);
        assert(a[k - 6] == '&');
    }
    if second.contains('&') {
        let k = choose|k: int| 0 <= k < second.len() && second[k] == '&';
        assert(k >= 6);
        assert(list[k - 6] == '&');
    }
    lemma_split_first(first, '&', second);
    lemma_split_single(second, '&');
    let params = split(fragment, '&');
    assert(params =~= seq![first, second]);

    assert(first.skip(6) =~= a);
    assert(second.skip(6) =~= list);
    assert("array="@.is_prefix_of(first)) by {
        assert(first.take(6) =~= "array="@);
    }
    assert("chunk="@.is_prefix_of(second)) by {
        assert(second.take(6) =~= "chunk="@);
    }
    assert(!"array="@.is_prefix_of(second)) by {
        assert(second[0] == 'c');
        assert("array="@[0] == 'a');
    }
    assert(params.last() == second);
    assert(params.drop_last() =~= seq![first]);
    assert(params.drop_last().last() == first);
    assert(last_value(params, "chunk="@) == Some(list));
    assert(last_value(params.drop_last(), "array="@) == Some(a));
    assert(last_value(params, "array="@) == Some(a));

    assert forall|i: int| 0 <= i < numerals.len() implies !(#[trigger] numerals[i]).contains(
        ',',
    ) by {}
    lemma_split_join(numerals, ',');
    assert(list.len() > 0) by {
        lemma_decimal(chunk_indices[0] as nat);
        assert(numerals[0].len() > 0);
    }
    lemma_read_indices_prefix(numerals, numerals.len() as int);
    assert(numerals.skip(numerals.len() as int) =~= Seq::<Seq<char>>::empty());
    let f = |j: int| parse_unsigned(numerals[j], u64::MAX as nat)->0 as u64;
    assert(Seq::new(numerals.len(), f) + Seq::<u64>::empty() =~= chunk_indices);
}

proof fn lemma_last_value_source(params: Seq<Seq<char>>, key: Seq<char>, c: char)
    requires
        forall|i: int| 0 <= i < params.len() ==> !(#[trigger] params[i]).contains(c),
        last_value(params, key) is Some,
    ensures
        !last_value(params, key)->0.contains(c),
    decreases params.len(),
{
    let v = last_value(params, key)->0;
    match after_prefix(params.last(), key) {
        Some(w) => {
            if w.contains(c) {
                let k = choose|k: int| 0 <= k < w.len() && w[k] == c;
                assert(params.last()[k + key.len()] == c);
                assert(params[params.len() - 1].contains(c));
            }
        },
        None => {
            let rest = params.drop_last();
            assert forall|i: int| 0 <= i < rest.len() implies !(#[trigger] rest[i]).contains(c) by {
                assert(rest[i] == params[i]);
            }
            lemma_last_value_source(rest, key, c);
        },
    }
}

proof fn lemma_read_indices_len(parts: Seq<Seq<char>>)
    requires
        read_indices(parts) is Ok,
    ensures
        read_indices(parts)->Ok_0.len() == parts.len(),
    decreases parts.len(),
{
    if parts.len() > 0 {
        lemma_read_indices_len(parts.drop_first());
    }
}

/// The parts of any anchor that was read satisfy what building one asks for:
/// a store URI without `#`, an array path without `&`, at least one index.
pub proof fn law_read_anchor_parts(uri: Seq<char>)
    requires
        read_anchor(uri) is Ok,
    ensures
        !read_anchor(uri)->Ok_0.store_uri.contains('#'),
        !read_anchor(uri)->Ok_0.array_path.contains('&'),
        read_anchor(uri)->Ok_0.chunk_indices.len() > 0,
{
    lemma_first_index(uri, '#');
    let i = first_index(uri, '#');
    let params = split(uri.skip(i + 1), '&');
    lemma_split_parts(uri.skip(i + 1), '&');
    lemma_last_value_source(params, "array="@, '&');
    let list = last_value(params, "chunk="@)->0;
    lemma_split_parts(list, ',');
    lemma_read_indices_len(split(list, ','));
}

/// An anchor that was read and built again reads the same, provided that its
/// array path does not start with a slash.
pub proof fn law_rebuilt_anchor_reads_the_same(uri: Seq<char>)
    requires
        read_anchor(uri) is Ok,
        read_anchor(uri)->Ok_0.array_path.len() > 0 ==> read_anchor(uri)->Ok_0.array_path[0] != '/',
    ensures
        read_anchor(
            anchor_text(
                read_anchor(uri)->Ok_0.store_uri,
                read_anchor(uri)->Ok_0.array_path,
                read_anchor(uri)->Ok_0.chunk_indices,
            ),
        ) == read_anchor(uri),
{
    let p = read_anchor(uri)->Ok_0;
    law_read_anchor_parts(uri);
    law_anchor_round_trip(p.store_uri, p.array_path, p.chunk_indices);
}

proof fn lemma_index_list(indices: Seq<u64>)
    ensures
        indices.len() == 0 <==> join(index_numerals(indices), ","@).len() == 0,
{
    if indices.len() > 0 {
        let numerals = index_numerals(indices);
        lemma_decimal(indices[0] as nat);
        assert(numerals[0] == decimal(indices[0] as nat));
        assert(numerals[0].len() > 0);
    }
}

/// Where the parts of an anchor lie in it.
proof fn lemma_anchor_splits(store_uri: Seq<char>, array_path: Seq<char>, indices: Seq<u64>)
    requires
        !store_uri.contains('#'),
        !trim_start(array_path, '/').contains('&'),
    ensures
        ({
            let uri = anchor_text(store_uri, array_path, indices);
            let i = first_index(uri, '#');
            let fragment = uri.skip(i + 1);
            let j = first_index(fragment, '&');
            &&& store_uri == uri.take(i)
            &&& "array="@ + trim_start(array_path, '/') == fragment.take(j)
            &&& "chunk="@ + join(index_numerals(indices), ","@) == fragment.skip(j + 1)
        }),
{
    reveal_strlit("#array=");
    reveal_strlit("&chunk=");
    reveal_strlit("array=");
    reveal_strlit("chunk=");
    let a = trim_start(array_path, '/');
    let uri = anchor_text(store_uri, array_path, indices);
    let first = "array="@ + a;
    let second = "chunk="@ + join(index_numerals(indices), ","@);
    let fragment = first + seq!['&'] + second;
    assert(uri =~= store_uri + seq!['#'] + fragment);
    lemma_split_first(store_uri, '#', fragment);
    assert(uri.take(store_uri.len() as int) =~= store_uri);
    assert(uri.skip(store_uri.len() as int + 1) =~= fragment);
    if first.contains('&') {
        let k = choose|k: int| 0 <= k < first.len() && first[k] == '&';
        assert(k >= 6);
        assert(a[k - 6] == '&');
    }
    lemma_split_first(first, '&', second);
    assert(fragment.take(first.len() as int) =~= first);
    assert(fragment.skip(first.len() as int + 1) =~= second);
}

/// Two chunks with one anchor have the same store URI, array and indices.
pub proof fn law_anchor_is_unambiguous(
    store_a: Seq<char>,
    array_a: Seq<char>,
    indices_a: Seq<u64>,
    store_b: Seq<char>,
    array_b: Seq<char>,
    indices_b: Seq<u64>,
)
    requires
        !store_a.contains('#'),
        !store_b.contains('#'),
        !trim_start(array_a, '/').contains('&'),
        !trim_start(array_b, '/').contains('&'),
        anchor_text(store_a, array_a, indices_a) == anchor_text(store_b, array_b, indices_b),
    ensures
        store_a == store_b,
        trim_start(array_a, '/') == trim_start(array_b, '/'),
        indices_a == indices_b,
{
    let (a, b) = (trim_start(array_a, '/'), trim_start(array_b, '/'));
    let list_a = join(index_numerals(indices_a), ","@);
    let list_b = join(index_numerals(indices_b), ","@);
    lemma_anchor_splits(store_a, array_a, indices_a);
    lemma_anchor_splits(store_b, array_b, indices_b);
    assert(("array="@ + a).skip("array="@.len() as int) =~= a);
    assert(("array="@ + b).skip("array="@.len() as int) =~= b);
    assert(("chunk="@ + list_a).skip("chunk="@.len() as int) =~= list_a);
    assert(("chunk="@ + list_b).skip("chunk="@.len() as int) =~= list_b);
    lemma_index_list(indices_a);
    lemma_index_list(indices_b);
    if indices_a.len() == 0 {
        assert(indices_a =~= indices_b);
    } else {
        law_anchor_round_trip(store_a, array_a, indices_a);
        law_anchor_round_trip(store_b, array_b, indices_b);
    }
}

} // verus!
