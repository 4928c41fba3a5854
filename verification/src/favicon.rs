//! Favicons: recognising image data, reading `data:` URLs, and the cache
//! that keeps favicons on disk.

use vstd::prelude::*;
use base64::Engine;
use crate::digest::{hex_digest, hex_lower, sha256};
use crate::paths::{cache_dir, join_path, path_join, root_dir};
use crate::text::{chars_of, has_prefix, same_text};

verus! {

/// The largest favicon, in bytes, that the cache keeps.
pub const MAX_FAVICON_BYTES: usize = 524288;

/// The file extension of the image format that `c` starts with: PNG, JPEG,
/// GIF, ICO or WebP by their signatures; `None` for anything else.
pub open spec fn image_kind(c: Seq<u8>) -> Option<Seq<char>> {
    if c.len() >= 8 && c[0] == 0x89 && c[1] == 0x50 && c[2] == 0x4e && c[3] == 0x47 && c[4] == 0x0d
        && c[5] == 0x0a && c[6] == 0x1a && c[7] == 0x0a {
        Some("png"@)
    } else if c.len() >= 3 && c[0] == 0xff && c[1] == 0xd8 && c[2] == 0xff {
        Some("jpg"@)
    } else if c.len() >= 6 && c[0] == 0x47 && c[1] == 0x49 && c[2] == 0x46 && c[3] == 0x38 && (c[4]
        == 0x37 || c[4] == 0x39) && c[5] == 0x61 {
        Some("gif"@)
    } else if c.len() >= 4 && c[0] == 0 && c[1] == 0 && c[2] == 1 && c[3] == 0 {
        Some("ico"@)
    } else if c.len() >= 12 && c[0] == 0x52 && c[1] == 0x49 && c[2] == 0x46 && c[3] == 0x46 && c[8]
        == 0x57 && c[9] == 0x45 && c[10] == 0x42 && c[11] == 0x50 {
        Some("webp"@)
    } else {
        None
    }
}

/// The file extension of the image format that `content` starts with.
pub fn image_extension(content: &[u8]) -> (res: Option<&'static str>)
    ensures
        match image_kind(content@) {
            Some(e) => res matches Some(r) && r@ == e,
            None => res is None,
        },
{
    let c = content;
    let n = c.len();
    if n >= 8 && c[0] == 0x89 && c[1] == 0x50 && c[2] == 0x4e && c[3] == 0x47 && c[4] == 0x0d && c[5]
        == 0x0a && c[6] == 0x1a && c[7] == 0x0a {
        Some("png")
    } else if n >= 3 && c[0] == 0xff && c[1] == 0xd8 && c[2] == 0xff {
        Some("jpg")
    } else if n >= 6 && c[0] == 0x47 && c[1] == 0x49 && c[2] == 0x46 && c[3] == 0x38 && (c[4] == 0x37
        || c[4] == 0x39) && c[5] == 0x61 {
        Some("gif")
    } else if n >= 4 && c[0] == 0 && c[1] == 0 && c[2] == 1 && c[3] == 0 {
        Some("ico")
    } else if n >= 12 && c[0] == 0x52 && c[1] == 0x49 && c[2] == 0x46 && c[3] == 0x46 && c[8] == 0x57
        && c[9] == 0x45 && c[10] == 0x42 && c[11] == 0x50 {
        Some("webp")
    } else {
        None
    }
}

/// What the `base64` crate's standard engine (standard alphabet, canonical
/// padding required) decodes `encoded` to, or the text of its error.
pub uninterp spec fn base64_decode(encoded: Seq<char>) -> Result<Seq<u8>, Seq<char>>;

/// Decodes `encoded` with `base64::engine::general_purpose::STANDARD`; a
/// `DecodeError` becomes its `Display` text. The contract only names the
/// answer (`base64_decode`); what it is for a given text is not stated.
#[verifier::external_body]
fn decode_base64(encoded: &str) -> (res: Result<Vec<u8>, String>)
    ensures
        match res {
            Ok(bytes) => base64_decode(encoded@) == Ok::<Seq<u8>, Seq<char>>(bytes@),
            Err(e) => base64_decode(encoded@) == Err::<Seq<u8>, Seq<char>>(e@),
        },
{
    base64::engine::general_purpose::STANDARD.decode(encoded).map_err(|error| error.to_string())
}

/// The position of the first `c` in `s`.
pub open spec fn index_of_char(s: Seq<char>, c: char) -> Option<int>
    decreases s.len(),
{
    if s.len() == 0 {
        None
    } else if s[0] == c {
        Some(0)
    } else {
        match index_of_char(s.drop_first(), c) {
            Some(i) => Some(i + 1),
            None => None,
        }
    }
}

/// The first `c` of `s` stands at `i`.
proof fn lemma_index_of_char(s: Seq<char>, c: char, i: int)
    requires
        0 <= i < s.len(),
        s[i] == c,
        forall|j: int| 0 <= j < i ==> s[j] != c,
    ensures
        index_of_char(s, c) == Some(i),
    decreases i,
{
    if i > 0 {
        lemma_index_of_char(s.drop_first(), c, i - 1);
    }
}

/// No `c` stands in `s`.
proof fn lemma_index_of_char_none(s: Seq<char>, c: char)
    requires
        forall|j: int| 0 <= j < s.len() ==> s[j] != c,
    ensures
        index_of_char(s, c) is None,
    decreases s.len(),
{
    if s.len() > 0 {
        lemma_index_of_char_none(s.drop_first(), c);
    }
}

/// Whether `field` is one of the `sep`-separated fields of `s` (where `field`
/// holds no `sep`): it stands in `s` with a `sep` or the end of `s` on each side.
pub open spec fn has_field(s: Seq<char>, field: Seq<char>, sep: char) -> bool {
    exists|i: int|
        0 <= i && i + field.len() <= s.len() && #[trigger] s.subrange(i, i + field.len()) == field
            && (i == 0 || s[i - 1] == sep) && (i + field.len() == s.len() || s[i + field.len()]
            == sep)
}

/// Whether `field` stands in `s` at `i` as a whole field.
fn field_at(s: &Vec<char>, i: usize, field: &Vec<char>, sep: char) -> (res: bool)
    requires
        i + field@.len() <= s@.len(),
    ensures
        res == (s@.subrange(i as int, i + field@.len()) == field@ && (i == 0 || s@[i - 1] == sep)
            && (i + field@.len() == s@.len() || s@[i + field@.len()] == sep)),
{
    let n = s.len();
    let f = field.len();
    if i > 0 && s[i - 1] != sep {
        return false;
    }
    let end = i + f;
    if end < s.len() && s[end] != sep {
        return false;
    }
    let mut k: usize = 0;
    while k < f
        invariant
            i + field@.len() <= s@.len(),
            n == s@.len(),
            f == field@.len(),
            k <= field@.len(),
            s@.subrange(i as int, i + k) == field@.take(k as int),
        decreases field@.len() - k,
    {
        if s[i + k] != field[k] {
            assert(s@.subrange(i as int, i + field@.len())[k as int] != field@[k as int]);
            return false;
        }
        assert(s@.subrange(i as int, i + k + 1) == field@.take(k + 1));
        k = k + 1;
    }
    assert(field@.take(field@.len() as int) == field@);
    true
}

/// Whether `field` is one of the `sep`-separated fields of `s`.
fn contains_field(s: &Vec<char>, field: &Vec<char>, sep: char) -> (res: bool)
    ensures
        res == has_field(s@, field@, sep),
{
    if field.len() > s.len() {
        return false;
    }
    let last = s.len() - field.len();
    let mut i: usize = 0;
    loop
        invariant
            last + field@.len() == s@.len(),
            i <= last,
            forall|j: int|
                0 <= j < i ==> !(#[trigger] s@.subrange(j, j + field@.len()) == field@ && (j == 0
                    || s@[j - 1] == sep) && (j + field@.len() == s@.len() || s@[j + field@.len()]
                    == sep)),
        decreases last - i,
    {
        if field_at(s, i, field, sep) {
            assert(s@.subrange(i as int, i + field@.len()) == field@);
            return true;
        }
        if i == last {
            return false;
        }
        i = i + 1;
    }
}

/// What reading a `data:` URL gives: nothing where the data is not base64,
/// else the decoded bytes with their image extension where they are an image;
/// an error where the URL has no `,` or the data does not decode.
pub open spec fn data_url_content(data: Seq<char>) -> Result<Option<(Seq<char>, Seq<u8>)>, Seq<char>> {
    match index_of_char(data, ',') {
        None => Err("invalid favicon data URL"@),
        Some(i) => if !has_field(data.take(i), "base64"@, ';') {
            Ok(None)
        } else {
            match base64_decode(data.skip(i + 1)) {
                Err(e) => Err(e),
                Ok(bytes) => match image_kind(bytes) {
                    Some(ext) => Ok(Some((ext, bytes))),
                    None => Ok(None),
                },
            }
        },
    }
}

/// The value of what [`read_data_url`] answers.
pub open spec fn data_read_view(r: Result<Option<(&'static str, Vec<u8>)>, String>) -> Result<
    Option<(Seq<char>, Seq<u8>)>,
    Seq<char>,
> {
    match r {
        Ok(Some((e, b))) => Ok(Some((e@, b@))),
        Ok(None) => Ok(None),
        Err(m) => Err(m@),
    }
}

/// Reads a favicon given as a `data:` URL; `None` where `source` is no
/// `data:` URL.
pub fn read_data_url(source: &str) -> (res: Option<Result<Option<(&'static str, Vec<u8>)>, String>>)
    ensures
        res is None <==> !has_prefix(source@, "data:"@),
        res matches Some(r) ==> data_read_view(r) == data_url_content(
            source@.skip("data:"@.len() as int),
        ),
{
    if !crate::text::starts_with(source, "data:") {
        return None;
    }
    let prefix_len = chars_of("data:").len();
    let all = chars_of(source);
    let ghost data = source@.skip(prefix_len as int);
    let mut i = prefix_len;
    while i < all.len() && all[i] != ','
        invariant
            prefix_len <= i <= all@.len(),
            all@ == source@,
            data == all@.skip(prefix_len as int),
            forall|j: int| prefix_len <= j < i ==> all@[j] != ',',
        decreases all@.len() - i,
    {
        i = i + 1;
    }
    if i == all.len() {
        proof {
            assert forall|j: int| 0 <= j < data.len() implies data[j] != ',' by {
                assert(data[j] == all@[prefix_len + j]);
            }
            lemma_index_of_char_none(data, ',');
        }
        return Some(Err(String::from_str("invalid favicon data URL")));
    }
    let ghost comma = i - prefix_len;
    proof {
        assert forall|j: int| 0 <= j < comma implies data[j] != ',' by {
            assert(data[j] == all@[prefix_len + j]);
        }
        lemma_index_of_char(data, ',', comma);
    }
    let mut metadata: Vec<char> = Vec::new();
    let mut k = prefix_len;
    while k < i
        invariant
            prefix_len <= k <= i < all@.len(),
            all@ == source@,
            data == all@.skip(prefix_len as int),
            metadata@ == data.take(k - prefix_len),
        decreases i - k,
    {
        metadata.push(all[k]);
        assert(data.take(k + 1 - prefix_len) == data.take(k - prefix_len).push(all@[k as int]));
        k = k + 1;
    }
    let field = chars_of("base64");
    if !contains_field(&metadata, &field, ';') {
        return Some(Ok(None));
    }
    let encoded = source.substring_char(i + 1, all.len());
    assert(encoded@ == data.skip(comma + 1));
    match decode_base64(encoded) {
        Err(e) => Some(Err(e)),
        Ok(bytes) => match image_extension(bytes.as_slice()) {
            Some(ext) => Some(Ok(Some((ext, bytes)))),
            None => Some(Ok(None)),
        },
    }
}

/// The arguments with which `curl` fetches a favicon from `source`: fail on
/// HTTP errors, follow redirects, stay silent but for errors, give up after 2
/// seconds or beyond the largest favicon size.
pub fn fetch_arguments(source: &str) -> (res: Vec<String>)
    ensures
        res.deep_view() == seq![
            "--fail"@,
            "--location"@,
            "--silent"@,
            "--show-error"@,
            "--max-time"@,
            "2"@,
            "--max-filesize"@,
            "524288"@,
            source@,
        ],
{
    let res = vec![
        String::from_str("--fail"),
        String::from_str("--location"),
        String::from_str("--silent"),
        String::from_str("--show-error"),
        String::from_str("--max-time"),
        String::from_str("2"),
        String::from_str("--max-filesize"),
        String::from_str("524288"),
        String::from_str(source),
    ];
    assert(res.deep_view() =~= seq![
        "--fail"@,
        "--location"@,
        "--silent"@,
        "--show-error"@,
        "--max-time"@,
        "2"@,
        "--max-filesize"@,
        "524288"@,
        source@,
    ]);
    res
}

/// What a download gives: the image with its extension, where `curl`
/// succeeded, the data is no larger than the largest favicon, and it is an image.
pub fn accept_download(success: bool, content: Vec<u8>) -> (res: Option<(&'static str, Vec<u8>)>)
    ensures
        (!success || content@.len() > MAX_FAVICON_BYTES) ==> res is None,
        (success && content@.len() <= MAX_FAVICON_BYTES) ==> match image_kind(content@) {
            Some(e) => res matches Some((r, b)) && r@ == e && b@ == content@,
            None => res is None,
        },
{
    if !success || content.len() > MAX_FAVICON_BYTES {
        return None;
    }
    match image_extension(content.as_slice()) {
        Some(ext) => Some((ext, content)),
        None => None,
    }
}

/// The directory where favicons are kept, each under the digest of its source.
pub struct FaviconCache {
    pub directory: String,
}

/// The file name under which the favicon of `source` is kept, before its extension.
pub open spec fn cache_key_of(source: Seq<char>) -> Seq<char> {
    hex_lower(sha256(vstd::utf8::encode_utf8(source)))
}

impl FaviconCache {
    /// The cache under the user's cache directory, from `XDG_CACHE_HOME` and `HOME`.
    pub fn installed(xdg_cache_home: &Option<String>, home: &Option<String>) -> (res: Result<
        FaviconCache,
        String,
    >)
        ensures
            match root_dir(xdg_cache_home.deep_view(), home.deep_view(), ".cache"@) {
                Ok(p) => res matches Ok(c) && c.directory@ == path_join(
                    p,
                    "zen-tab-launcher/favicons"@,
                ),
                Err(e) => res matches Err(m) && m@ == e,
            },
    {
        Ok(FaviconCache { directory: cache_dir(xdg_cache_home, home)? })
    }

    /// The name under which the favicon of `source` is kept.
    pub fn cache_key(source: &str) -> (res: String)
        ensures
            res@ == cache_key_of(source@),
    {
        hex_digest(source.as_bytes())
    }

    /// The first of the cache's files, given as path and file stem, whose
    /// stem is `key`.
    pub fn existing(&self, key: &str, files: &Vec<(String, Option<String>)>) -> (res: Option<String>)
        ensures
            res is None <==> forall|i: int|
                0 <= i < files@.len() ==> #[trigger] files@[i].1.deep_view() != Some(key@),
            res matches Some(p) ==> exists|i: int|
                0 <= i < files@.len() && #[trigger] files@[i].1.deep_view() == Some(key@) && files@[i].0@
                    == p@ && forall|j: int| 0 <= j < i ==> files@[j].1.deep_view() != Some(key@),
    {
        let mut i: usize = 0;
        while i < files.len()
            invariant
                i <= files@.len(),
                forall|j: int| 0 <= j < i ==> #[trigger] files@[j].1.deep_view() != Some(key@),
            decreases files@.len() - i,
        {
            match &files[i].1 {
                Some(stem) => {
                    if same_text(stem.as_str(), key) {
                        assert(files@[i as int].1.deep_view() == Some(key@));
                        return Some(files[i].0.clone());
                    }
                },
                None => {},
            }
            i = i + 1;
        }
        None
    }

    /// Where a fetched favicon is kept, with the bytes to keep: only a
    /// favicon that is not empty and no larger than the largest size.
    pub fn stored(&self, key: &str, fetched: Option<(&'static str, Vec<u8>)>) -> (res: Option<
        (String, Vec<u8>),
    >)
        ensures
            match fetched {
                Some((ext, content)) => if content@.len() == 0 || content@.len() > MAX_FAVICON_BYTES {
                    res is None
                } else {
                    res matches Some((path, bytes)) && bytes@ == content@ && path@ == path_join(
                        self.directory@,
                        key@ + "."@ + ext@,
                    )
                },
                None => res is None,
            },
    {
        match fetched {
            None => None,
            Some((ext, content)) => {
                if content.len() == 0 || content.len() > MAX_FAVICON_BYTES {
                    return None;
                }
                let mut name = String::from_str(key);
                name.append(".");
                name.append(ext);
                Some((join_path(self.directory.as_str(), name.as_str()), content))
            },
        }
    }
}

/// The first of `files`, given as path and file stem, whose stem is `key`.
pub open spec fn cached_file(files: Seq<(Seq<char>, Option<Seq<char>>)>, key: Seq<char>) -> Option<
    Seq<char>,
>
    decreases files.len(),
{
    if files.len() == 0 {
        None
    } else if files[0].1 == Some(key) {
        Some(files[0].0)
    } else {
        cached_file(files.drop_first(), key)
    }
}

/// The cached file found for `key` is the first file whose stem is `key`:
/// none is found exactly when no file has that stem, and a file found is one
/// of `files` with that stem, no earlier file having it.
pub proof fn lemma_cached_file_is_first_match(
    files: Seq<(Seq<char>, Option<Seq<char>>)>,
    key: Seq<char>,
)
    ensures
        cached_file(files, key) is None <==> forall|i: int|
            0 <= i < files.len() ==> #[trigger] files[i].1 != Some(key),
        cached_file(files, key) matches Some(p) ==> exists|i: int|
            0 <= i < files.len() && #[trigger] files[i] == (p, Some(key)) && forall|j: int|
                0 <= j < i ==> #[trigger] files[j].1 != Some(key),
    decreases files.len(),
{
    if files.len() > 0 {
        let rest = files.drop_first();
        lemma_cached_file_is_first_match(rest, key);
        if files[0].1 == Some(key) {
            assert(files[0] == (files[0].0, Some(key)));
        } else {
            if cached_file(rest, key) is None {
                assert forall|i: int| 0 <= i < files.len() implies #[trigger] files[i].1 != Some(key) by {
                    if i > 0 {
                        assert(rest[i - 1] == files[i]);
                    }
                }
            } else {
                let p = cached_file(rest, key)->Some_0;
                let i = choose|i: int|
                    0 <= i < rest.len() && #[trigger] rest[i] == (p, Some(key)) && forall|j: int|
                        0 <= j < i ==> #[trigger] rest[j].1 != Some(key);
                assert(files[i + 1] == (p, Some(key)));
                assert forall|j: int| 0 <= j < i + 1 implies #[trigger] files[j].1 != Some(key) by {
                    if j > 0 {
                        assert(rest[j - 1] == files[j]);
                    }
                }
                if forall|k: int| 0 <= k < files.len() ==> #[trigger] files[k].1 != Some(key) {
                    assert(files[i + 1].1 != Some(key));
                }
            }
        }
    }
}

/// What resolving a favicon does first.
pub enum FaviconStep {
    /// Answer with this file of the cache; nothing is fetched or written.
    Cached(String),
    /// Read the favicon from its source, then keep it (see [`FaviconCache::stored`]).
    Fetch(String),
}

/// A favicon once kept is found again: where no file of the cache has the
/// stem `key`, adding a file of that stem makes it the one found. So a
/// second resolve of the same source answers with the file that the first
/// one wrote, without fetching.
pub proof fn lemma_stored_favicon_found(
    files: Seq<(Seq<char>, Option<Seq<char>>)>,
    key: Seq<char>,
    path: Seq<char>,
)
    requires
        cached_file(files, key) is None,
    ensures
        cached_file(files.push((path, Some(key))), key) == Some(path),
    decreases files.len(),
{
    if files.len() > 0 {
        assert(files.push((path, Some(key))).drop_first() == files.drop_first().push((path, Some(key))));
        lemma_stored_favicon_found(files.drop_first(), key, path);
    } else {
        assert(files.push((path, Some(key)))[0] == (path, Some(key)));
    }
}

impl FaviconCache {
    /// The first step of resolving the favicon of `source`, given the cache's
    /// files as path and stem (`None` where the cache directory does not
    /// exist): the cached file whose stem is the source's key, or else a fetch
    /// to keep under that key.
    pub fn lookup(&self, source: &str, files: &Option<Vec<(String, Option<String>)>>) -> (res:
        FaviconStep)
        ensures
            match files {
                None => res matches FaviconStep::Fetch(k) && k@ == cache_key_of(source@),
                Some(fs) => match cached_file(fs.deep_view(), cache_key_of(source@)) {
                    Some(p) => res matches FaviconStep::Cached(c) && c@ == p,
                    None => res matches FaviconStep::Fetch(k) && k@ == cache_key_of(source@),
                },
            },
    {
        let key = FaviconCache::cache_key(source);
        let fs = match files {
            None => return FaviconStep::Fetch(key),
            Some(fs) => fs,
        };
        let ghost all = fs.deep_view();
        let mut i: usize = 0;
        assert(all.skip(0) == all);
        #[verifier::loop_isolation(false)]
        while i < fs.len()
            invariant
                i <= fs@.len(),
                all == fs.deep_view(),
                all.len() == fs@.len(),
                cached_file(all, key@) == cached_file(all.skip(i as int), key@),
            decreases fs@.len() - i,
        {
            assert(all[i as int] == (fs@[i as int].0@, fs@[i as int].1.deep_view()));
            assert(all.skip(i as int)[0] == all[i as int]);
            match &fs[i].1 {
                Some(stem) => {
                    if same_text(stem.as_str(), key.as_str()) {
                        assert(all.skip(i as int)[0].1 == Some(key@));
                        return FaviconStep::Cached(fs[i].0.clone());
                    }
                },
                None => {},
            }
            assert(all.skip(i as int).drop_first() == all.skip(i + 1));
            i = i + 1;
        }
        FaviconStep::Fetch(key)
    }
}

/// Whether a kept favicon wants writing: the file does not hold `content`
/// already (or could not be read).
pub fn favicon_needs_write(current: &Option<Vec<u8>>, content: &[u8]) -> (res: bool)
    ensures
        res == !(current matches Some(c) && c@ == content@),
{
    match current {
        Some(c) => {
            if c.len() != content.len() {
                return true;
            }
            let mut i: usize = 0;
            #[verifier::loop_isolation(false)]
            while i < c.len()
                invariant
                    i <= c@.len() == content@.len(),
                    c@.take(i as int) == content@.take(i as int),
                decreases c@.len() - i,
            {
                if c[i] != content[i] {
                    assert(c@[i as int] != content@[i as int]);
                    return true;
                }
                assert(c@.take(i + 1) == content@.take(i + 1));
                i = i + 1;
            }
            assert(c@.take(c@.len() as int) == c@);
            assert(content@.take(content@.len() as int) == content@);
            false
        },
        None => true,
    }
}

} // verus!
