use vstd::prelude::*;
use vstd::utf8::{decode_utf8, encode_scalar, encode_utf8, valid_utf8};

use crate::utf8_facts::{
    lemma_encode_ascii_char, lemma_encode_utf8_concat, lemma_encoding_avoids,
    lemma_scalar_encoding_avoids,
};

use crate::path_text::{
    components_of, extends_with, has_root_or_prefix, holds_root_or_prefix, joined_path,
    join_path, may_hold_root_or_prefix, path_components, starts_verbatim, starts_with_slash,
};
use crate::percent::{
    PERCENT, is_hex_digit, lemma_decode_without_percent, lemma_escaped_bytes,
    lemma_escaping_every_byte_round_trips, percent_decode, percent_encode_all,
    percent_decoded,
};

verus! {

broadcast use vstd::utf8::encode_utf8_valid_utf8;

/// Where an image of a document is read from.
#[derive(Debug)]
pub enum ImageSource {
    /// A file on disk, by the text of its path.
    Path(String),
    /// The document's URI, left for a URI loader.
    Uri(String),
}

/// `#` or `?`: the start of a URL's fragment or query.
pub open spec fn is_query_or_fragment_start(x: u8) -> bool {
    x == 35 || x == 63
}

/// Number of bytes of `b` before its first `#` or `?` (all of `b` if none).
pub open spec fn path_len(b: Seq<u8>) -> nat
    decreases b.len(),
{
    if b.len() == 0 || is_query_or_fragment_start(b[0]) {
        0
    } else {
        1 + path_len(b.subrange(1, b.len() as int))
    }
}

/// The part of URL bytes `b` before any query or fragment.
pub open spec fn url_path(b: Seq<u8>) -> Seq<u8> {
    b.subrange(0, path_len(b) as int)
}

/// An ASCII letter.
pub open spec fn is_ascii_letter(x: u8) -> bool {
    (65 <= x <= 90) || (97 <= x <= 122)
}

/// A byte that may follow the first letter of a URL scheme: an ASCII letter
/// or digit, `+`, `-` or `.`.
pub open spec fn is_scheme_char(x: u8) -> bool {
    is_ascii_letter(x) || (48 <= x <= 57) || x == 43 || x == 45 || x == 46
}

/// RFC 3986: `b` starts with `ALPHA *( ALPHA / DIGIT / "+" / "-" / "." ) ":"`.
pub open spec fn starts_with_scheme(b: Seq<u8>) -> bool {
    exists|c: int|
        0 < c < b.len() && #[trigger] b[c] == 58 && is_ascii_letter(b[0]) && forall|j: int|
            1 <= j < c ==> is_scheme_char(#[trigger] b[j])
}

/// `/` or `\`.
pub open spec fn is_separator_byte(x: u8) -> bool {
    x == 47 || x == 92
}

/// The relative path that URL bytes `b` name, before it is checked for a
/// root or a prefix: the part before any `#` or `?`, with its `%XX` escapes
/// decoded. `None` when that part is empty, starts with a scheme (which also
/// covers a drive letter, `C:`), starts with `/` or `\`, or does not decode
/// to UTF-8.
pub open spec fn plain_relative_path(b: Seq<u8>) -> Option<Seq<char>> {
    let p = url_path(b);
    if p.len() == 0 || starts_with_scheme(p) || is_separator_byte(p[0]) {
        None
    } else if !valid_utf8(percent_decode(p)) {
        None
    } else {
        Some(decode_utf8(percent_decode(p)))
    }
}

proof fn lemma_path_len(b: Seq<u8>)
    ensures
        path_len(b) <= b.len(),
        forall|j: int| 0 <= j < path_len(b) ==> !is_query_or_fragment_start(#[trigger] b[j]),
        path_len(b) < b.len() ==> is_query_or_fragment_start(b[path_len(b) as int]),
    decreases b.len(),
{
    if b.len() > 0 && !is_query_or_fragment_start(b[0]) {
        let rest = b.subrange(1, b.len() as int);
        lemma_path_len(rest);
        assert forall|j: int| 0 <= j < path_len(b) implies !is_query_or_fragment_start(
            #[trigger] b[j],
        ) by {
            if j > 0 {
                assert(b[j] == rest[j - 1]);
            }
        }
    }
}

/// Index of the first `#` or `?` of `b`, or its length.
fn url_path_end(b: &[u8]) -> (end: usize)
    ensures
        end == path_len(b@),
{
    let len = b.len();
    let mut i: usize = 0;
    while i < len && !(b[i] == 35 || b[i] == 63)
        invariant
            len == b@.len(),
            i <= len,
            forall|j: int| 0 <= j < i ==> !is_query_or_fragment_start(#[trigger] b@[j]),
        decreases len - i,
    {
        i = i + 1;
    }
    proof {
        lemma_path_len(b@);
        let p = path_len(b@) as int;
        if p < i {
            assert(!is_query_or_fragment_start(b@[p]));
        }
        if i < p {
            assert(!is_query_or_fragment_start(b@[i as int]));
        }
    }
    i
}

/// RFC 3986: `ALPHA *( ALPHA / DIGIT / "+" / "-" / "." ) ":"`.
pub fn has_scheme(url: &str) -> (r: bool)
    ensures
        r == starts_with_scheme(encode_utf8(url@)),
{
    let b = url.as_bytes();
    let len = b.len();
    if len == 0 || !((65 <= b[0] && b[0] <= 90) || (97 <= b[0] && b[0] <= 122)) {
        return false;
    }
    let mut i: usize = 1;
    while i < len && ((65 <= b[i] && b[i] <= 90) || (97 <= b[i] && b[i] <= 122) || (48 <= b[i]
        && b[i] <= 57) || b[i] == 43 || b[i] == 45 || b[i] == 46)
        invariant
            len == b@.len(),
            1 <= i <= len,
            forall|j: int| 1 <= j < i ==> is_scheme_char(#[trigger] b@[j]),
        decreases len - i,
    {
        i = i + 1;
    }
    let found = i < len && b[i] == 58;
    proof {
        if found {
            assert(b@[i as int] == 58);
        } else if starts_with_scheme(b@) {
            let c = choose|c: int|
                0 < c < b@.len() && #[trigger] b@[c] == 58 && is_ascii_letter(b@[0]) && forall|
                    j: int,
                | 1 <= j < c ==> is_scheme_char(#[trigger] b@[j]);
            if i < c {
                assert(is_scheme_char(b@[i as int]));
            }
            if c < i {
                assert(is_scheme_char(b@[c]));
            }
        }
    }
    found
}

/// The text of the relative path that `url` names, before it is checked for
/// a root or a prefix: the part before any `#` or `?`, with its `%XX`
/// escapes decoded.
pub fn plain_relative_target(url: &str) -> (r: Option<String>)
    ensures
        match r {
            Some(s) => plain_relative_path(encode_utf8(url@)) == Some(s@),
            None => plain_relative_path(encode_utf8(url@)) is None,
        },
{
    let ghost b = encode_utf8(url@);
    let bytes = url.as_bytes();
    let end = url_path_end(bytes);
    proof {
        lemma_path_len(b);
        vstd::utf8::is_char_boundary_start_end_of_seq(b);
        if end < b.len() {
            vstd::utf8::is_char_boundary_iff_not_is_continuation_byte(b, end as int);
        }
    }
    let (path, _) = url.split_at(end);
    assert(encode_utf8(path@) =~= url_path(b));
    let path_bytes = path.as_bytes();
    if path_bytes.len() == 0 || has_scheme(path) || path_bytes[0] == 47 || path_bytes[0] == 92 {
        return None;
    }
    percent_decoded(path)
}

/// The relative path that `url` names, as text: the plain relative path of
/// [`plain_relative_path`], provided it holds neither a root nor a prefix.
pub open spec fn relative_image_file(url: Seq<char>) -> Option<Seq<char>> {
    match plain_relative_path(encode_utf8(url)) {
        Some(d) => if holds_root_or_prefix(components_of(d)) {
            None
        } else {
            Some(d)
        },
        None => None,
    }
}

/// The path, as text, that `url` resolves to under the directory `base`.
pub open spec fn resolved_image_path(url: Seq<char>, base: Seq<char>) -> Option<Seq<char>> {
    match relative_image_file(url) {
        Some(d) => Some(joined_path(base, d)),
        None => None,
    }
}

/// The file a relative image URL names under `base`.
///
/// `None` for anything that is not a plain relative path: a URL with a
/// scheme (which also covers a drive letter, `C:`), a rooted path, or a UNC
/// path. The query and fragment are dropped and `%XX` escapes decoded, the
/// way a browser resolves `![](docs/my%20shot.png#dark)`. Paths are taken
/// and given as their text.
pub fn relative_image_path(url: &str, base: &str) -> (r: Option<String>)
    ensures
        match r {
            Some(p) => resolved_image_path(url@, base@) == Some(p@),
            None => resolved_image_path(url@, base@) is None,
        },
        r matches Some(p) ==> (relative_image_file(url@) matches Some(d) && (
        !starts_verbatim(base@) ==> extends_with(p@, base@, d))),
        plain_relative_path(encode_utf8(url@)) matches Some(d) ==> (starts_with_slash(d)
            ==> r is None) && (!may_hold_root_or_prefix(d) ==> r is Some),
{
    let decoded = match plain_relative_target(url) {
        Some(decoded) => decoded,
        None => return None,
    };
    let kinds = path_components(decoded.as_str());
    if has_root_or_prefix(&kinds) {
        return None;
    }
    Some(join_path(base, decoded.as_str()))
}

/// Converts a document image URL into an [`ImageSource`] without granting
/// implicit filesystem access.
///
/// Document-provided values remain URI-backed, including `file://` and
/// scheme-less strings, unless the app names a `base` directory: then a
/// plain relative path is read from under it.
pub fn image_source(url: &str, base: Option<&str>) -> (s: ImageSource)
    ensures
        match base {
            Some(b) => match resolved_image_path(url@, b@) {
                Some(p) => s matches ImageSource::Path(q) && q@ == p,
                None => s matches ImageSource::Uri(u) && u@ == url@,
            },
            None => s matches ImageSource::Uri(u) && u@ == url@,
        },
        base is Some ==> (plain_relative_path(encode_utf8(url@)) matches Some(d) ==> (
        starts_with_slash(d) ==> s is Uri) && (!may_hold_root_or_prefix(d) ==> s is Path)),
        s matches ImageSource::Path(q) ==> (base matches Some(b) && relative_image_file(
            url@,
        ) matches Some(d) && (!starts_verbatim(b@) ==> extends_with(q@, b@, d))),
{
    if let Some(base) = base {
        if let Some(path) = relative_image_path(url, base) {
            return ImageSource::Path(path);
        }
    }
    ImageSource::Uri(url.to_owned())
}

/// The query and the fragment of a URL play no part in the path it names.
pub proof fn lemma_query_and_fragment_are_dropped(path: Seq<u8>, rest: Seq<u8>)
    requires
        forall|j: int| 0 <= j < path.len() ==> !is_query_or_fragment_start(#[trigger] path[j]),
        rest.len() > 0,
        is_query_or_fragment_start(rest[0]),
    ensures
        plain_relative_path(path + rest) == plain_relative_path(path),
{
    let b = path + rest;
    lemma_path_len(b);
    lemma_path_len(path);
    let n = path_len(b) as int;
    if n < path.len() {
        assert(b[n] == path[n]);
    }
    if n > path.len() {
        assert(b[path.len() as int] == rest[0]);
    }
    if path_len(path) < path.len() {
        assert(!is_query_or_fragment_start(path[path_len(path) as int]));
    }
    assert(url_path(b) =~= url_path(path));
}

/// A URL resolves to a path under one base exactly when it does under any
/// other, and both join the same relative path to their base.
pub proof fn lemma_base_only_places_the_path(url: Seq<char>, b1: Seq<char>, b2: Seq<char>)
    ensures
        resolved_image_path(url, b1) is Some <==> resolved_image_path(url, b2) is Some,
        relative_image_file(url) matches Some(d) ==> resolved_image_path(url, b1) == Some(
            joined_path(b1, d),
        ) && resolved_image_path(url, b2) == Some(joined_path(b2, d)),
{
}

/// The query or fragment of an image URL plays no part in where it resolves.
pub proof fn lemma_query_and_fragment_play_no_part(
    url: Seq<char>,
    mark: char,
    rest: Seq<char>,
    base: Seq<char>,
)
    requires
        mark == '#' || mark == '?',
        forall|i: int| 0 <= i < url.len() ==> #[trigger] url[i] != '#' && url[i] != '?',
    ensures
        resolved_image_path(url + seq![mark] + rest, base) == resolved_image_path(url, base),
{
    let tail = seq![mark] + rest;
    assert(url + seq![mark] + rest == url + tail);
    lemma_encode_utf8_concat(url, tail);
    assert(mark as u32 == 35 || mark as u32 == 63);
    lemma_encode_ascii_char(mark);
    assert(tail.drop_first() =~= rest);
    assert(tail[0] == mark);
    assert(encode_utf8(tail) == encode_scalar(mark as u32) + encode_utf8(tail.drop_first()));
    assert(encode_utf8(tail)[0] == (mark as u32) as u8);
    assert forall|i: int| 0 <= i < url.len() implies (#[trigger] url[i]) as u32 != 35u8 as u32 by {
        if url[i] as u32 == 35 {
            vstd::utf8::char_u32_cast(url[i], 35);
            vstd::utf8::char_u32_cast('#', 35);
        }
    }
    assert forall|i: int| 0 <= i < url.len() implies (#[trigger] url[i]) as u32 != 63u8 as u32 by {
        if url[i] as u32 == 63 {
            vstd::utf8::char_u32_cast(url[i], 63);
            vstd::utf8::char_u32_cast('?', 63);
        }
    }
    lemma_encoding_avoids(url, 35);
    lemma_encoding_avoids(url, 63);
    let b = encode_utf8(url);
    assert forall|j: int| 0 <= j < b.len() implies !is_query_or_fragment_start(#[trigger] b[j]) by {
        assert(b[j] != 35u8);
        assert(b[j] != 63u8);
    }
    lemma_query_and_fragment_are_dropped(b, encode_utf8(tail));
}

/// Only what comes before the first `:` decides whether there is a scheme.
pub proof fn lemma_scheme_decided_before_first_colon(s: Seq<u8>, rest: Seq<u8>)
    requires
        exists|k: int| 0 <= k < s.len() && s[k] == 58,
    ensures
        starts_with_scheme(s + rest) == starts_with_scheme(s),
{
    let t = s + rest;
    let k = choose|k: int| 0 <= k < s.len() && s[k] == 58;
    if starts_with_scheme(s) {
        let c = choose|c: int|
            0 < c < s.len() && #[trigger] s[c] == 58 && is_ascii_letter(s[0]) && forall|j: int|
                1 <= j < c ==> is_scheme_char(#[trigger] s[j]);
        assert(t[c] == 58);
        assert forall|j: int| 1 <= j < c implies is_scheme_char(#[trigger] t[j]) by {
            assert(t[j] == s[j]);
        }
    }
    if starts_with_scheme(t) {
        let c = choose|c: int|
            0 < c < t.len() && #[trigger] t[c] == 58 && is_ascii_letter(t[0]) && forall|j: int|
                1 <= j < c ==> is_scheme_char(#[trigger] t[j]);
        assert(t[0] == s[0]);
        if c >= s.len() {
            assert(t[k] == s[k]);
            if k == 0 {
                assert(!is_ascii_letter(t[0]));
            } else {
                assert(is_scheme_char(t[k]));
            }
        } else {
            assert(s[c] == 58);
            assert forall|j: int| 1 <= j < c implies is_scheme_char(#[trigger] s[j]) by {
                assert(t[j] == s[j]);
            }
        }
    }
}

/// Two different characters have different codes.
proof fn lemma_char_codes_differ(c: char, d: char)
    requires
        c != d,
    ensures
        c as u32 != d as u32,
{
    if c as u32 == d as u32 {
        vstd::utf8::char_u32_cast(c, c as u32);
        vstd::utf8::char_u32_cast(d, c as u32);
    }
}

/// A text without the ASCII character `x` encodes to bytes without it.
proof fn lemma_text_avoids(u: Seq<char>, x: char)
    requires
        (x as u32) < 128,
        forall|i: int| 0 <= i < u.len() ==> #[trigger] u[i] != x,
    ensures
        forall|i: int|
            0 <= i < encode_utf8(u).len() ==> #[trigger] encode_utf8(u)[i] != (x as u32) as u8,
{
    assert forall|i: int| 0 <= i < u.len() implies (#[trigger] u[i]) as u32 != ((x as u32) as u8)
        as u32 by {
        lemma_char_codes_differ(u[i], x);
    }
    lemma_encoding_avoids(u, (x as u32) as u8);
}

/// Bytes without `#` or `?` are all path.
proof fn lemma_whole_path(b: Seq<u8>)
    requires
        forall|i: int| 0 <= i < b.len() ==> !is_query_or_fragment_start(#[trigger] b[i]),
    ensures
        url_path(b) == b,
{
    lemma_path_len(b);
    if path_len(b) < b.len() {
        assert(!is_query_or_fragment_start(b[path_len(b) as int]));
    }
    assert(url_path(b) =~= b);
}

/// A scheme needs a `:`.
pub proof fn lemma_scheme_needs_a_colon(b: Seq<u8>)
    requires
        starts_with_scheme(b),
    ensures
        exists|k: int| 0 <= k < b.len() && b[k] == 58,
{
}

/// A text that holds no `%`, `#`, `?` or `:` and does not start with `/` or
/// `\` names itself as a relative path, whatever characters it holds
/// (capital letters, any extension, non-ASCII letters alike).
pub proof fn lemma_plain_text_names_itself(u: Seq<char>)
    requires
        u.len() > 0,
        u[0] != '/',
        u[0] != '\\',
        forall|i: int|
            0 <= i < u.len() ==> #[trigger] u[i] != '%' && u[i] != '#' && u[i] != '?' && u[i]
                != ':',
    ensures
        plain_relative_path(encode_utf8(u)) == Some(u),
{
    let b = encode_utf8(u);
    lemma_text_avoids(u, '%');
    lemma_text_avoids(u, '#');
    lemma_text_avoids(u, '?');
    lemma_text_avoids(u, ':');
    assert forall|i: int| 0 <= i < b.len() implies !is_query_or_fragment_start(#[trigger] b[i]) by {
        assert(b[i] != 35u8 && b[i] != 63u8);
    }
    lemma_whole_path(b);
    let head = encode_scalar(u[0] as u32);
    assert(b == head + encode_utf8(u.drop_first()));
    assert(head.len() > 0);
    assert(b[0] == head[0]);
    lemma_char_codes_differ(u[0], '/');
    lemma_char_codes_differ(u[0], '\\');
    lemma_scalar_encoding_avoids(u[0], 47);
    lemma_scalar_encoding_avoids(u[0], 92);
    assert(!is_separator_byte(b[0]));
    if starts_with_scheme(b) {
        lemma_scheme_needs_a_colon(b);
        let k = choose|k: int| 0 <= k < b.len() && b[k] == 58;
        assert(b[k] != 58u8);
    }
    assert forall|i: int| 0 <= i < b.len() implies b[i] != PERCENT by {
        assert(b[i] != 37u8);
    }
    lemma_decode_without_percent(b);
    vstd::utf8::encode_utf8_valid_utf8(u);
    vstd::utf8::encode_utf8_decode_utf8(u);
}

/// Any text, with every byte escaped as `%XX`, names itself as a relative
/// path.
pub proof fn lemma_escaped_text_names_itself(x: Seq<u8>)
    requires
        x.len() > 0,
        valid_utf8(x),
    ensures
        plain_relative_path(percent_encode_all(x)) == Some(decode_utf8(x)),
{
    let e = percent_encode_all(x);
    lemma_escaped_bytes(x);
    assert forall|i: int| 0 <= i < e.len() implies !is_query_or_fragment_start(#[trigger] e[i]) by {
        assert(e[i] == PERCENT || is_hex_digit(e[i]));
    }
    lemma_whole_path(e);
    assert(e[0] == PERCENT);
    lemma_escaping_every_byte_round_trips(x);
}

/// A drive letter, as in `C:logo.png`, reads as a URL scheme.
pub proof fn lemma_drive_letter_is_a_scheme(b: Seq<u8>)
    requires
        b.len() >= 2,
        is_ascii_letter(b[0]),
        b[1] == 58,
    ensures
        starts_with_scheme(b),
{
    assert(b[1] == 58);
}

} // verus!
