//! Rich output payloads: finding an image in a MIME bundle, and decoding
//! its base64 text.

use vstd::prelude::*;
use crate::model::bundle_view;
use vstd::string::StringSliceAdditionalSpecFns;

verus! {

/// The kinds of rich payload a kernel sends that the notebook keeps.
#[derive(Clone, Copy, Debug, PartialEq, Eq, Structural)]
pub enum MediaKind {
    Plain,
    Html,
    Latex,
    Javascript,
    Markdown,
    Svg,
    Png,
    Jpeg,
    Json,
    /// Any other kind; its payload is not kept.
    Unsupported,
}

/// The MIME type of each kind.
pub open spec fn mime_of(kind: MediaKind) -> Seq<char> {
    match kind {
        MediaKind::Plain => "text/plain"@,
        MediaKind::Html => "text/html"@,
        MediaKind::Latex => "text/latex"@,
        MediaKind::Javascript => "application/javascript"@,
        MediaKind::Markdown => "text/markdown"@,
        MediaKind::Svg => "image/svg+xml"@,
        MediaKind::Png => "image/png"@,
        MediaKind::Jpeg => "image/jpeg"@,
        MediaKind::Json => "application/json"@,
        MediaKind::Unsupported => "application/octet-stream"@,
    }
}

/// The MIME type of `kind`.
pub fn mime_name(kind: MediaKind) -> (r: String)
    ensures
        r@ == mime_of(kind),
{
    match kind {
        MediaKind::Plain => String::from_str("text/plain"),
        MediaKind::Html => String::from_str("text/html"),
        MediaKind::Latex => String::from_str("text/latex"),
        MediaKind::Javascript => String::from_str("application/javascript"),
        MediaKind::Markdown => String::from_str("text/markdown"),
        MediaKind::Svg => String::from_str("image/svg+xml"),
        MediaKind::Png => String::from_str("image/png"),
        MediaKind::Jpeg => String::from_str("image/jpeg"),
        MediaKind::Json => String::from_str("application/json"),
        MediaKind::Unsupported => String::from_str("application/octet-stream"),
    }
}

/// The (MIME type, payload) entry a payload of `kind` is stored as; an
/// unsupported payload is stored empty.
pub fn media_pair(kind: MediaKind, payload: String) -> (r: (String, String))
    ensures
        r.0@ == mime_of(kind),
        kind != MediaKind::Unsupported ==> r.1 == payload,
        kind == MediaKind::Unsupported ==> r.1@ == Seq::<char>::empty(),
{
    let mime = mime_name(kind);
    match kind {
        MediaKind::Unsupported => (mime, String::new()),
        _ => (mime, payload),
    }
}

/// The kind a stored MIME type is written back as: the kind with that MIME
/// type among the textual and image kinds, else plain text.
pub open spec fn kind_of_mime(mime: Seq<char>) -> MediaKind {
    if mime == "text/plain"@ {
        MediaKind::Plain
    } else if mime == "text/html"@ {
        MediaKind::Html
    } else if mime == "text/markdown"@ {
        MediaKind::Markdown
    } else if mime == "text/latex"@ {
        MediaKind::Latex
    } else if mime == "image/png"@ {
        MediaKind::Png
    } else if mime == "image/jpeg"@ {
        MediaKind::Jpeg
    } else if mime == "image/svg+xml"@ {
        MediaKind::Svg
    } else if mime == "application/javascript"@ {
        MediaKind::Javascript
    } else {
        MediaKind::Plain
    }
}

/// The kind to write a stored entry back as (see `kind_of_mime`).
pub fn media_kind_of(mime: &str) -> (r: MediaKind)
    ensures
        r == kind_of_mime(mime@),
{
    let m = String::from_str(mime);
    if m.eq(&String::from_str("text/plain")) {
        MediaKind::Plain
    } else if m.eq(&String::from_str("text/html")) {
        MediaKind::Html
    } else if m.eq(&String::from_str("text/markdown")) {
        MediaKind::Markdown
    } else if m.eq(&String::from_str("text/latex")) {
        MediaKind::Latex
    } else if m.eq(&String::from_str("image/png")) {
        MediaKind::Png
    } else if m.eq(&String::from_str("image/jpeg")) {
        MediaKind::Jpeg
    } else if m.eq(&String::from_str("image/svg+xml")) {
        MediaKind::Svg
    } else if m.eq(&String::from_str("application/javascript")) {
        MediaKind::Javascript
    } else {
        MediaKind::Plain
    }
}

/// Textual and image payloads keep their kind when stored and written
/// back.
pub proof fn lemma_media_kind_round_trip(kind: MediaKind)
    requires
        kind != MediaKind::Json,
        kind != MediaKind::Unsupported,
    ensures
        kind_of_mime(mime_of(kind)) == kind,
{
    let plain = "text/plain"@;
    let html = "text/html"@;
    let markdown = "text/markdown"@;
    let latex = "text/latex"@;
    let png = "image/png"@;
    let jpeg = "image/jpeg"@;
    let svg = "image/svg+xml"@;
    let js = "application/javascript"@;
    reveal_strlit("text/plain");
    reveal_strlit("text/html");
    reveal_strlit("text/markdown");
    reveal_strlit("text/latex");
    reveal_strlit("image/png");
    reveal_strlit("image/jpeg");
    reveal_strlit("image/svg+xml");
    reveal_strlit("application/javascript");
    assert(plain[5] == 'p' && latex[5] == 'l' && html[5] == 'h' && markdown[5] == 'm');
    assert(png[0] == 'i' && jpeg[0] == 'i' && svg[0] == 'i' && js[0] == 'a');
    assert(plain[0] == 't' && html[0] == 't' && markdown[0] == 't' && latex[0] == 't');
    assert(png[6] == 'p' && jpeg[6] == 'j' && svg[6] == 's');
    match kind {
        MediaKind::Plain => {},
        MediaKind::Html => {
            assert(html != plain);
        },
        MediaKind::Markdown => {
            assert(markdown != plain && markdown != html);
        },
        MediaKind::Latex => {
            assert(latex != plain && latex != html && latex != markdown);
        },
        MediaKind::Png => {
            assert(png != plain && png != html && png != markdown && png != latex);
        },
        MediaKind::Jpeg => {
            assert(jpeg != plain && jpeg != html && jpeg != markdown && jpeg != latex && jpeg
                != png);
        },
        MediaKind::Svg => {
            assert(svg != plain && svg != html && svg != markdown && svg != latex && svg != png
                && svg != jpeg);
        },
        MediaKind::Javascript => {
            assert(js != plain && js != html && js != markdown && js != latex && js != png && js
                != jpeg && js != svg);
        },
        _ => {},
    }
}

/// The payload stored under `mime` in a bundle: the first entry with that
/// MIME type.
pub open spec fn bundle_lookup(data: Seq<(Seq<char>, Seq<char>)>, mime: Seq<char>) -> Option<
    Seq<char>,
>
    decreases data.len(),
{
    if data.len() == 0 {
        None
    } else if data[0].0 == mime {
        Some(data[0].1)
    } else {
        bundle_lookup(data.drop_first(), mime)
    }
}

fn lookup<'a>(data: &'a Vec<(String, String)>, mime: &str) -> (r: Option<&'a String>)
    ensures
        r matches Some(s) ==> bundle_lookup(bundle_view(data@), mime@) == Some(s@),
        r is None ==> bundle_lookup(bundle_view(data@), mime@) is None,
{
    let wanted = String::from_str(mime);
    let mut i: usize = 0;
    assert(bundle_view(data@).subrange(0, data@.len() as int) =~= bundle_view(data@));
    while i < data.len()
        invariant
            i <= data@.len(),
            wanted@ == mime@,
            bundle_lookup(bundle_view(data@), mime@) == bundle_lookup(
                bundle_view(data@).subrange(i as int, data@.len() as int),
                mime@,
            ),
        decreases data@.len() - i,
    {
        proof {
            let rest = bundle_view(data@).subrange(i as int, data@.len() as int);
            assert(rest.drop_first() =~= bundle_view(data@).subrange(i + 1, data@.len() as int));
            assert(rest[0] == (data@[i as int].0@, data@[i as int].1@));
        }
        if data[i].0.eq(&wanted) {
            return Some(&data[i].1);
        }
        i = i + 1;
    }
    None
}

/// Whether a bundle holds an image that can be shown (PNG or JPEG).
pub fn has_renderable_image(data: &Vec<(String, String)>) -> (r: bool)
    ensures
        r <==> bundle_lookup(bundle_view(data@), "image/png"@) is Some || bundle_lookup(
            bundle_view(data@),
            "image/jpeg"@,
        ) is Some,
{
    lookup(data, "image/png").is_some() || lookup(data, "image/jpeg").is_some()
}

/// The base64 text of a bundle's image: the PNG if there is one, else the
/// JPEG.
pub fn get_image_data(data: &Vec<(String, String)>) -> (r: Option<&String>)
    ensures
        bundle_lookup(bundle_view(data@), "image/png"@) is Some ==> (r matches Some(s)
            && bundle_lookup(bundle_view(data@), "image/png"@) == Some(s@)),
        bundle_lookup(bundle_view(data@), "image/png"@) is None ==> match r {
            Some(s) => bundle_lookup(bundle_view(data@), "image/jpeg"@) == Some(s@),
            None => bundle_lookup(bundle_view(data@), "image/jpeg"@) is None,
        },
{
    match lookup(data, "image/png") {
        Some(s) => Some(s),
        None => lookup(data, "image/jpeg"),
    }
}

/// The 6-bit value of a base64 digit (standard alphabet), or 255 when `b`
/// is no digit.
pub open spec fn sextet(b: u8) -> u8 {
    if 65 <= b <= 90 {
        (b - 65) as u8
    } else if 97 <= b <= 122 {
        (b - 71) as u8
    } else if 48 <= b <= 57 {
        (b + 4) as u8
    } else if b == 43 {
        62
    } else if b == 47 {
        63
    } else {
        255
    }
}

fn sextet_of(b: u8) -> (r: u8)
    ensures
        r == sextet(b),
{
    if 65 <= b && b <= 90 {
        b - 65
    } else if 97 <= b && b <= 122 {
        b - 71
    } else if 48 <= b && b <= 57 {
        b + 4
    } else if b == 43 {
        62
    } else if b == 47 {
        63
    } else {
        255
    }
}

/// The bytes of one group of four base64 characters. The third and fourth
/// may be `=` padding: a `=` third ends the group after one byte, a `=`
/// fourth after two.
pub open spec fn decode_group(a: u8, b: u8, c: u8, d: u8) -> Option<Seq<u8>> {
    let (x, y, z, w) = (sextet(a), sextet(b), sextet(c), sextet(d));
    if x == 255 || y == 255 {
        None
    } else if c == 61 {
        Some(seq![((x << 2) | (y >> 4)) as u8])
    } else if z == 255 {
        None
    } else if d == 61 {
        Some(seq![((x << 2) | (y >> 4)) as u8, ((y << 4) | (z >> 2)) as u8])
    } else if w == 255 {
        None
    } else {
        Some(
            seq![((x << 2) | (y >> 4)) as u8, ((y << 4) | (z >> 2)) as u8, ((z << 6) | w) as u8],
        )
    }
}

/// The bytes of the first `k` groups of `s`, or `None` when one of them is
/// not valid.
pub open spec fn decode_groups(s: Seq<u8>, k: int) -> Option<Seq<u8>>
    decreases k,
{
    if k <= 0 {
        Some(Seq::empty())
    } else {
        match decode_groups(s, k - 1) {
            None => None,
            Some(p) => match decode_group(
                s[4 * (k - 1)],
                s[4 * (k - 1) + 1],
                s[4 * (k - 1) + 2],
                s[4 * (k - 1) + 3],
            ) {
                None => None,
                Some(g) => Some(p + g),
            },
        }
    }
}

/// Base64 (standard alphabet, padded) of `s`: `None` unless its length is
/// a multiple of four and every group is valid.
pub open spec fn base64_decoded(s: Seq<u8>) -> Option<Seq<u8>> {
    if s.len() % 4 != 0 {
        None
    } else {
        decode_groups(s, s.len() as int / 4)
    }
}

proof fn lemma_failure_persists(s: Seq<u8>, k: int, m: int)
    requires
        0 <= k <= m,
        decode_groups(s, k) is None,
    ensures
        decode_groups(s, m) is None,
    decreases m - k,
{
    if k < m {
        lemma_failure_persists(s, k, m - 1);
    }
}

/// Decodes base64 text (standard alphabet, with padding).
pub fn base64_decode(input: &str) -> (r: Option<Vec<u8>>)
    ensures
        r matches Some(v) ==> base64_decoded(input.spec_bytes()) == Some(v@),
        r is None ==> base64_decoded(input.spec_bytes()) is None,
{
    let bytes = input.as_bytes();
    let len = bytes.len();
    if len % 4 != 0 {
        return None;
    }
    let ghost s = bytes@;
    assert(s == input.spec_bytes());
    let mut out: Vec<u8> = Vec::new();
    let mut i: usize = 0;
    while i < len
        invariant
            s == bytes@,
            s == input.spec_bytes(),
            len == s.len(),
            len % 4 == 0,
            i % 4 == 0,
            i <= len,
            decode_groups(s, i as int / 4) == Some(out@),
        decreases len - i,
    {
        let ghost k = i as int / 4 + 1;
        assert(4 * (k - 1) == i);
        let a = sextet_of(bytes[i]);
        let b = sextet_of(bytes[i + 1]);
        if a == 255 || b == 255 {
            proof {
                assert(decode_group(s[i as int], s[i + 1], s[i + 2], s[i + 3]) is None);
                assert(decode_groups(s, k) is None);
                lemma_failure_persists(s, k, len as int / 4);
                assert(base64_decoded(s) is None);
            }
            return None;
        }
        out.push((a << 2) | (b >> 4));
        if bytes[i + 2] != 61 {
            let c = sextet_of(bytes[i + 2]);
            if c == 255 {
                proof {
                    assert(decode_group(s[i as int], s[i + 1], s[i + 2], s[i + 3]) is None);
                    assert(decode_groups(s, k) is None);
                    lemma_failure_persists(s, k, len as int / 4);
                    assert(base64_decoded(s) is None);
                }
                return None;
            }
            out.push((b << 4) | (c >> 2));
            if bytes[i + 3] != 61 {
                let d = sextet_of(bytes[i + 3]);
                if d == 255 {
                    proof {
                        assert(decode_group(s[i as int], s[i + 1], s[i + 2], s[i + 3]) is None);
                        assert(decode_groups(s, k) is None);
                        lemma_failure_persists(s, k, len as int / 4);
                    }
                    return None;
                }
                out.push((c << 6) | d);
            }
        }
        proof {
            assert((i + 4) as int / 4 == k);
            let p = decode_groups(s, k - 1)->0;
            let g = decode_group(s[i as int], s[i + 1], s[i + 2], s[i + 3])->0;
            assert(out@ =~= p + g);
        }
        i = i + 4;
    }
    Some(out)
}

} // verus!
