//! The image proxy's rules: which upstream URLs may be fetched, and where
//! a fetched image is cached. The fetching, hashing and resizing live
//! outside the library.

use crate::text::{dec_of, u64_to_dec};
use vstd::prelude::*;

verus! {

/// The one upstream images may be proxied from.
pub const ALLOWED_URL_PREFIX: &'static str = "https://image.tmdb.org/t/p";

/// `p` is a prefix of `s`.
pub open spec fn is_prefix(p: Seq<char>, s: Seq<char>) -> bool {
    p.len() <= s.len() && s.subrange(0, p.len() as int) == p
}

/// Whether the proxy may fetch `url`: only the catalog's image host is
/// ever contacted.
pub fn is_url_allowed(url: &str) -> (r: bool)
    ensures
        r == is_prefix(ALLOWED_URL_PREFIX@, url@),
{
    let p = ALLOWED_URL_PREFIX;
    let pn = p.unicode_len();
    let n = url.unicode_len();
    if pn > n {
        return false;
    }
    let head = url.substring_char(0, pn);
    let r = crate::text::str_eq(head, p);
    proof {
        assert(head@ == url@.subrange(0, p@.len() as int));
    }
    r
}

/// The size a proxied image is requested at.
pub struct TranscodeParams {
    pub width: Option<u32>,
    pub height: Option<u32>,
}

/// The cache suffix of a variant: `original` for the image as fetched,
/// `<w>x<h>` for a resize, zero standing for an unconstrained side.
pub open spec fn variant_suffix(size: Option<(Option<u32>, Option<u32>)>) -> Seq<char> {
    match size {
        Some((w, h)) => dec_of(
            match w {
                Some(v) => v as nat,
                None => 0,
            },
        ) + "x"@ + dec_of(
            match h {
                Some(v) => v as nat,
                None => 0,
            },
        ),
        None => "original"@,
    }
}

/// The file name a cached image variant lives under:
/// `<hash>_<suffix>.jpeg`, with the URL's hash rendered outside the
/// library.
pub fn cache_file_name(hash_hex: &str, size: Option<(Option<u32>, Option<u32>)>) -> (r: String)
    ensures
        r@ == hash_hex@ + "_"@ + variant_suffix(size) + ".jpeg"@,
{
    let mut out = String::from_str(hash_hex);
    out.append("_");
    match size {
        Some((w, h)) => {
            let wv: u64 = match w {
                Some(v) => v as u64,
                None => 0,
            };
            let hv: u64 = match h {
                Some(v) => v as u64,
                None => 0,
            };
            out.append(u64_to_dec(wv).as_str());
            out.append("x");
            out.append(u64_to_dec(hv).as_str());
        },
        None => {
            out.append("original");
        },
    }
    out.append(".jpeg");
    proof {
        assert(out@ =~= hash_hex@ + "_"@ + variant_suffix(size) + ".jpeg"@);
    }
    out
}

} // verus!
