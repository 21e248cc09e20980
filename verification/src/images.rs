//! Image delivery: where the resized form of a stored image is found.
//!
//! Resizing is done by the image delivery service. The library only says
//! which address asks for it.

use crate::hash::{blake3_hex, content_hash};
use vstd::prelude::*;
use vstd::string::StringExecFns;

verus! {

/// The width that is asked for where the request names none.
pub const DEFAULT_WIDTH: u32 = 800;

/// The quality that is asked for where the request names none.
pub const DEFAULT_QUALITY: u8 = 85;

/// A request for the optimized form of a stored image.
#[derive(Debug)]
pub struct ImageOptimizeRequest {
    pub key: String,
    pub width: Option<u32>,
    pub quality: Option<u8>,
    pub format: Option<String>,
}

/// What is told about an optimized image.
#[derive(Debug)]
pub struct OptimizedImage {
    pub optimized_url: String,
    pub original_size: usize,
    pub cache_key: String,
}

/// The character of one decimal digit.
pub open spec fn digit_char(d: nat) -> char {
    if d == 0 {
        '0'
    } else if d == 1 {
        '1'
    } else if d == 2 {
        '2'
    } else if d == 3 {
        '3'
    } else if d == 4 {
        '4'
    } else if d == 5 {
        '5'
    } else if d == 6 {
        '6'
    } else if d == 7 {
        '7'
    } else if d == 8 {
        '8'
    } else {
        '9'
    }
}

/// The number in decimal digits, without a sign and without leading zeros.
pub open spec fn decimal(n: nat) -> Seq<char>
    decreases n,
{
    if n < 10 {
        seq![digit_char(n)]
    } else {
        decimal(n / 10).push(digit_char(n % 10))
    }
}

/// The format that is asked for where the request names none.
pub open spec fn default_format() -> Seq<char> {
    "webp"@
}

/// The address that asks the delivery service of `account` for the image
/// `key` in the given width, quality and format.
pub open spec fn delivery_url(
    account: Seq<char>,
    key: Seq<char>,
    width: nat,
    quality: nat,
    format: Seq<char>,
) -> Seq<char> {
    "https://imagedelivery.net/"@ + account + "/"@ + key + "?w="@ + decimal(width) + "&q="@
        + decimal(quality) + "&f="@ + format
}

/// The address for a request, with the defaults filled in.
pub open spec fn url_of(
    account: Seq<char>,
    key: Seq<char>,
    width: Option<u32>,
    quality: Option<u8>,
    format: Option<Seq<char>>,
) -> Seq<char> {
    delivery_url(
        account,
        key,
        match width {
            Some(w) => w as nat,
            None => DEFAULT_WIDTH as nat,
        },
        match quality {
            Some(q) => q as nat,
            None => DEFAULT_QUALITY as nat,
        },
        match format {
            Some(f) => f,
            None => default_format(),
        },
    )
}

fn digit_text(d: u64) -> (s: &'static str)
    requires
        d < 10,
    ensures
        s@ == seq![digit_char(d as nat)],
{
    proof {
        reveal_strlit("0");
        reveal_strlit("1");
        reveal_strlit("2");
        reveal_strlit("3");
        reveal_strlit("4");
        reveal_strlit("5");
        reveal_strlit("6");
        reveal_strlit("7");
        reveal_strlit("8");
        reveal_strlit("9");
    }
    let s = if d == 0 {
        "0"
    } else if d == 1 {
        "1"
    } else if d == 2 {
        "2"
    } else if d == 3 {
        "3"
    } else if d == 4 {
        "4"
    } else if d == 5 {
        "5"
    } else if d == 6 {
        "6"
    } else if d == 7 {
        "7"
    } else if d == 8 {
        "8"
    } else {
        "9"
    };
    assert(s@ =~= seq![digit_char(d as nat)]);
    s
}

/// Writes `n` in decimal digits at the end of `text`.
pub fn push_decimal(text: &mut String, n: u64)
    ensures
        final(text)@ == old(text)@ + decimal(n as nat),
    decreases n,
{
    if n >= 10 {
        push_decimal(text, n / 10);
    }
    text.append(digit_text(n % 10));
    assert(text@ =~= old(text)@ + decimal(n as nat));
}

/// The address of the optimized form of the image that `request` names.
/// Where the request leaves the width, the quality or the format open,
/// 800, 85 and `webp` are asked for.
pub fn optimized_url(account: &str, request: &ImageOptimizeRequest) -> (url: String)
    ensures
        url@ == url_of(
            account@,
            request.key@,
            request.width,
            request.quality,
            crate::record::opt_text(request.format),
        ),
{
    let width: u32 = match request.width {
        Some(w) => w,
        None => DEFAULT_WIDTH,
    };
    let quality: u8 = match request.quality {
        Some(q) => q,
        None => DEFAULT_QUALITY,
    };
    let mut url = "https://imagedelivery.net/".to_owned();
    url.append(account);
    url.append("/");
    url.append(request.key.as_str());
    url.append("?w=");
    push_decimal(&mut url, width as u64);
    url.append("&q=");
    push_decimal(&mut url, quality as u64);
    url.append("&f=");
    match &request.format {
        Some(f) => {
            url.append(f.as_str());
        },
        None => {
            url.append("webp");
        },
    }
    url
}

/// What is told about the image `bytes` that `request` names: where its
/// optimized form is, how large the stored image is, and its fingerprint:
/// the BLAKE3 hash of its bytes in hexadecimal digits.
pub fn describe(account: &str, request: &ImageOptimizeRequest, bytes: &[u8]) -> (out:
    OptimizedImage)
    ensures
        out.optimized_url@ == url_of(
            account@,
            request.key@,
            request.width,
            request.quality,
            crate::record::opt_text(request.format),
        ),
        out.original_size == bytes@.len(),
        out.cache_key@ == blake3_hex(bytes@),
{
    OptimizedImage {
        optimized_url: optimized_url(account, request),
        original_size: bytes.len(),
        cache_key: content_hash(bytes),
    }
}

} // verus!
