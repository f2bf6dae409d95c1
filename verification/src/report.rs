//! What the program prints after an upload: the `s3://` location of each
//! uploaded object, or, when a public base URL is configured, an HTML `<img>`
//! tag for the resized image (wrapped in a link to the original when that was
//! uploaded too). Also the key under which the original is stored.
use vstd::prelude::*;

use crate::text;

verus! {

/// The ASCII digit for `d < 10`.
pub open spec fn digit_char(d: nat) -> char {
    ((d + 48) as u32) as char
}

/// The decimal notation of `n`, without leading zeros.
pub open spec fn decimal(n: nat) -> Seq<char>
    decreases n,
{
    if n < 10 {
        seq![digit_char(n)]
    } else {
        decimal(n / 10).push(digit_char(n % 10))
    }
}

/// The digit `d` (below 10) as a one-character string.
fn digit_string(d: u32) -> (r: String)
    requires
        d < 10,
    ensures
        r@ == seq![digit_char(d as nat)],
{
    let digits = "0123456789";
    proof {
        reveal_strlit("0123456789");
    }
    let piece = digits.substring_char(d as usize, d as usize + 1);
    assert(piece@ =~= seq![digit_char(d as nat)]);
    String::from_str(piece)
}

/// The decimal notation of `n`.
pub fn decimal_string(n: u32) -> (r: String)
    ensures
        r@ == decimal(n as nat),
    decreases n,
{
    if n < 10 {
        digit_string(n)
    } else {
        let mut s = decimal_string(n / 10);
        let d = digit_string(n % 10);
        s.append(d.as_str());
        assert(s@ =~= decimal((n / 10) as nat).push(digit_char((n % 10) as nat)));
        s
    }
}

/// `s3://bucket/key`.
pub open spec fn s3_location_text(bucket: Seq<char>, key: Seq<char>) -> Seq<char> {
    "s3://"@ + bucket + "/"@ + key
}

/// The `s3://bucket/key` location of an uploaded object.
pub fn s3_location(bucket: &str, key: &str) -> (r: String)
    ensures
        r@ == s3_location_text(bucket@, key@),
{
    let mut s = String::from_str("s3://");
    s.append(bucket);
    s.append("/");
    s.append(key);
    s
}

/// `key` without the suffix `.ext` when it ends with it.
pub open spec fn without_extension(key: Seq<char>, ext: Seq<char>) -> Seq<char> {
    let suffix = "."@ + ext;
    if key.len() >= suffix.len() && key.skip(key.len() - suffix.len()) == suffix {
        key.take(key.len() - suffix.len())
    } else {
        key
    }
}

/// The key of the original: that of the resized image without its extension,
/// `_orig`, and the original's extension.
pub open spec fn original_key_text(resized_key: Seq<char>, resized_ext: Seq<char>, original_ext: Seq<char>) -> Seq<char> {
    without_extension(resized_key, resized_ext) + "_orig."@ + original_ext
}

/// The key under which the original of an upload is stored:
/// `{resized key without its extension}_orig.{original extension}`.
pub fn original_key(resized_key: &str, resized_ext: &str, original_ext: &str) -> (r: String)
    ensures
        r@ == original_key_text(resized_key@, resized_ext@, original_ext@),
{
    let key = text::chars_of(resized_key);
    let mut suffix = String::from_str(".");
    suffix.append(resized_ext);
    let sv = text::chars_of(suffix.as_str());
    let ghost sfx = "."@ + resized_ext@;
    let mut stem_end = key.len();
    if key.len() >= sv.len() {
        let start = key.len() - sv.len();
        let mut i: usize = 0;
        let mut matches = true;
        while i < sv.len()
            invariant
                start + sv@.len() == key@.len(),
                sv@.len() == sv.len(),
                key@.len() == key.len(),
                i <= sv@.len(),
                matches == forall|j: int| 0 <= j < i ==> key@[start + j] == sv@[j],
            decreases sv@.len() - i,
        {
            if key[start + i] != sv[i] {
                matches = false;
            }
            i = i + 1;
        }
        if matches {
            assert(key@.skip(start as int) =~= sv@);
            stem_end = start;
        } else {
            assert(key@.skip(start as int) != sv@) by {
                let j = choose|j: int| 0 <= j < sv@.len() && key@[start + j] != sv@[j];
                assert(key@.skip(start as int)[j] == key@[start + j]);
            }
        }
    }
    assert(key@.take(stem_end as int) =~= resized_key@.subrange(0, stem_end as int));
    let mut r = text::substring(resized_key, 0, stem_end);
    r.append("_orig.");
    r.append(original_ext);
    proof {
        if stem_end == key@.len() {
            assert(key@.take(stem_end as int) =~= key@);
        }
    }
    r
}

/// `<img src="{base_url}/{key}" alt="{alt}" width={width} height={height}>`.
pub open spec fn image_tag_text(
    base_url: Seq<char>,
    key: Seq<char>,
    alt: Seq<char>,
    width: u32,
    height: u32,
) -> Seq<char> {
    "<img src=\""@ + base_url + "/"@ + key + "\" alt=\""@ + alt + "\" width="@ + decimal(
        width as nat,
    ) + " height="@ + decimal(height as nat) + ">"@
}

/// The HTML `<img>` tag for an uploaded image, addressed under the public
/// base URL.
pub fn image_tag(base_url: &str, key: &str, alt: &str, width: u32, height: u32) -> (r: String)
    ensures
        r@ == image_tag_text(base_url@, key@, alt@, width, height),
{
    let mut s = String::from_str("<img src=\"");
    s.append(base_url);
    s.append("/");
    s.append(key);
    s.append("\" alt=\"");
    s.append(alt);
    s.append("\" width=");
    let w = decimal_string(width);
    s.append(w.as_str());
    s.append(" height=");
    let h = decimal_string(height);
    s.append(h.as_str());
    s.append(">");
    s
}

/// `<a href="{base_url}/{key}">{inner}</a>`.
pub open spec fn link_text(base_url: Seq<char>, key: Seq<char>, inner: Seq<char>) -> Seq<char> {
    "<a href=\""@ + base_url + "/"@ + key + "\">"@ + inner + "</a>"@
}

/// Wraps `inner` in a link to the object `key` under the public base URL.
pub fn link_to(base_url: &str, key: &str, inner: &str) -> (r: String)
    ensures
        r@ == link_text(base_url@, key@, inner@),
{
    let mut s = String::from_str("<a href=\"");
    s.append(base_url);
    s.append("/");
    s.append(key);
    s.append("\">");
    s.append(inner);
    s.append("</a>");
    s
}

/// The lines printed after an upload: with a public base URL, the image tag
/// of the uploaded image, wrapped in a link to the original when one was
/// uploaded too; without one, the S3 location of the image and then that of
/// the original, if any.
pub open spec fn report_text(
    bucket: Seq<char>,
    base_url: Option<Seq<char>>,
    key: Seq<char>,
    original: Option<Seq<char>>,
    alt: Seq<char>,
    width: u32,
    height: u32,
) -> Seq<Seq<char>> {
    match base_url {
        Some(base) => {
            let tag = image_tag_text(base, key, alt, width, height);
            match original {
                Some(o) => seq![link_text(base, o, tag)],
                None => seq![tag],
            }
        },
        None => match original {
            Some(o) => seq![s3_location_text(bucket, key), s3_location_text(bucket, o)],
            None => seq![s3_location_text(bucket, key)],
        },
    }
}

/// The lines to print after uploading the image under `key` (and its
/// original under `original`, if it was uploaded), as [`report_text`] says.
pub fn report_lines(
    bucket: &str,
    base_url: Option<&str>,
    key: &str,
    original: Option<&str>,
    alt: &str,
    width: u32,
    height: u32,
) -> (r: Vec<String>)
    ensures
        r@.len() == report_text(
            bucket@,
            match base_url {
                Some(b) => Some(b@),
                None => None,
            },
            key@,
            match original {
                Some(o) => Some(o@),
                None => None,
            },
            alt@,
            width,
            height,
        ).len(),
        forall|i: int|
            0 <= i < r@.len() ==> #[trigger] r@[i]@ == report_text(
                bucket@,
                match base_url {
                    Some(b) => Some(b@),
                    None => None,
                },
                key@,
                match original {
                    Some(o) => Some(o@),
                    None => None,
                },
                alt@,
                width,
                height,
            )[i],
{
    let mut lines: Vec<String> = Vec::new();
    match base_url {
        Some(base) => {
            let tag = image_tag(base, key, alt, width, height);
            match original {
                Some(o) => lines.push(link_to(base, o, tag.as_str())),
                None => lines.push(tag),
            }
        },
        None => {
            lines.push(s3_location(bucket, key));
            match original {
                Some(o) => lines.push(s3_location(bucket, o)),
                None => {},
            }
        },
    }
    lines
}

/// The folder to upload into: the one given on the command line, else the
/// configured default folder.
pub fn upload_folder(given: Option<String>, default_folder: &str) -> (r: String)
    ensures
        r@ == (match given {
            Some(f) => f@,
            None => default_folder@,
        }),
{
    match given {
        Some(f) => f,
        None => String::from_str(default_folder),
    }
}

// ---------------------------------------------------------------------------
// Laws
// ---------------------------------------------------------------------------

/// The original of an upload is stored next to it: for a resized key
/// `k.e` (whatever `k` holds, dots included) the original's key is
/// `k_orig.o`; only the trailing `.e` is replaced. Different resized keys
/// with one extension give different original keys, and a key that does not
/// end in `.e` keeps all of its text.
pub proof fn law_original_key_replaces_only_the_extension(
    stem: Seq<char>,
    other: Seq<char>,
    ext: Seq<char>,
    original_ext: Seq<char>,
)
    ensures
        original_key_text(stem + "."@ + ext, ext, original_ext) == stem + "_orig."@ + original_ext,
        original_key_text(stem + "."@ + ext, ext, original_ext) == original_key_text(
            other + "."@ + ext,
            ext,
            original_ext,
        ) ==> stem == other,
        !(stem.len() >= ext.len() + 1 && stem.skip(stem.len() - ext.len() - 1) == "."@ + ext)
            ==> original_key_text(stem, ext, original_ext) == stem + "_orig."@ + original_ext,
{
    reveal_strlit(".");
    reveal_strlit("_orig.");
    let key = stem + "."@ + ext;
    let suffix = "."@ + ext;
    assert(key.skip(key.len() - suffix.len()) =~= suffix);
    assert(key.take(key.len() - suffix.len()) =~= stem);
    let key2 = other + "."@ + ext;
    assert(key2.skip(key2.len() - suffix.len()) =~= suffix);
    assert(key2.take(key2.len() - suffix.len()) =~= other);
    let tail = "_orig."@ + original_ext;
    assert(stem + "_orig."@ + original_ext =~= stem + tail);
    assert(other + "_orig."@ + original_ext =~= other + tail);
    if stem + tail == other + tail {
        assert(stem.len() == other.len());
        assert((stem + tail).take(stem.len() as int) =~= stem);
        assert((other + tail).take(other.len() as int) =~= other);
    }
}

proof fn lemma_decimal(n: nat)
    ensures
        text::all_digits(decimal(n)),
        text::digits_value(decimal(n)) == n,
        decimal(n).len() > 0,
        decimal(n)[0] != '+',
    decreases n,
{
    assert('0' as u32 == 48);
    if n < 10 {
        assert(digit_char(n) as u32 == n + 48);
        assert(text::digit_value(digit_char(n)) == n);
        assert(decimal(n).drop_last() =~= Seq::<char>::empty());
        assert(text::digits_value(decimal(n)) == text::digits_value(decimal(n).drop_last()) * 10
            + text::digit_value(decimal(n).last()));
    } else {
        assert(digit_char(n % 10) as u32 == n % 10 + 48);
        lemma_decimal(n / 10);
        let s = decimal(n / 10);
        assert(decimal(n).drop_last() =~= s);
        assert(decimal(n).last() == digit_char(n % 10));
        assert((n / 10) * 10 + n % 10 == n) by (nonlinear_arith);
        assert(text::digit_value(digit_char(n % 10)) == n % 10);
        assert(text::digits_value(decimal(n)) == text::digits_value(s) * 10 + text::digit_value(
            decimal(n).last(),
        ));
        assert(decimal(n)[0] == s[0]);
        assert forall|i: int| 0 <= i < decimal(n).len() implies text::is_digit(
            #[trigger] decimal(n)[i],
        ) by {
            if i < s.len() {
                assert(decimal(n)[i] == s[i]);
            }
        }
    }
}

/// A number printed in decimal reads back as the same number: the width and
/// height that the report prints are what `u32::from_str` (the reader of the
/// configuration's dimensions) makes of them.
pub proof fn law_decimal_reads_back(n: u32)
    ensures
        text::parse_u32(decimal(n as nat)) == Some(n),
{
    lemma_decimal(n as nat);
    assert(text::unsigned_digits(decimal(n as nat)) == decimal(n as nat));
}

} // verus!
