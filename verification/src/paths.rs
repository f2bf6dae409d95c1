//! File names and the places where `config.ini` is looked for.
//!
//! Paths are handled as text. The file name and extension of a path follow
//! `std::path::Path` on the platform: components are separated by `/` (and
//! on Windows also by `\`), a Windows prefix (`C:`, `\\server\share`,
//! `\\.\device`, and the verbatim `\\?\...` forms, after which only `\`
//! separates and `.` is a component) is no component, empty and `.`
//! components are skipped, and a `..` component has no file name.
use vstd::prelude::*;

use crate::jpeg;
use crate::text;
use crate::text::{chars_eq_ignore_ascii_case, chars_of, substring};

verus! {

// ---------------------------------------------------------------------------
// File names and extensions
// ---------------------------------------------------------------------------

/// Whether `c` separates components on `platform`: `/`, and on Windows
/// also `\`; after a verbatim prefix (`\\?\`) only `\` does.
pub open spec fn splits(platform: Platform, verbatim: bool, c: char) -> bool {
    (c == '/' && !verbatim) || (platform == Platform::Windows && c == '\\')
}

/// Whether a path component is skipped: empty, or `.` outside a verbatim
/// path.
pub open spec fn is_skipped_component(verbatim: bool, c: Seq<char>) -> bool {
    c.len() == 0 || (!verbatim && c == seq!['.'])
}

/// The last index in `p` of a separator.
pub open spec fn rfind_separator(platform: Platform, verbatim: bool, p: Seq<char>) -> Option<int>
    decreases p.len(),
{
    if p.len() == 0 {
        None
    } else if splits(platform, verbatim, p.last()) {
        Some(p.len() - 1)
    } else {
        rfind_separator(platform, verbatim, p.drop_last())
    }
}

/// What [`rfind_separator`] gives, stated by quantifiers.
pub proof fn lemma_rfind_separator(platform: Platform, verbatim: bool, p: Seq<char>)
    ensures
        match rfind_separator(platform, verbatim, p) {
            Some(i) => 0 <= i < p.len() && splits(platform, verbatim, p[i]) && forall|j: int|
                i < j < p.len() ==> !splits(platform, verbatim, p[j]),
            None => forall|j: int| 0 <= j < p.len() ==> !splits(platform, verbatim, p[j]),
        },
    decreases p.len(),
{
    if p.len() > 0 && !splits(platform, verbatim, p.last()) {
        lemma_rfind_separator(platform, verbatim, p.drop_last());
        assert forall|j: int| 0 <= j < p.len() - 1 implies p[j] == p.drop_last()[j] by {}
    }
}

/// Whether `c` ends a part of a Windows prefix: `\`, and `/` outside a
/// verbatim prefix.
pub open spec fn prefix_sep(verbatim: bool, c: char) -> bool {
    c == '\\' || (!verbatim && c == '/')
}

/// The first position at or after `from` of a prefix separator in `p`, or
/// the length of `p`.
pub open spec fn next_prefix_sep(p: Seq<char>, from: int, verbatim: bool) -> int
    decreases p.len() - from,
{
    if from < 0 || from >= p.len() {
        p.len() as int
    } else if prefix_sep(verbatim, p[from]) {
        from
    } else {
        next_prefix_sep(p, from + 1, verbatim)
    }
}

/// Whether `p` starts with the verbatim prefix `\\?\` (written with
/// backslashes only, and no `/` among its first eight characters).
pub open spec fn starts_verbatim(p: Seq<char>) -> bool {
    &&& p.len() >= 4
    &&& p[0] == '\\' && p[1] == '\\' && p[2] == '?' && p[3] == '\\'
    &&& forall|i: int| 0 <= i < 8 && i < p.len() ==> p[i] != '/'
}

/// Whether `p` starts with the verbatim network prefix `\\?\UNC\`.
pub open spec fn starts_verbatim_unc(p: Seq<char>) -> bool {
    starts_verbatim(p) && p.len() >= 8 && p[4] == 'U' && p[5] == 'N' && p[6] == 'C' && p[7] == '\\'
}

/// Whether `p` starts with the device prefix `\\.\` (either separator).
pub open spec fn starts_device(p: Seq<char>) -> bool {
    p.len() >= 4 && prefix_sep(false, p[0]) && prefix_sep(false, p[1]) && p[2] == '.' && prefix_sep(
        false,
        p[3],
    )
}

/// Whether `p` starts with two separators.
pub open spec fn starts_double_sep(p: Seq<char>) -> bool {
    p.len() >= 2 && prefix_sep(false, p[0]) && prefix_sep(false, p[1])
}

/// Whether `p` starts with a drive prefix: an ASCII letter and a colon.
pub open spec fn has_drive(p: Seq<char>) -> bool {
    p.len() >= 2 && p[1] == ':' && (('a' <= p[0] <= 'z') || ('A' <= p[0] <= 'Z'))
}

/// Where the Windows prefix of `p` ends (0 when it has none), as
/// `std::path::Prefix` documents the forms: `\\?\UNC\server\share`,
/// `\\?\C:` and `\\?\name` (verbatim), `\\.\device`, `\\server\share` (a
/// server and a share, both not empty) and `C:`.
pub open spec fn prefix_end(platform: Platform, p: Seq<char>) -> int {
    if platform != Platform::Windows {
        0
    } else if starts_verbatim_unc(p) {
        let server_end = next_prefix_sep(p, 8, true);
        if server_end >= p.len() {
            p.len() as int
        } else {
            next_prefix_sep(p, server_end + 1, true)
        }
    } else if starts_verbatim(p) {
        next_prefix_sep(p, 4, true)
    } else if starts_device(p) {
        next_prefix_sep(p, 4, false)
    } else if starts_double_sep(p) {
        let server_end = next_prefix_sep(p, 2, false);
        if server_end == 2 || server_end >= p.len() {
            0
        } else {
            let share_end = next_prefix_sep(p, server_end + 1, false);
            if share_end == server_end + 1 {
                0
            } else {
                share_end
            }
        }
    } else if has_drive(p) {
        2
    } else {
        0
    }
}

/// Whether `p` is a verbatim path on `platform`.
pub open spec fn is_verbatim(platform: Platform, p: Seq<char>) -> bool {
    platform == Platform::Windows && starts_verbatim(p)
}

/// `p` without its Windows prefix, if it has one.
pub open spec fn without_prefix(platform: Platform, p: Seq<char>) -> Seq<char> {
    p.skip(prefix_end(platform, p))
}

/// The last component of `p` (a path without prefix) that is not skipped.
#[verifier::opaque]
pub open spec fn last_component(platform: Platform, verbatim: bool, p: Seq<char>) -> Option<
    Seq<char>,
>
    decreases p.len(),
{
    match rfind_separator(platform, verbatim, p) {
        Some(i) => {
            proof {
                lemma_rfind_separator(platform, verbatim, p);
            }
            if is_skipped_component(verbatim, p.skip(i + 1)) {
                last_component(platform, verbatim, p.take(i))
            } else {
                Some(p.skip(i + 1))
            }
        },
        None => if is_skipped_component(verbatim, p) {
            None
        } else {
            Some(p)
        },
    }
}

/// The file name of `p` (a path without prefix), or `None` when its last
/// component is `..` (or, in a verbatim path, `.`) or it has none.
pub open spec fn file_name_in(platform: Platform, verbatim: bool, p: Seq<char>) -> Option<
    Seq<char>,
> {
    match last_component(platform, verbatim, p) {
        Some(c) => if c == seq!['.', '.'] || (verbatim && c == seq!['.']) {
            None
        } else {
            Some(c)
        },
        None => None,
    }
}

/// The file name of `p` on `platform`, as `Path::file_name` gives it.
pub open spec fn file_name(platform: Platform, p: Seq<char>) -> Option<Seq<char>> {
    file_name_in(platform, is_verbatim(platform, p), without_prefix(platform, p))
}

/// The extension of `p`, as `Path::extension` gives it: what follows the
/// last `.` of the file name, unless that `.` starts the name.
pub open spec fn extension(platform: Platform, p: Seq<char>) -> Option<Seq<char>> {
    match file_name(platform, p) {
        Some(name) => match text::rfind_char(name, '.') {
            Some(i) => if i == 0 {
                None
            } else {
                Some(name.skip(i + 1))
            },
            None => None,
        },
        None => None,
    }
}

/// Whether `c` separates path components.
fn separates(platform: Platform, verbatim: bool, c: char) -> (r: bool)
    ensures
        r == splits(platform, verbatim, c),
{
    (c == '/' && !verbatim) || (platform == Platform::Windows && c == '\\')
}

/// The last index of a separator in `v[0..hi]`.
fn rfind_separator_before(platform: Platform, verbatim: bool, v: &Vec<char>, hi: usize) -> (r:
    Option<usize>)
    requires
        hi <= v@.len(),
    ensures
        r == (match rfind_separator(platform, verbatim, v@.take(hi as int)) {
            Some(i) => Some(i as usize),
            None => None::<usize>,
        }),
{
    let mut i = hi;
    while i > 0 && !separates(platform, verbatim, v[i - 1])
        invariant
            i <= hi <= v@.len(),
            forall|j: int| i <= j < hi ==> !splits(platform, verbatim, v@[j]),
        decreases i,
    {
        i = i - 1;
    }
    proof {
        let s = v@.take(hi as int);
        lemma_rfind_separator(platform, verbatim, s);
        match rfind_separator(platform, verbatim, s) {
            Some(k) => {
                assert(s[k] == v@[k]);
                if i > 0 {
                    assert(s[i - 1] == v@[i - 1]);
                }
            },
            None => {
                if i > 0 {
                    assert(s[i - 1] == v@[i - 1]);
                }
            },
        }
    }
    if i == 0 {
        None
    } else {
        Some(i - 1)
    }
}

/// Whether `v[a..b]` is a skipped component.
fn skipped_in(verbatim: bool, v: &Vec<char>, a: usize, b: usize) -> (r: bool)
    requires
        a <= b <= v@.len(),
    ensures
        r == is_skipped_component(verbatim, v@.subrange(a as int, b as int)),
{
    if a == b {
        return true;
    }
    if verbatim {
        return false;
    }
    if b - a == 1 && v[a] == '.' {
        assert(v@.subrange(a as int, b as int) =~= seq!['.']);
        return true;
    }
    assert(v@.subrange(a as int, b as int) != seq!['.']) by {
        if v@.subrange(a as int, b as int) == seq!['.'] {
            assert(v@.subrange(a as int, b as int).len() == 1);
            assert(v@.subrange(a as int, b as int)[0] == v@[a as int]);
        }
    }
    false
}

/// The bounds of the last component of `v` that is not skipped.
fn last_component_bounds(platform: Platform, verbatim: bool, v: &Vec<char>) -> (r: Option<
    (usize, usize),
>)
    ensures
        match r {
            Some((a, b)) => a <= b <= v@.len() && last_component(platform, verbatim, v@) == Some(
                v@.subrange(a as int, b as int),
            ),
            None => last_component(platform, verbatim, v@) is None,
        },
{
    reveal(last_component);
    let mut hi = v.len();
    assert(v@.take(hi as int) =~= v@);
    loop
        invariant
            hi <= v@.len(),
            last_component(platform, verbatim, v@) == last_component(
                platform,
                verbatim,
                v@.take(hi as int),
            ),
        decreases hi,
    {
        let ghost p = v@.take(hi as int);
        proof {
            reveal(last_component);
        }
        match rfind_separator_before(platform, verbatim, v, hi) {
            Some(i) => {
                proof {
                    lemma_rfind_separator(platform, verbatim, p);
                }
                assert(p.skip(i + 1) =~= v@.subrange(i + 1, hi as int));
                if skipped_in(verbatim, v, i + 1, hi) {
                    assert(p.take(i as int) =~= v@.take(i as int));
                    hi = i;
                } else {
                    return Some((i + 1, hi));
                }
            },
            None => {
                assert(p =~= v@.subrange(0, hi as int));
                if skipped_in(verbatim, v, 0, hi) {
                    return None;
                }
                return Some((0, hi));
            },
        }
    }
}

/// Whether `v[a..b]` is `..`.
fn is_parent_in(v: &Vec<char>, a: usize, b: usize) -> (r: bool)
    requires
        a <= b <= v@.len(),
    ensures
        r == (v@.subrange(a as int, b as int) == seq!['.', '.']),
{
    let ghost s = v@.subrange(a as int, b as int);
    if b - a == 2 && v[a] == '.' && v[a + 1] == '.' {
        assert(s =~= seq!['.', '.']);
        true
    } else {
        assert(s != seq!['.', '.']) by {
            if s == seq!['.', '.'] {
                assert(s.len() == 2);
                assert(s[0] == v@[a as int]);
                assert(s[1] == v@[a + 1]);
            }
        }
        false
    }
}

/// The bounds of the file name of the path `v`.
fn file_name_bounds(platform: Platform, verbatim: bool, v: &Vec<char>) -> (r: Option<
    (usize, usize),
>)
    ensures
        match r {
            Some((a, b)) => a <= b <= v@.len() && file_name_in(platform, verbatim, v@) == Some(
                v@.subrange(a as int, b as int),
            ),
            None => file_name_in(platform, verbatim, v@) is None,
        },
{
    let found = last_component_bounds(platform, verbatim, v);
    match found {
        Some((a, b)) => {
            let parent = is_parent_in(v, a, b) || (verbatim && b - a == 1 && v[a] == '.');
            proof {
                let c = v@.subrange(a as int, b as int);
                if b - a == 1 {
                    assert(c[0] == v@[a as int]);
                    if v[a as int] == '.' {
                        assert(c =~= seq!['.']);
                    }
                }
                if c == seq!['.'] {
                    assert(c.len() == 1 && c[0] == v@[a as int]);
                }
            }
            assert(file_name_in(platform, verbatim, v@) == (if parent {
                None
            } else {
                Some(v@.subrange(a as int, b as int))
            }));
            if parent {
                None
            } else {
                Some((a, b))
            }
        },
        None => None,
    }
}

/// The last index `i` in `a..b` with `v[i] == c`, as an offset from `a`.
fn rfind_in_range(v: &Vec<char>, a: usize, b: usize, c: char) -> (r: Option<usize>)
    requires
        a <= b <= v@.len(),
    ensures
        r == (match text::rfind_char(v@.subrange(a as int, b as int), c) {
            Some(i) => Some(i as usize),
            None => None::<usize>,
        }),
{
    let ghost s = v@.subrange(a as int, b as int);
    let mut i = b;
    while i > a && v[i - 1] != c
        invariant
            a <= i <= b <= v@.len(),
            forall|j: int| i <= j < b ==> v@[j] != c,
        decreases i,
    {
        i = i - 1;
    }
    proof {
        text::lemma_rfind_char(s, c);
        match text::rfind_char(s, c) {
            Some(k) => {
                assert(s[k] == v@[a + k]);
                if i > a {
                    assert(s[i - 1 - a] == c);
                }
            },
            None => {
                if i > a {
                    assert(s[i - 1 - a] == c);
                }
            },
        }
    }
    if i == a {
        None
    } else {
        Some(i - 1 - a)
    }
}

/// Whether `c` ends a part of a Windows prefix.
fn is_prefix_sep(verbatim: bool, c: char) -> (r: bool)
    ensures
        r == prefix_sep(verbatim, c),
{
    c == '\\' || (!verbatim && c == '/')
}

/// The first position at or after `from` of a prefix separator in `v`, or
/// the length of `v`.
fn next_prefix_sep_in(v: &Vec<char>, from: usize, verbatim: bool) -> (r: usize)
    requires
        from <= v@.len(),
    ensures
        r == next_prefix_sep(v@, from as int, verbatim),
        from <= r <= v@.len(),
{
    let mut i = from;
    while i < v.len() && !is_prefix_sep(verbatim, v[i])
        invariant
            from <= i <= v@.len(),
            next_prefix_sep(v@, from as int, verbatim) == next_prefix_sep(v@, i as int, verbatim),
        decreases v@.len() - i,
    {
        i = i + 1;
    }
    i
}

/// Whether none of the first eight characters of `v` is `/`.
fn no_slash_in_first8(v: &Vec<char>) -> (r: bool)
    ensures
        r == (forall|i: int| 0 <= i < 8 && i < v@.len() ==> v@[i] != '/'),
{
    let mut i: usize = 0;
    while i < 8 && i < v.len()
        invariant
            i <= 8,
            forall|k: int| 0 <= k < i && k < v@.len() ==> v@[k] != '/',
        decreases 8 - i,
    {
        if v[i] == '/' {
            return false;
        }
        i = i + 1;
    }
    true
}

/// `path` without its Windows prefix, and whether it is a verbatim path.
fn prefix_free(platform: Platform, path: &str) -> (r: (String, bool))
    ensures
        r.0@ == without_prefix(platform, path@),
        r.1 == is_verbatim(platform, path@),
{
    let v = chars_of(path);
    let n = v.len();
    let windows = match platform {
        Platform::Windows => true,
        _ => false,
    };
    let mut end: usize = 0;
    let mut verbatim = false;
    if windows {
        let sv = n >= 4 && v[0] == '\\' && v[1] == '\\' && v[2] == '?' && v[3] == '\\'
            && no_slash_in_first8(&v);
        if sv && n >= 8 && v[4] == 'U' && v[5] == 'N' && v[6] == 'C' && v[7] == '\\' {
            verbatim = true;
            let se = next_prefix_sep_in(&v, 8, true);
            end = if se >= n {
                n
            } else {
                next_prefix_sep_in(&v, se + 1, true)
            };
        } else if sv {
            verbatim = true;
            end = next_prefix_sep_in(&v, 4, true);
        } else if n >= 4 && is_prefix_sep(false, v[0]) && is_prefix_sep(false, v[1]) && v[2] == '.'
            && is_prefix_sep(false, v[3]) {
            end = next_prefix_sep_in(&v, 4, false);
        } else if n >= 2 && is_prefix_sep(false, v[0]) && is_prefix_sep(false, v[1]) {
            let se = next_prefix_sep_in(&v, 2, false);
            if se == 2 || se >= n {
                end = 0;
            } else {
                let sh = next_prefix_sep_in(&v, se + 1, false);
                end = if sh == se + 1 {
                    0
                } else {
                    sh
                };
            }
        } else if n >= 2 && v[1] == ':' && (('a' <= v[0] && v[0] <= 'z') || ('A' <= v[0] && v[0]
            <= 'Z')) {
            end = 2;
        }
    }
    assert(end as int == prefix_end(platform, path@));
    assert(path@.subrange(end as int, n as int) =~= path@.skip(end as int));
    (substring(path, end, n), verbatim)
}

/// The extension of `path` on `platform`, as `Path::extension` gives it.
pub fn path_extension(platform: Platform, path: &str) -> (r: Option<String>)
    ensures
        match r {
            Some(e) => extension(platform, path@) == Some(e@),
            None => extension(platform, path@) is None,
        },
{
    let (rest, verbatim) = prefix_free(platform, path);
    let path = rest.as_str();
    let v = chars_of(path);
    match file_name_bounds(platform, verbatim, &v) {
        Some((a, b)) => {
            let ghost name = v@.subrange(a as int, b as int);
            proof {
                text::lemma_rfind_char(name, '.');
            }
            match rfind_in_range(&v, a, b, '.') {
                Some(k) => if k == 0 {
                    None
                } else {
                    assert(name.skip(k + 1) =~= path@.subrange(a + k + 1, b as int));
                    Some(substring(path, a + k + 1, b))
                },
                None => None,
            }
        },
        None => None,
    }
}

/// The file stem of `p`, as `Path::file_stem` gives it: the file name
/// without its extension (a name that starts with its only `.` is kept
/// whole).
pub open spec fn file_stem(platform: Platform, p: Seq<char>) -> Option<Seq<char>> {
    match file_name(platform, p) {
        Some(name) => match text::rfind_char(name, '.') {
            Some(i) => if i == 0 {
                Some(name)
            } else {
                Some(name.take(i))
            },
            None => Some(name),
        },
        None => None,
    }
}

/// The file stem of `path` on `platform`, or `default` when it has none.
pub fn file_stem_or(platform: Platform, path: &str, default: &str) -> (r: String)
    ensures
        r@ == crate::config::value_or(file_stem(platform, path@), default@),
{
    let (rest, verbatim) = prefix_free(platform, path);
    let path = rest.as_str();
    let v = chars_of(path);
    match file_name_bounds(platform, verbatim, &v) {
        Some((a, b)) => {
            let ghost name = v@.subrange(a as int, b as int);
            proof {
                text::lemma_rfind_char(name, '.');
            }
            match rfind_in_range(&v, a, b, '.') {
                Some(k) => if k == 0 {
                    substring(path, a, b)
                } else {
                    assert(name.take(k as int) =~= path@.subrange(a as int, a + k));
                    substring(path, a, a + k)
                },
                None => substring(path, a, b),
            }
        },
        None => String::from_str(default),
    }
}

/// Whether the path names a JPEG file by its extension (`jpg` or `jpeg`, in
/// any ASCII case).
pub open spec fn is_jpeg_path(platform: Platform, path: Seq<char>) -> bool {
    match extension(platform, path) {
        Some(e) => text::eq_ignore_ascii_case(e, "jpg"@) || text::eq_ignore_ascii_case(
            e,
            "jpeg"@,
        ),
        None => false,
    }
}

/// Whether `path` has the extension `jpg` or `jpeg`, in any ASCII case.
pub fn is_jpeg(platform: Platform, path: &str) -> (r: bool)
    ensures
        r == is_jpeg_path(platform, path@),
{
    match path_extension(platform, path) {
        Some(e) => {
            let ev = chars_of(e.as_str());
            let jpg = chars_of("jpg");
            let jpeg = chars_of("jpeg");
            chars_eq_ignore_ascii_case(&ev, &jpg) || chars_eq_ignore_ascii_case(&ev, &jpeg)
        },
        None => false,
    }
}

/// The bytes to upload as the original image: `data` stripped of its EXIF
/// data except the orientation when `strip` is set and `path` names a JPEG
/// file, else `data` as it is.
pub fn original_bytes(platform: Platform, data: &[u8], path: &str, strip: bool) -> (r: Vec<u8>)
    ensures
        r@ == (if strip && is_jpeg_path(platform, path@) {
            jpeg::stripped_keeping(data@, crate::imaging::file_orientation(data@))
        } else {
            data@
        }),
{
    if strip && is_jpeg(platform, path) {
        let orientation = crate::imaging::read_exif_orientation(data);
        jpeg::strip_exif_keeping(data, orientation)
    } else {
        let mut out: Vec<u8> = Vec::new();
        let mut i: usize = 0;
        while i < data.len()
            invariant
                i <= data@.len(),
                out@ == data@.take(i as int),
            decreases data@.len() - i,
        {
            assert(data@.take(i + 1) =~= data@.take(i as int).push(data@[i as int]));
            out.push(data[i]);
            i = i + 1;
        }
        assert(data@.take(data@.len() as int) =~= data@);
        out
    }
}

// ---------------------------------------------------------------------------
// Where config.ini is looked for
// ---------------------------------------------------------------------------

/// The operating system the search follows.
#[derive(Debug, Clone, Copy, PartialEq, Eq, Structural)]
pub enum Platform {
    Linux,
    MacOs,
    Windows,
    Other,
}

/// Whether `c` separates path components on `platform`.
pub open spec fn is_separator(platform: Platform, c: char) -> bool {
    c == '/' || (platform == Platform::Windows && c == '\\')
}

/// The separator that joining inserts on `platform`.
pub open spec fn main_separator(platform: Platform) -> char {
    if platform == Platform::Windows {
        '\\'
    } else {
        '/'
    }
}

/// Whether `base` is nothing but a Windows drive prefix such as `C:`: an
/// ASCII letter and a colon.
pub open spec fn is_bare_drive(platform: Platform, base: Seq<char>) -> bool {
    &&& platform == Platform::Windows
    &&& base.len() == 2
    &&& base[1] == ':'
    &&& (('a' <= base[0] <= 'z') || ('A' <= base[0] <= 'Z'))
}

/// `base` joined with the relative path `rel`, as `PathBuf::join` does it: a
/// separator goes between them unless `base` is empty, already ends with
/// one, or is a bare Windows drive prefix (`C:` joined with `x` is `C:x`,
/// relative to that drive's current directory).
pub open spec fn join_path(platform: Platform, base: Seq<char>, rel: Seq<char>) -> Seq<char> {
    if base.len() == 0 || is_separator(platform, base.last()) || is_bare_drive(platform, base) {
        base + rel
    } else {
        base + seq![main_separator(platform)] + rel
    }
}

/// The relative place of `config.ini` in the per-user configuration
/// directory of `platform`.
pub open spec fn user_config_rel(platform: Platform) -> Seq<char> {
    match platform {
        Platform::Linux => ".config/aws-photo-uploader/config.ini"@,
        Platform::MacOs => "Library/Application Support/aws-photo-uploader/config.ini"@,
        Platform::Windows => "aws-photo-uploader/config.ini"@,
        Platform::Other => Seq::empty(),
    }
}

/// `Some(x)` as a one-element sequence, `None` as the empty one.
pub open spec fn opt_seq(o: Option<Seq<char>>) -> Seq<Seq<char>> {
    match o {
        Some(x) => seq![x],
        None => Seq::empty(),
    }
}

/// The per-user candidate: under the home directory on Linux and macOS, under
/// the configuration directory on Windows (only when there is a home
/// directory too).
pub open spec fn user_candidate(
    platform: Platform,
    home: Option<Seq<char>>,
    config_dir: Option<Seq<char>>,
) -> Option<Seq<char>> {
    match home {
        None => None,
        Some(h) => match platform {
            Platform::Linux => Some(join_path(platform, h, user_config_rel(platform))),
            Platform::MacOs => Some(join_path(platform, h, user_config_rel(platform))),
            Platform::Windows => match config_dir {
                Some(d) => Some(join_path(platform, d, user_config_rel(platform))),
                None => None,
            },
            Platform::Other => None,
        },
    }
}

/// `front` with `o` added at the end, unless `o` is none or already listed.
pub open spec fn add_new(front: Seq<Seq<char>>, o: Option<Seq<char>>) -> Seq<Seq<char>> {
    match o {
        Some(x) => if front.contains(x) {
            front
        } else {
            front.push(x)
        },
        None => front,
    }
}

/// The candidate place `config.ini` in the directory `dir`, when there is one.
pub open spec fn dir_candidate(platform: Platform, dir: Option<Seq<char>>) -> Option<Seq<char>> {
    match dir {
        Some(d) => Some(join_path(platform, d, "config.ini"@)),
        None => None,
    }
}

/// The candidate places of `config.ini`, in the order they are tried: the
/// per-user configuration directory, the current directory, the directory
/// of the executable; a place already listed is not listed again.
pub open spec fn search_paths(
    platform: Platform,
    home: Option<Seq<char>>,
    config_dir: Option<Seq<char>>,
    cwd: Option<Seq<char>>,
    exe_dir: Option<Seq<char>>,
) -> Seq<Seq<char>> {
    add_new(
        add_new(
            add_new(Seq::empty(), user_candidate(platform, home, config_dir)),
            dir_candidate(platform, cwd),
        ),
        dir_candidate(platform, exe_dir),
    )
}

/// Whether no two entries of `s` are equal.
pub open spec fn no_repeats(s: Seq<Seq<char>>) -> bool {
    forall|i: int, j: int| 0 <= i < j < s.len() ==> s[i] != s[j]
}

proof fn lemma_add_new(front: Seq<Seq<char>>, o: Option<Seq<char>>)
    requires
        no_repeats(front),
    ensures
        no_repeats(add_new(front, o)),
        forall|x: Seq<char>|
            add_new(front, o).contains(x) <==> (front.contains(x) || o == Some(x)),
{
    if let Some(x) = o {
        if !front.contains(x) {
            let r = front.push(x);
            assert forall|i: int, j: int| 0 <= i < j < r.len() implies r[i] != r[j] by {
                if j == front.len() {
                    assert(r[i] == front[i]);
                }
            }
            assert forall|y: Seq<char>| r.contains(y) <==> (front.contains(y) || o == Some(y)) by {
                if r.contains(y) {
                    let k = choose|k: int| 0 <= k < r.len() && r[k] == y;
                    if k < front.len() {
                        assert(front[k] == y);
                    }
                }
                if front.contains(y) {
                    let k = choose|k: int| 0 <= k < front.len() && front[k] == y;
                    assert(r[k] == y);
                }
                if o == Some(y) {
                    assert(r[front.len() as int] == y);
                }
            }
        }
    }
}

/// The places of [`search_paths`] are exactly its candidates, none twice.
proof fn lemma_search_paths(
    platform: Platform,
    home: Option<Seq<char>>,
    config_dir: Option<Seq<char>>,
    cwd: Option<Seq<char>>,
    exe_dir: Option<Seq<char>>,
)
    ensures
        no_repeats(search_paths(platform, home, config_dir, cwd, exe_dir)),
        forall|x: Seq<char>|
            search_paths(platform, home, config_dir, cwd, exe_dir).contains(x) <==> (
            user_candidate(platform, home, config_dir) == Some(x) || dir_candidate(platform, cwd)
                == Some(x) || dir_candidate(platform, exe_dir) == Some(x)),
{
    let e = Seq::<Seq<char>>::empty();
    let u = user_candidate(platform, home, config_dir);
    let c = dir_candidate(platform, cwd);
    lemma_add_new(e, u);
    lemma_add_new(add_new(e, u), c);
    lemma_add_new(add_new(add_new(e, u), c), dir_candidate(platform, exe_dir));
}

/// The views of a vector of strings.
pub open spec fn strings_view(v: Seq<String>) -> Seq<Seq<char>> {
    Seq::new(v.len(), |i: int| v[i]@)
}

/// Joins `base` and the relative path `rel` on `platform`.
pub fn join(platform: Platform, base: &str, rel: &str) -> (r: String)
    ensures
        r@ == join_path(platform, base@, rel@),
{
    let v = chars_of(base);
    let mut out = String::from_str(base);
    if v.len() == 0 {
        out.append(rel);
        return out;
    }
    let last = v[v.len() - 1];
    let windows = match platform {
        Platform::Windows => true,
        _ => false,
    };
    let bare_drive = windows && v.len() == 2 && v[1] == ':' && (('a' <= v[0] && v[0] <= 'z') || (
    'A' <= v[0] && v[0] <= 'Z'));
    if last == '/' || (windows && last == '\\') || bare_drive {
        out.append(rel);
    } else {
        if windows {
            out.append("\\");
            proof {
                reveal_strlit("\\");
            }
        } else {
            out.append("/");
            proof {
                reveal_strlit("/");
            }
        }
        out.append(rel);
    }
    out
}

/// Whether `paths` holds the text `p`.
fn holds_text(paths: &Vec<String>, p: &String) -> (r: bool)
    ensures
        r == strings_view(paths@).contains(p@),
{
    let mut i: usize = 0;
    while i < paths.len()
        invariant
            i <= paths@.len(),
            forall|k: int| 0 <= k < i ==> paths@[k]@ != p@,
        decreases paths@.len() - i,
    {
        if paths[i] == *p {
            assert(strings_view(paths@)[i as int] == p@);
            return true;
        }
        i = i + 1;
    }
    assert forall|k: int| 0 <= k < strings_view(paths@).len() implies strings_view(paths@)[k]
        != p@ by {
        assert(strings_view(paths@)[k] == paths@[k]@);
    }
    false
}

/// Appends the join of an optional base with `rel`, unless it is listed
/// already.
fn push_joined(paths: &mut Vec<String>, platform: Platform, base: &Option<String>, rel: &str)
    ensures
        strings_view(final(paths)@) == add_new(
            strings_view(old(paths)@),
            match base {
                Some(b) => Some(join_path(platform, b@, rel@)),
                None => None,
            },
        ),
{
    match base {
        Some(b) => {
            let p = join(platform, b.as_str(), rel);
            if !holds_text(paths, &p) {
                paths.push(p);
                assert(strings_view(paths@) =~= strings_view(old(paths)@).push(p@));
            }
        },
        None => {},
    }
}

/// The candidate places of `config.ini` for the given home directory,
/// per-user configuration directory, current directory and directory of the
/// executable.
pub fn search_paths_from(
    platform: Platform,
    home: Option<String>,
    config_dir: Option<String>,
    cwd: Option<String>,
    exe_dir: Option<String>,
) -> (r: Vec<String>)
    ensures
        strings_view(r@) == search_paths(
            platform,
            crate::config::opt_view(home),
            crate::config::opt_view(config_dir),
            crate::config::opt_view(cwd),
            crate::config::opt_view(exe_dir),
        ),
        forall|i: int, j: int| 0 <= i < j < r@.len() ==> r@[i]@ != r@[j]@,
{
    proof {
        lemma_search_paths(
            platform,
            crate::config::opt_view(home),
            crate::config::opt_view(config_dir),
            crate::config::opt_view(cwd),
            crate::config::opt_view(exe_dir),
        );
    }
    let mut paths: Vec<String> = Vec::new();
    assert(strings_view(paths@) =~= Seq::<Seq<char>>::empty());
    let user_base = match home {
        Some(_) => match platform {
            Platform::Linux => home,
            Platform::MacOs => home,
            Platform::Windows => config_dir,
            Platform::Other => None,
        },
        None => None,
    };
    let rel = match platform {
        Platform::Linux => ".config/aws-photo-uploader/config.ini",
        Platform::MacOs => "Library/Application Support/aws-photo-uploader/config.ini",
        Platform::Windows => "aws-photo-uploader/config.ini",
        Platform::Other => "",
    };
    push_joined(&mut paths, platform, &user_base, rel);
    push_joined(&mut paths, platform, &cwd, "config.ini");
    push_joined(&mut paths, platform, &exe_dir, "config.ini");
    proof {
        reveal_strlit("config.ini");
        assert forall|i: int, j: int| 0 <= i < j < paths@.len() implies paths@[i]@
            != paths@[j]@ by {
            assert(strings_view(paths@)[i] == paths@[i]@);
            assert(strings_view(paths@)[j] == paths@[j]@);
        }
    }
    paths
}

/// Calls `dirs::home_dir`, the home directory of the current user as the
/// environment and the operating system report it. Nothing is claimed of
/// the result, which depends on the environment; a path that is no valid
/// Unicode is carried over with replacement characters.
#[verifier::external_body]
fn home_dir() -> Option<String> {
    match dirs::home_dir() {
        Some(p) => Some(p.to_string_lossy().into_owned()),
        None => None,
    }
}

/// Calls `dirs::config_dir`, the per-user configuration directory of the
/// operating system. Nothing is claimed of the result, which depends on the
/// environment; a path that is no valid Unicode is carried over with
/// replacement characters.
#[verifier::external_body]
fn config_dir() -> Option<String> {
    match dirs::config_dir() {
        Some(p) => Some(p.to_string_lossy().into_owned()),
        None => None,
    }
}

/// The candidate places of `config.ini`, first match wins: the per-user
/// configuration directory of `platform`, then `cwd` (the current
/// directory), then `exe_dir` (the directory of the executable).
pub fn config_search_paths(platform: Platform, cwd: Option<String>, exe_dir: Option<String>) -> (r:
    Vec<String>)
    ensures
        exists|home: Option<Seq<char>>, config_dir: Option<Seq<char>>|
            strings_view(r@) == search_paths(
                platform,
                home,
                config_dir,
                crate::config::opt_view(cwd),
                crate::config::opt_view(exe_dir),
            ),
        forall|i: int, j: int| 0 <= i < j < r@.len() ==> r@[i]@ != r@[j]@,
{
    let home = home_dir();
    let config_dir = config_dir();
    let r = search_paths_from(platform, home, config_dir, cwd, exe_dir);
    assert(strings_view(r@) == search_paths(
        platform,
        crate::config::opt_view(home),
        crate::config::opt_view(config_dir),
        crate::config::opt_view(cwd),
        crate::config::opt_view(exe_dir),
    ));
    r
}

// ---------------------------------------------------------------------------
// Choosing the configuration file
// ---------------------------------------------------------------------------

/// A candidate path together with whether a file exists there.
#[derive(Debug)]
pub struct PathProbe {
    pub path: String,
    pub exists: bool,
}

/// Why no configuration file was chosen.
#[derive(Debug)]
pub enum ConfigSearchError {
    /// The path given explicitly does not exist.
    NotFound(String),
    /// None of the searched paths exists; they are listed.
    NoneFound(Vec<String>),
}

/// The index of the first candidate that exists.
pub open spec fn first_existing(c: Seq<PathProbe>) -> Option<int>
    decreases c.len(),
{
    if c.len() == 0 {
        None
    } else if c[0].exists {
        Some(0)
    } else {
        match first_existing(c.drop_first()) {
            Some(i) => Some(i + 1),
            None => None,
        }
    }
}

proof fn lemma_first_existing(c: Seq<PathProbe>)
    ensures
        match first_existing(c) {
            Some(i) => 0 <= i < c.len() && c[i].exists && forall|j: int|
                0 <= j < i ==> !c[j].exists,
            None => forall|j: int| 0 <= j < c.len() ==> !c[j].exists,
        },
    decreases c.len(),
{
    if c.len() > 0 && !c[0].exists {
        lemma_first_existing(c.drop_first());
        assert forall|j: int| 0 < j < c.len() implies c[j] == c.drop_first()[j - 1] by {}
    }
}

/// The paths of the candidates.
pub open spec fn probe_paths(c: Seq<PathProbe>) -> Seq<Seq<char>> {
    Seq::new(c.len(), |i: int| c[i].path@)
}

/// Chooses the configuration file: the explicit path when one is given (it
/// must exist), else the first of the searched candidates that exists.
pub fn find_config_file(explicit: Option<&PathProbe>, candidates: &Vec<PathProbe>) -> (r: Result<
    String,
    ConfigSearchError,
>)
    ensures
        match explicit {
            Some(p) => if p.exists {
                r matches Ok(s) && s@ == p.path@
            } else {
                r matches Err(ConfigSearchError::NotFound(s)) && s@ == p.path@
            },
            None => match first_existing(candidates@) {
                Some(i) => r matches Ok(s) && s@ == candidates@[i].path@,
                None => r matches Err(ConfigSearchError::NoneFound(v)) && strings_view(v@)
                    == probe_paths(candidates@),
            },
        },
{
    if let Some(p) = explicit {
        if p.exists {
            return Ok(p.path.clone());
        }
        return Err(ConfigSearchError::NotFound(p.path.clone()));
    }
    proof {
        lemma_first_existing(candidates@);
    }
    let mut searched: Vec<String> = Vec::new();
    let mut i: usize = 0;
    while i < candidates.len()
        invariant
            explicit is None,
            i <= candidates@.len(),
            forall|j: int| 0 <= j < i ==> !candidates@[j].exists,
            strings_view(searched@) == probe_paths(candidates@).take(i as int),
            first_existing(candidates@) is None || first_existing(candidates@).unwrap() >= i,
            match first_existing(candidates@) {
                Some(k) => 0 <= k < candidates@.len() && candidates@[k].exists && forall|j: int|
                    0 <= j < k ==> !candidates@[j].exists,
                None => forall|j: int| 0 <= j < candidates@.len() ==> !candidates@[j].exists,
            },
        decreases candidates@.len() - i,
    {
        if candidates[i].exists {
            return Ok(candidates[i].path.clone());
        }
        let ghost before = searched@;
        let path = candidates[i].path.clone();
        searched.push(path);
        assert(searched@ == before.push(path));
        assert(strings_view(searched@) =~= strings_view(before).push(path@));
        assert(probe_paths(candidates@).take(i + 1) =~= probe_paths(candidates@).take(
            i as int,
        ).push(candidates@[i as int].path@));
        i = i + 1;
    }
    assert(probe_paths(candidates@).take(i as int) =~= probe_paths(candidates@));
    Err(ConfigSearchError::NoneFound(searched))
}

/// The message of a search error, as the program reports it.
pub open spec fn search_error_message(e: ConfigSearchError) -> Seq<char> {
    match e {
        ConfigSearchError::NotFound(p) => "Config file not found: "@ + p@,
        ConfigSearchError::NoneFound(v) => "No config file found. Searched:\n"@ + listing(
            strings_view(v@),
        ),
    }
}

/// Each path on a line of its own, indented by two spaces.
pub open spec fn listing(paths: Seq<Seq<char>>) -> Seq<char>
    decreases paths.len(),
{
    if paths.len() == 0 {
        Seq::empty()
    } else {
        listing(paths.drop_last()) + "  "@ + paths.last() + "\n"@
    }
}

impl ConfigSearchError {
    /// The message that describes this error.
    pub fn message(&self) -> (r: String)
        ensures
            r@ == search_error_message(*self),
    {
        match self {
            ConfigSearchError::NotFound(p) => {
                let mut m = String::from_str("Config file not found: ");
                m.append(p.as_str());
                m
            },
            ConfigSearchError::NoneFound(v) => {
                let mut m = String::from_str("No config file found. Searched:\n");
                let mut i: usize = 0;
                assert(strings_view(v@).take(0) =~= Seq::<Seq<char>>::empty());
                while i < v.len()
                    invariant
                        i <= v@.len(),
                        m@ == "No config file found. Searched:\n"@ + listing(
                            strings_view(v@).take(i as int),
                        ),
                    decreases v@.len() - i,
                {
                    assert(strings_view(v@).take(i + 1).drop_last() =~= strings_view(v@).take(
                        i as int,
                    ));
                    m.append("  ");
                    m.append(v[i].as_str());
                    m.append("\n");
                    i = i + 1;
                }
                assert(strings_view(v@).take(v@.len() as int) =~= strings_view(v@));
                m
            },
        }
    }
}

// ---------------------------------------------------------------------------
// Laws
// ---------------------------------------------------------------------------

/// Whether `s` ends with `suffix`.
pub open spec fn ends_with(s: Seq<char>, suffix: Seq<char>) -> bool {
    s.len() >= suffix.len() && s.skip(s.len() - suffix.len()) == suffix
}

proof fn lemma_join_ends_with(platform: Platform, base: Seq<char>, rel: Seq<char>, suffix: Seq<char>)
    requires
        ends_with(rel, suffix),
    ensures
        ends_with(join_path(platform, base, rel), suffix),
{
    let j = join_path(platform, base, rel);
    assert(j.skip(j.len() - suffix.len()) =~= rel.skip(rel.len() - suffix.len()));
}

/// Every place where `config.ini` is looked for ends with `config.ini`.
pub proof fn law_search_paths_end_with_config_ini(
    platform: Platform,
    home: Option<Seq<char>>,
    config_dir: Option<Seq<char>>,
    cwd: Option<Seq<char>>,
    exe_dir: Option<Seq<char>>,
)
    ensures
        forall|i: int|
            0 <= i < search_paths(platform, home, config_dir, cwd, exe_dir).len() ==> ends_with(
                #[trigger] search_paths(platform, home, config_dir, cwd, exe_dir)[i],
                "config.ini"@,
            ),
{
    reveal_strlit("config.ini");
    reveal_strlit(".config/aws-photo-uploader/config.ini");
    reveal_strlit("Library/Application Support/aws-photo-uploader/config.ini");
    reveal_strlit("aws-photo-uploader/config.ini");
    let c = "config.ini"@;
    assert(ends_with(c, c)) by {
        assert(c.skip(0) =~= c);
    }
    let linux = ".config/aws-photo-uploader/config.ini"@;
    let mac = "Library/Application Support/aws-photo-uploader/config.ini"@;
    let win = "aws-photo-uploader/config.ini"@;
    assert(ends_with(linux, c)) by {
        assert(linux.skip(linux.len() - c.len()) =~= c);
    }
    assert(ends_with(mac, c)) by {
        assert(mac.skip(mac.len() - c.len()) =~= c);
    }
    assert(ends_with(win, c)) by {
        assert(win.skip(win.len() - c.len()) =~= c);
    }
    if let Some(h) = home {
        lemma_join_ends_with(platform, h, linux, c);
        lemma_join_ends_with(platform, h, mac, c);
        if let Some(d) = config_dir {
            lemma_join_ends_with(platform, d, win, c);
        }
    }
    if let Some(d) = cwd {
        lemma_join_ends_with(platform, d, c, c);
    }
    if let Some(d) = exe_dir {
        lemma_join_ends_with(platform, d, c, c);
    }
    lemma_search_paths(platform, home, config_dir, cwd, exe_dir);
    let s = search_paths(platform, home, config_dir, cwd, exe_dir);
    assert forall|i: int| 0 <= i < s.len() implies ends_with(#[trigger] s[i], c) by {
        assert(s.contains(s[i]));
    }
}

/// No place is searched twice: a candidate equal to an earlier one (the
/// current directory being the executable's, say) is listed once.
pub proof fn law_search_paths_have_no_repeats(
    platform: Platform,
    home: Option<Seq<char>>,
    config_dir: Option<Seq<char>>,
    cwd: Option<Seq<char>>,
    exe_dir: Option<Seq<char>>,
)
    ensures
        no_repeats(search_paths(platform, home, config_dir, cwd, exe_dir)),
{
    lemma_search_paths(platform, home, config_dir, cwd, exe_dir);
}

/// Each candidate is searched: the per-user place when there is one,
/// `config.ini` in the current directory, and `config.ini` in the directory
/// of the executable; the per-user place, when there is one, comes first.
pub proof fn law_search_paths_include_each_candidate(
    platform: Platform,
    home: Option<Seq<char>>,
    config_dir: Option<Seq<char>>,
    cwd: Option<Seq<char>>,
    exe_dir: Option<Seq<char>>,
)
    ensures
        forall|x: Seq<char>|
            search_paths(platform, home, config_dir, cwd, exe_dir).contains(x) <==> (
            user_candidate(platform, home, config_dir) == Some(x) || dir_candidate(platform, cwd)
                == Some(x) || dir_candidate(platform, exe_dir) == Some(x)),
        user_candidate(platform, home, config_dir) matches Some(u) ==> search_paths(
            platform,
            home,
            config_dir,
            cwd,
            exe_dir,
        )[0] == u,
{
    lemma_search_paths(platform, home, config_dir, cwd, exe_dir);
    let e = Seq::<Seq<char>>::empty();
    let u = user_candidate(platform, home, config_dir);
    let c = dir_candidate(platform, cwd);
    let first = add_new(e, u);
    let second = add_new(first, c);
    if let Some(x) = u {
        assert(first =~= seq![x]);
        assert(second[0] == x);
        assert(add_new(second, dir_candidate(platform, exe_dir))[0] == x);
    }
}

} // verus!
