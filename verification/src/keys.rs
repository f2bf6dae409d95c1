//! Object keys in the bucket and the content type that goes with them.
use vstd::prelude::*;

use rand::Rng;

use crate::text;
use crate::text::{chars_of, rfind_in, to_lowercase};

verus! {

// ---------------------------------------------------------------------------
// Content types
// ---------------------------------------------------------------------------

/// The extension of a path or file name: what follows its last `.`, or
/// `None` when it has no `.`.
pub open spec fn last_dot_segment(path: Seq<char>) -> Option<Seq<char>> {
    match text::rfind_char(path, '.') {
        Some(i) => Some(path.skip(i + 1)),
        None => None,
    }
}

/// The MIME type for a lower-case extension.
pub open spec fn mime_for(ext: Seq<char>) -> Seq<char> {
    if ext == "jpg"@ || ext == "jpeg"@ {
        "image/jpeg"@
    } else if ext == "png"@ {
        "image/png"@
    } else if ext == "webp"@ {
        "image/webp"@
    } else if ext == "gif"@ {
        "image/gif"@
    } else {
        "application/octet-stream"@
    }
}

/// The content type of a path or file name, by its extension; a name
/// without `.` has none and is `application/octet-stream`.
pub open spec fn content_type(path: Seq<char>) -> Seq<char> {
    match last_dot_segment(path) {
        Some(ext) => mime_for(text::lowercase(ext)),
        None => "application/octet-stream"@,
    }
}

/// Whether two strings hold the same text.
fn same_text(a: &String, b: &str) -> (r: bool)
    ensures
        r == (a@ == b@),
{
    let b = String::from_str(b);
    *a == b
}

/// Returns the MIME content type for the extension of `path` (the text after
/// its last `.`, compared in lower case): `image/jpeg`, `image/png`,
/// `image/webp`, `image/gif`, or `application/octet-stream` for anything
/// else, also for a name without any `.`.
pub fn content_type_for(path: &str) -> (r: &'static str)
    ensures
        r@ == content_type(path@),
{
    let v = chars_of(path);
    proof {
        text::lemma_rfind_char(v@, '.');
    }
    let found = rfind_in(&v, '.');
    let start = match found {
        Some(i) => {
            assert(i < v.len());
            i + 1
        },
        None => 0,
    };
    if found.is_none() {
        return "application/octet-stream";
    }
    assert(path@.subrange(start as int, path@.len() as int) =~= last_dot_segment(path@).unwrap());
    let ext = to_lowercase(path.substring_char(start, v.len()));
    if same_text(&ext, "jpg") || same_text(&ext, "jpeg") {
        "image/jpeg"
    } else if same_text(&ext, "png") {
        "image/png"
    } else if same_text(&ext, "webp") {
        "image/webp"
    } else if same_text(&ext, "gif") {
        "image/gif"
    } else {
        "application/octet-stream"
    }
}

// ---------------------------------------------------------------------------
// Random postfixes
// ---------------------------------------------------------------------------

/// A character that random postfixes are made of: `0`-`9` or `a`-`z`.
pub open spec fn is_postfix_char(c: char) -> bool {
    ('0' <= c <= '9') || ('a' <= c <= 'z')
}

/// Whether `s` is a postfix of `len` characters from `[0-9a-z]`.
pub open spec fn is_postfix(s: Seq<char>, len: nat) -> bool {
    s.len() == len && forall|i: int| 0 <= i < s.len() ==> is_postfix_char(#[trigger] s[i])
}

#[verifier::external_type_specification]
#[verifier::external_body]
pub struct ExThreadRng(rand::rngs::ThreadRng);

/// Calls `rand::thread_rng`, a handle to the lazily seeded random number
/// generator of the current thread. Nothing is claimed of it.
#[verifier::external_body]
fn thread_rng() -> rand::rngs::ThreadRng {
    rand::thread_rng()
}

/// Calls `Rng::gen_range(0..bound)` on the thread's generator: a number
/// below `bound` (the range must not be empty, else the call panics).
/// Which number comes is left open.
#[verifier::external_body]
fn gen_below(rng: &mut rand::rngs::ThreadRng, bound: u8) -> (r: u8)
    requires
        bound > 0,
    ensures
        r < bound,
{
    rng.gen_range(0..bound)
}

/// The characters of postfixes in the order of their index.
pub open spec fn postfix_alphabet() -> Seq<char> {
    "0123456789abcdefghijklmnopqrstuvwxyz"@
}

/// The postfix character with index `idx`: a digit for `0..10`, a letter
/// for `10..36`.
pub fn postfix_char(idx: u8) -> (r: String)
    requires
        idx < 36,
    ensures
        r@ == seq![postfix_alphabet()[idx as int]],
        is_postfix_char(postfix_alphabet()[idx as int]),
        idx < 10 ==> postfix_alphabet()[idx as int] == (('0' as u32) + idx as u32) as char,
        idx >= 10 ==> postfix_alphabet()[idx as int] == (('a' as u32) + idx as u32 - 10) as char,
{
    let alphabet = "0123456789abcdefghijklmnopqrstuvwxyz";
    proof {
        reveal_strlit("0123456789abcdefghijklmnopqrstuvwxyz");
    }
    let piece = alphabet.substring_char(idx as usize, idx as usize + 1);
    assert(piece@ =~= seq![postfix_alphabet()[idx as int]]);
    String::from_str(piece)
}

/// A number below `bound` drawn from the thread's random generator.
pub fn random_index(bound: u8) -> (r: u8)
    requires
        bound > 0,
    ensures
        r < bound,
{
    let mut rng = thread_rng();
    gen_below(&mut rng, bound)
}

/// Whether `c` is the postfix character of an index that a call of
/// [`random_index`] with the bound 36 can return.
pub open spec fn drawn_char(c: char) -> bool {
    exists|d: u8| call_ensures(random_index, (36u8,), d) && c == postfix_alphabet()[d as int]
}

/// Generates a random postfix of `len` characters, each a digit `0`-`9` or
/// a lower-case letter `a`-`z`: every character is the one whose index in
/// [`postfix_alphabet`] a call of [`random_index`] drew.
pub fn random_postfix(len: usize) -> (r: String)
    ensures
        is_postfix(r@, len as nat),
        forall|i: int| 0 <= i < len ==> drawn_char(#[trigger] r@[i]),
{
    let draw = random_index;
    let mut out = String::new();
    let mut i: usize = 0;
    while i < len
        invariant
            i <= len,
            is_postfix(out@, i as nat),
            forall|k: int| 0 <= k < i ==> drawn_char(#[trigger] out@[k]),
        decreases len - i,
    {
        let idx = draw(36);
        assert(drawn_char(postfix_alphabet()[idx as int]));
        let c = postfix_char(idx);
        let ghost before = out@;
        out.append(c.as_str());
        assert(out@ =~= before.push(postfix_alphabet()[idx as int]));
        assert forall|k: int| 0 <= k < i + 1 implies drawn_char(#[trigger] out@[k]) by {
            if k < i {
                assert(out@[k] == before[k]);
            }
        }
        i = i + 1;
    }
    out
}

// ---------------------------------------------------------------------------
// Object keys
// ---------------------------------------------------------------------------

/// `s` without its trailing `/` characters.
pub open spec fn trim_trailing_slashes(s: Seq<char>) -> Seq<char>
    decreases s.len(),
{
    if s.len() > 0 && s.last() == '/' {
        trim_trailing_slashes(s.drop_last())
    } else {
        s
    }
}

/// The key of `file_name` in `folder`: the file name alone for the empty
/// folder, else the folder without trailing slashes, `/`, the file name.
pub open spec fn key_in_folder(folder: Seq<char>, file_name: Seq<char>) -> Seq<char> {
    if folder.len() == 0 {
        file_name
    } else {
        trim_trailing_slashes(folder) + "/"@ + file_name
    }
}

/// The key `folder/stem.ext`.
pub open spec fn base_key(folder: Seq<char>, stem: Seq<char>, ext: Seq<char>) -> Seq<char> {
    key_in_folder(folder, stem + "."@ + ext)
}

/// The key `folder/stem_postfix.ext`.
pub open spec fn postfixed_key(
    folder: Seq<char>,
    stem: Seq<char>,
    postfix: Seq<char>,
    ext: Seq<char>,
) -> Seq<char> {
    key_in_folder(folder, stem + "_"@ + postfix + "."@ + ext)
}

/// The key of `file_name` in `folder` (see [`key_in_folder`]).
pub fn object_key(folder: &str, file_name: &str) -> (r: String)
    ensures
        r@ == key_in_folder(folder@, file_name@),
{
    let v = chars_of(folder);
    if v.len() == 0 {
        return String::from_str(file_name);
    }
    let mut end = v.len();
    assert(v@.take(end as int) =~= v@);
    while end > 0 && v[end - 1] == '/'
        invariant
            end <= v@.len(),
            trim_trailing_slashes(v@) == trim_trailing_slashes(v@.take(end as int)),
        decreases end,
    {
        assert(v@.take(end as int).drop_last() =~= v@.take(end - 1));
        end = end - 1;
    }
    assert(v@.take(end as int) =~= folder@.subrange(0, end as int));
    let mut key = String::from_str(folder.substring_char(0, end));
    key.append("/");
    key.append(file_name);
    key
}

/// `stem.ext`, or `stem_postfix.ext` when a postfix is given.
fn file_name_of(stem: &str, postfix: Option<&str>, ext: &str) -> (r: String)
    ensures
        r@ == (match postfix {
            Some(p) => stem@ + "_"@ + p@ + "."@ + ext@,
            None => stem@ + "."@ + ext@,
        }),
{
    let mut name = String::from_str(stem);
    match postfix {
        Some(p) => {
            name.append("_");
            name.append(p);
        },
        None => {},
    }
    name.append(".");
    name.append(ext);
    name
}

/// The key `folder/file_stem.ext`, or `folder/file_stem_postfix.ext` when a
/// postfix is given.
pub fn key_for(folder: &str, file_stem: &str, postfix: Option<&str>, ext: &str) -> (r: String)
    ensures
        r@ == (match postfix {
            Some(p) => postfixed_key(folder@, file_stem@, p@, ext@),
            None => base_key(folder@, file_stem@, ext@),
        }),
{
    let name = file_name_of(file_stem, postfix, ext);
    object_key(folder, name.as_str())
}

/// Builds the object key for an upload.
///
/// When `force` is set or the object does not exist yet, the key is
/// `folder/file_stem.ext` (just `file_stem.ext` for the empty folder; trailing
/// slashes of the folder are dropped). Otherwise a random postfix of eight
/// characters from `[0-9a-z]` is added to the stem, `folder/file_stem_xxxxxxxx.ext`,
/// so that the existing object is not overwritten.
pub fn build_key(folder: &str, file_stem: &str, ext: &str, force: bool, object_exists: bool) -> (r:
    String)
    ensures
        force || !object_exists ==> r@ == base_key(folder@, file_stem@, ext@),
        !force && object_exists ==> exists|postfix: Seq<char>|
            is_postfix(postfix, 8) && r@ == postfixed_key(folder@, file_stem@, postfix, ext@),
        !force && object_exists ==> exists|drawn: String|
            call_ensures(random_postfix, (8usize,), drawn) && r@ == postfixed_key(
                folder@,
                file_stem@,
                drawn@,
                ext@,
            ),
{
    if force || !object_exists {
        key_for(folder, file_stem, None, ext)
    } else {
        let draw = random_postfix;
        let postfix = draw(8);
        let key = key_for(folder, file_stem, Some(postfix.as_str()), ext);
        assert(is_postfix(postfix@, 8) && key@ == postfixed_key(
            folder@,
            file_stem@,
            postfix@,
            ext@,
        ));
        key
    }
}

// ---------------------------------------------------------------------------
// Laws
// ---------------------------------------------------------------------------

/// A key with a postfix never equals the key without one, so an existing
/// object is never overwritten when the upload is not forced.
pub proof fn law_postfixed_key_differs(
    folder: Seq<char>,
    stem: Seq<char>,
    postfix: Seq<char>,
    ext: Seq<char>,
)
    requires
        is_postfix(postfix, 8),
    ensures
        postfixed_key(folder, stem, postfix, ext) != base_key(folder, stem, ext),
{
    reveal_strlit("_");
    reveal_strlit(".");
    reveal_strlit("/");
    assert(postfixed_key(folder, stem, postfix, ext).len() == base_key(folder, stem, ext).len()
        + 9);
}

/// The key of a clashing upload comes from a fresh draw: a postfix that
/// [`random_postfix`] returns is eight characters of `[0-9a-z]`, each drawn
/// by [`random_index`]; the key made with it is never the plain key; and two
/// draws give the same key exactly when they drew the same postfix, so
/// different draws never overwrite each other.
pub proof fn law_each_draw_gives_its_own_key(
    folder: Seq<char>,
    stem: Seq<char>,
    ext: Seq<char>,
    first: String,
    second: String,
)
    requires
        call_ensures(random_postfix, (8usize,), first),
        call_ensures(random_postfix, (8usize,), second),
    ensures
        is_postfix(first@, 8),
        forall|i: int| 0 <= i < 8 ==> drawn_char(#[trigger] first@[i]),
        postfixed_key(folder, stem, first@, ext) != base_key(folder, stem, ext),
        postfixed_key(folder, stem, first@, ext) == postfixed_key(folder, stem, second@, ext)
            <==> first@ == second@,
{
    law_postfixed_key_differs(folder, stem, first@, ext);
    reveal_strlit("_");
    reveal_strlit(".");
    reveal_strlit("/");
    let prefix = if folder.len() == 0 {
        Seq::<char>::empty()
    } else {
        trim_trailing_slashes(folder) + "/"@
    };
    let k1 = postfixed_key(folder, stem, first@, ext);
    let k2 = postfixed_key(folder, stem, second@, ext);
    assert(k1 =~= prefix + stem + "_"@ + first@ + "."@ + ext);
    assert(k2 =~= prefix + stem + "_"@ + second@ + "."@ + ext);
    if k1 == k2 {
        let at: int = (prefix.len() + stem.len() + 1) as int;
        assert(k1.subrange(at, at + 8) =~= first@);
        assert(k2.subrange(at, at + 8) =~= second@);
    }
}

proof fn lemma_last_dot_segment_after_dot(a: Seq<char>, ext: Seq<char>)
    requires
        forall|i: int| 0 <= i < ext.len() ==> ext[i] != '.',
    ensures
        last_dot_segment(a + "."@ + ext) == Some(ext),
{
    reveal_strlit(".");
    let s = a + "."@ + ext;
    text::lemma_rfind_char(s, '.');
    assert(s[a.len() as int] == '.');
    assert forall|j: int| a.len() < j < s.len() implies s[j] != '.' by {
        assert(s[j] == ext[j - a.len() - 1]);
    }
    match text::rfind_char(s, '.') {
        Some(i) => {
            assert(i == a.len());
            assert(s.skip(i + 1) =~= ext);
        },
        None => {},
    }
}

/// Only what follows the last `.` decides the content type, and its ASCII
/// case does not matter: `x.jpg`, `photo.JPG` and `a.b.Jpg` have one type.
pub proof fn law_content_type_ignores_case(a: Seq<char>, b: Seq<char>, ext: Seq<char>)
    requires
        forall|i: int| 0 <= i < ext.len() ==> ext[i] != '.',
        text::is_ascii_text(ext),
    ensures
        content_type(a + "."@ + ext) == content_type(b + "."@ + text::ascii_uppercase(ext)),
{
    let up = text::ascii_uppercase(ext);
    assert forall|i: int| 0 <= i < up.len() implies (#[trigger] up[i] as u32) < 128 by {
        let c = ext[i];
        assert(up[i] == text::ascii_upper(c));
        assert((c as u32) < 128);
        if 'a' <= c <= 'z' {
            assert(text::ascii_upper(c) as u32 == c as u32 - 32);
        }
    }
    assert forall|i: int| 0 <= i < up.len() implies up[i] != '.' by {
        assert(up[i] == text::ascii_upper(ext[i]));
    }
    lemma_last_dot_segment_after_dot(a, ext);
    lemma_last_dot_segment_after_dot(b, up);
    assert forall|i: int| 0 <= i < ext.len() implies text::ascii_lower(
        #[trigger] text::ascii_upper(ext[i]),
    ) == text::ascii_lower(ext[i]) by {
        let c = ext[i];
        if 'a' <= c <= 'z' {
            assert(text::ascii_upper(c) as u32 == c as u32 - 32);
        }
    }
    assert(text::ascii_lowercase(up) =~= text::ascii_lowercase(ext)) by {
        assert forall|i: int| 0 <= i < ext.len() implies #[trigger] text::ascii_lowercase(up)[i]
            == text::ascii_lowercase(ext)[i] by {
            assert(up[i] == text::ascii_upper(ext[i]));
        }
    }
}

/// The content type of a key that [`build_key`] builds depends only on the
/// extension it was given (when that extension holds no `.`): the postfix
/// and the folder never change it.
pub proof fn law_key_content_type(
    folder: Seq<char>,
    stem: Seq<char>,
    postfix: Seq<char>,
    ext: Seq<char>,
)
    requires
        is_postfix(postfix, 8),
        forall|i: int| 0 <= i < ext.len() ==> ext[i] != '.',
    ensures
        content_type(base_key(folder, stem, ext)) == content_type("x."@ + ext),
        content_type(postfixed_key(folder, stem, postfix, ext)) == content_type("x."@ + ext),
{
    reveal_strlit("x.");
    reveal_strlit("x");
    assert("x."@ =~= "x"@ + "."@) by {
        reveal_strlit(".");
    }
    lemma_last_dot_segment_after_dot("x"@, ext);
    assert("x."@ + ext =~= "x"@ + "."@ + ext);
    let base_name = stem + "."@ + ext;
    let post_name = stem + "_"@ + postfix + "."@ + ext;
    if folder.len() == 0 {
        lemma_last_dot_segment_after_dot(stem, ext);
        lemma_last_dot_segment_after_dot(stem + "_"@ + postfix, ext);
    } else {
        let prefix = trim_trailing_slashes(folder) + "/"@;
        lemma_last_dot_segment_after_dot(prefix + stem, ext);
        assert(prefix + base_name =~= prefix + stem + "."@ + ext);
        lemma_last_dot_segment_after_dot(prefix + stem + "_"@ + postfix, ext);
        assert(prefix + post_name =~= prefix + stem + "_"@ + postfix + "."@ + ext);
    }
}

} // verus!
