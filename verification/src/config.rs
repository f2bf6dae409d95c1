//! The `config.ini` reader: an INI text with an `[aws]` and a `[defaults]`
//! section becomes a [`Config`].
//!
//! The format, as this reader understands it, line by line (lines are split
//! at `\n`, and every line is trimmed of Unicode whitespace first):
//! - empty lines and lines starting with `;` or `#` are ignored;
//! - `[name]` starts a section, whose name is the trimmed, lower-cased text
//!   between the brackets;
//! - `key = value` adds an entry to the current section (before the first
//!   section header that is the section with the empty name); the key is
//!   trimmed and lower-cased, the value trimmed; the first `=` separates them;
//! - a `#` or `;` that opens the value or follows whitespace in it starts a
//!   note, which is not part of the value (`strip_exif = yes   # optional`);
//! - any other line is ignored.
//! When a key occurs more than once in a section, the last value wins.
use vstd::prelude::*;

use crate::text;
use crate::text::{
    chars_eq_ignore_ascii_case, chars_of, find_in, is_whitespace_char, parse_u32_in, substring,
    to_lowercase, trim_bounds,
};

verus! {

// ---------------------------------------------------------------------------
// The model of the INI text
// ---------------------------------------------------------------------------

/// One `key = value` line together with the section it stands in.
pub struct IniEntry {
    pub section: Seq<char>,
    pub key: Seq<char>,
    pub value: Seq<char>,
}

/// The number of characters before the first `\n` of `s` (all of `s` when
/// there is none).
pub open spec fn line_end(s: Seq<char>) -> nat
    decreases s.len(),
{
    if s.len() == 0 {
        0
    } else if s[0] == '\n' {
        0
    } else {
        1 + line_end(s.drop_first())
    }
}

/// What follows the first line of `s` and its line break.
pub open spec fn after_first_line(s: Seq<char>) -> Seq<char> {
    if line_end(s) < s.len() {
        s.skip(line_end(s) + 1int)
    } else {
        Seq::empty()
    }
}

/// Whether a trimmed line is ignored as blank or as a comment.
pub open spec fn is_comment_or_blank(line: Seq<char>) -> bool {
    line.len() == 0 || line[0] == ';' || line[0] == '#'
}

/// Whether a trimmed line is a section header `[...]`.
pub open spec fn is_section_header(line: Seq<char>) -> bool {
    line.len() > 0 && line[0] == '[' && line.last() == ']'
}

/// The name of the section that a header line opens.
pub open spec fn section_name(line: Seq<char>) -> Seq<char> {
    text::lowercase(text::trim(line.subrange(1, line.len() - 1)))
}

/// Whether position `i` of the raw text of a value starts a note: a `#` or
/// `;` at its start or right after whitespace.
pub open spec fn starts_note(raw: Seq<char>, i: int) -> bool {
    (raw[i] == '#' || raw[i] == ';') && (i == 0 || text::is_white_space(raw[i - 1]))
}

/// The first position at or after `i` where a note starts in `raw`, or the
/// length of `raw` when none does.
pub open spec fn note_start_from(raw: Seq<char>, i: int) -> int
    decreases raw.len() - i,
{
    if i < 0 || i >= raw.len() {
        raw.len() as int
    } else if starts_note(raw, i) {
        i
    } else {
        note_start_from(raw, i + 1)
    }
}

/// The value that the raw text after `=` holds: the text before its note,
/// trimmed.
pub open spec fn value_text(raw: Seq<char>) -> Seq<char> {
    text::trim(raw.take(note_start_from(raw, 0)))
}

/// The entries of the text `s`, read with `section` as the current section.
pub open spec fn ini_entries_from(s: Seq<char>, section: Seq<char>) -> Seq<IniEntry>
    decreases s.len(),
{
    if s.len() == 0 {
        Seq::empty()
    } else {
        let line = text::trim(s.take(line_end(s) as int));
        let rest = if line_end(s) < s.len() {
            s.skip(line_end(s) + 1int)
        } else {
            Seq::empty()
        };
        if is_comment_or_blank(line) {
            ini_entries_from(rest, section)
        } else if is_section_header(line) {
            ini_entries_from(rest, section_name(line))
        } else {
            match text::find_char(line, '=') {
                Some(i) => seq![
                    IniEntry {
                        section,
                        key: text::lowercase(text::trim(line.take(i))),
                        value: value_text(line.skip(i + 1)),
                    },
                ] + ini_entries_from(rest, section),
                None => ini_entries_from(rest, section),
            }
        }
    }
}

/// All entries of an INI text, in the order of their lines.
pub open spec fn ini_entries(content: Seq<char>) -> Seq<IniEntry> {
    ini_entries_from(content, Seq::empty())
}

/// The value of `key` in `section`: that of its last entry.
pub open spec fn ini_lookup(entries: Seq<IniEntry>, section: Seq<char>, key: Seq<char>) -> Option<
    Seq<char>,
>
    decreases entries.len(),
{
    if entries.len() == 0 {
        None
    } else if entries.last().section == section && entries.last().key == key {
        Some(entries.last().value)
    } else {
        ini_lookup(entries.drop_last(), section, key)
    }
}

/// The value of `key` in `section` of the INI text `content`.
pub open spec fn ini_value(content: Seq<char>, section: Seq<char>, key: Seq<char>) -> Option<
    Seq<char>,
> {
    ini_lookup(ini_entries(content), section, key)
}

proof fn lemma_line_end(s: Seq<char>)
    ensures
        line_end(s) <= s.len(),
        forall|j: int| 0 <= j < line_end(s) ==> s[j] != '\n',
        line_end(s) < s.len() ==> s[line_end(s) as int] == '\n',
    decreases s.len(),
{
    if s.len() > 0 && s[0] != '\n' {
        lemma_line_end(s.drop_first());
        assert forall|j: int| 0 <= j < line_end(s) implies s[j] != '\n' by {
            if j > 0 {
                assert(s[j] == s.drop_first()[j - 1]);
            }
        }
    }
}

proof fn lemma_line_end_is(s: Seq<char>, k: int)
    requires
        0 <= k <= s.len(),
        forall|j: int| 0 <= j < k ==> s[j] != '\n',
        k < s.len() ==> s[k] == '\n',
    ensures
        line_end(s) == k,
    decreases s.len(),
{
    if s.len() > 0 && s[0] != '\n' {
        assert forall|j: int| 0 <= j < k - 1 implies s.drop_first()[j] != '\n' by {
            assert(s.drop_first()[j] == s[j + 1]);
        }
        if k < s.len() {
            assert(s.drop_first()[k - 1] == s[k]);
        }
        lemma_line_end_is(s.drop_first(), k - 1);
    }
}

// ---------------------------------------------------------------------------
// Reading the entries
// ---------------------------------------------------------------------------

/// An entry as the reader holds it.
struct Entry {
    section: String,
    key: String,
    value: String,
}

impl Entry {
    spec fn model(&self) -> IniEntry {
        IniEntry { section: self.section@, key: self.key@, value: self.value@ }
    }
}

spec fn entries_model(v: Seq<Entry>) -> Seq<IniEntry> {
    Seq::new(v.len(), |i: int| v[i].model())
}

/// Where a note starts in the raw value `v[lo..hi]`: the position in
/// `lo..hi` of the first `#` or `;` that opens it or follows whitespace, or
/// `hi` when there is none.
fn note_start_in(v: &Vec<char>, lo: usize, hi: usize) -> (r: usize)
    requires
        lo <= hi <= v@.len(),
    ensures
        lo <= r <= hi,
        r - lo == note_start_from(v@.subrange(lo as int, hi as int), 0),
{
    let ghost raw = v@.subrange(lo as int, hi as int);
    let mut k = lo;
    while k < hi
        invariant
            lo <= k <= hi <= v@.len(),
            raw == v@.subrange(lo as int, hi as int),
            note_start_from(raw, 0) == note_start_from(raw, k - lo),
        decreases hi - k,
    {
        let c = v[k];
        let note = (c == '#' || c == ';') && (k == lo || is_whitespace_char(v[k - 1]));
        proof {
            assert(raw[k - lo] == v@[k as int]);
            if k > lo {
                assert(raw[k - lo - 1] == v@[k - 1]);
            }
            assert(note == starts_note(raw, k - lo));
        }
        if note {
            return k;
        }
        k = k + 1;
    }
    k
}

/// Reads every `key = value` entry of `content`.
fn read_entries(content: &str) -> (r: Vec<Entry>)
    ensures
        entries_model(r@) == ini_entries(content@),
{
    let v = chars_of(content);
    let len = v.len();
    let mut entries: Vec<Entry> = Vec::new();
    let mut section = String::new();
    let mut pos: usize = 0;
    assert(v@.skip(0) =~= v@);
    while pos < len
        invariant
            len == v@.len(),
            v@ == content@,
            pos <= len,
            ini_entries(content@) == entries_model(entries@) + ini_entries_from(
                v@.skip(pos as int),
                section@,
            ),
        decreases len - pos,
    {
        let ghost s = v@.skip(pos as int);
        let e = find_in(&v, pos, len, '\n');
        proof {
            assert forall|j: int| 0 <= j < e - pos implies s[j] != '\n' by {
                assert(s[j] == v@[pos + j]);
            }
            if e < len {
                assert(s[e - pos] == v@[e as int]);
            }
            lemma_line_end_is(s, e - pos);
            assert(s.take(line_end(s) as int) =~= v@.subrange(pos as int, e as int));
        }
        let (a, b) = trim_bounds(&v, pos, e);
        let ghost line = v@.subrange(a as int, b as int);
        let next = if e < len {
            e + 1
        } else {
            len
        };
        proof {
            if e < len {
                assert(s.skip(line_end(s) + 1int) =~= v@.skip(next as int));
            } else {
                assert(v@.skip(next as int) =~= Seq::<char>::empty());
            }
        }
        let ghost before = entries_model(entries@);
        let ghost old_section = section@;
        if a == b || v[a] == ';' || v[a] == '#' {
            assert(is_comment_or_blank(line));
        } else if v[a] == '[' && v[b - 1] == ']' {
            assert(is_section_header(line));
            let (ia, ib) = trim_bounds(&v, a + 1, b - 1);
            assert(line.subrange(1, line.len() - 1) =~= v@.subrange(a + 1, b - 1));
            let name = content.substring_char(ia, ib);
            section = to_lowercase(name);
        } else {
            assert(!is_comment_or_blank(line) && !is_section_header(line));
            let eq = find_in(&v, a, b, '=');
            if eq < b {
                assert(line.take(eq - a) =~= v@.subrange(a as int, eq as int));
                assert(line.skip(eq - a + 1) =~= v@.subrange(eq + 1, b as int));
                let (ka, kb) = trim_bounds(&v, a, eq);
                let ns = note_start_in(&v, eq + 1, b);
                assert(line.skip(eq - a + 1).take(ns - eq - 1) =~= v@.subrange(
                    eq + 1,
                    ns as int,
                ));
                let (va, vb) = trim_bounds(&v, eq + 1, ns);
                let key = to_lowercase(content.substring_char(ka, kb));
                let value = substring(content, va, vb);
                let entry = Entry { section: section.clone(), key, value };
                entries.push(entry);
                assert(entries_model(entries@) =~= before + seq![entry.model()]);
            }
        }
        proof {
            assert(ini_entries_from(s, old_section) == entries_model(entries@).subrange(
                before.len() as int,
                entries_model(entries@).len() as int,
            ) + ini_entries_from(v@.skip(next as int), section@));
        }
        pos = next;
    }
    assert(v@.skip(len as int) =~= Seq::<char>::empty());
    entries
}

// ---------------------------------------------------------------------------
// The configuration
// ---------------------------------------------------------------------------

/// The settings read from `config.ini`.
#[derive(Debug)]
pub struct Config {
    pub access_key_id: String,
    pub secret_access_key: String,
    pub region: String,
    pub bucket: String,
    pub endpoint_url: Option<String>,
    pub storage_class: Option<String>,
    pub base_url: Option<String>,
    pub max_width: u32,
    pub max_height: u32,
    pub default_folder: String,
    pub upload_original: bool,
    pub strip_exif: bool,
}

/// The mathematical content of a [`Config`].
pub struct ConfigView {
    pub access_key_id: Seq<char>,
    pub secret_access_key: Seq<char>,
    pub region: Seq<char>,
    pub bucket: Seq<char>,
    pub endpoint_url: Option<Seq<char>>,
    pub storage_class: Option<Seq<char>>,
    pub base_url: Option<Seq<char>>,
    pub max_width: u32,
    pub max_height: u32,
    pub default_folder: Seq<char>,
    pub upload_original: bool,
    pub strip_exif: bool,
}

/// The view of an optional string.
pub open spec fn opt_view(o: Option<String>) -> Option<Seq<char>> {
    match o {
        Some(s) => Some(s@),
        None => None,
    }
}

impl View for Config {
    type V = ConfigView;

    open spec fn view(&self) -> ConfigView {
        ConfigView {
            access_key_id: self.access_key_id@,
            secret_access_key: self.secret_access_key@,
            region: self.region@,
            bucket: self.bucket@,
            endpoint_url: opt_view(self.endpoint_url),
            storage_class: opt_view(self.storage_class),
            base_url: opt_view(self.base_url),
            max_width: self.max_width,
            max_height: self.max_height,
            default_folder: self.default_folder@,
            upload_original: self.upload_original,
            strip_exif: self.strip_exif,
        }
    }
}

/// A setting that the configuration cannot do without.
#[derive(Debug, Clone, Copy, PartialEq, Eq, Structural)]
pub enum ConfigField {
    AccessKeyId,
    SecretAccessKey,
    Bucket,
    MaxWidth,
    MaxHeight,
}

/// A setting that must be a number.
#[derive(Debug, Clone, Copy, PartialEq, Eq, Structural)]
pub enum NumberField {
    MaxWidth,
    MaxHeight,
}

/// Why a configuration text was refused.
#[derive(Debug, Clone, Copy, PartialEq, Eq, Structural)]
pub enum ConfigError {
    /// The setting is absent.
    Missing(ConfigField),
    /// The setting is present but is no `u32`.
    InvalidNumber(NumberField),
}

/// The text of an error, as the program reports it.
pub open spec fn config_error_message(e: ConfigError) -> Seq<char> {
    match e {
        ConfigError::Missing(ConfigField::AccessKeyId) => "Missing aws.access_key_id"@,
        ConfigError::Missing(ConfigField::SecretAccessKey) => "Missing aws.secret_access_key"@,
        ConfigError::Missing(ConfigField::Bucket) => "Missing aws.bucket"@,
        ConfigError::Missing(ConfigField::MaxWidth) => "Missing defaults.max_width"@,
        ConfigError::Missing(ConfigField::MaxHeight) => "Missing defaults.max_height"@,
        ConfigError::InvalidNumber(NumberField::MaxWidth) => "Invalid max_width"@,
        ConfigError::InvalidNumber(NumberField::MaxHeight) => "Invalid max_height"@,
    }
}

impl ConfigError {
    /// The message that describes this error.
    pub fn message(&self) -> (r: String)
        ensures
            r@ == config_error_message(*self),
    {
        let text = match *self {
            ConfigError::Missing(ConfigField::AccessKeyId) => "Missing aws.access_key_id",
            ConfigError::Missing(ConfigField::SecretAccessKey) => "Missing aws.secret_access_key",
            ConfigError::Missing(ConfigField::Bucket) => "Missing aws.bucket",
            ConfigError::Missing(ConfigField::MaxWidth) => "Missing defaults.max_width",
            ConfigError::Missing(ConfigField::MaxHeight) => "Missing defaults.max_height",
            ConfigError::InvalidNumber(NumberField::MaxWidth) => "Invalid max_width",
            ConfigError::InvalidNumber(NumberField::MaxHeight) => "Invalid max_height",
        };
        String::from_str(text)
    }
}

/// `value`, or `default` when it is absent.
pub open spec fn value_or(value: Option<Seq<char>>, default: Seq<char>) -> Seq<char> {
    match value {
        Some(v) => v,
        None => default,
    }
}

/// What reading the INI text `c` gives: the settings, or the first problem in
/// the order access key, secret key, bucket, maximum width, maximum height.
pub open spec fn config_outcome(c: Seq<char>) -> Result<ConfigView, ConfigError> {
    let access_key_id = ini_value(c, "aws"@, "access_key_id"@);
    let secret_access_key = ini_value(c, "aws"@, "secret_access_key"@);
    let bucket = ini_value(c, "aws"@, "bucket"@);
    let max_width = ini_value(c, "defaults"@, "max_width"@);
    let max_height = ini_value(c, "defaults"@, "max_height"@);
    if access_key_id is None {
        Err(ConfigError::Missing(ConfigField::AccessKeyId))
    } else if secret_access_key is None {
        Err(ConfigError::Missing(ConfigField::SecretAccessKey))
    } else if bucket is None {
        Err(ConfigError::Missing(ConfigField::Bucket))
    } else if max_width is None {
        Err(ConfigError::Missing(ConfigField::MaxWidth))
    } else if text::parse_u32(max_width.unwrap()) is None {
        Err(ConfigError::InvalidNumber(NumberField::MaxWidth))
    } else if max_height is None {
        Err(ConfigError::Missing(ConfigField::MaxHeight))
    } else if text::parse_u32(max_height.unwrap()) is None {
        Err(ConfigError::InvalidNumber(NumberField::MaxHeight))
    } else {
        Ok(
            ConfigView {
                access_key_id: access_key_id.unwrap(),
                secret_access_key: secret_access_key.unwrap(),
                region: value_or(ini_value(c, "aws"@, "region"@), "us-east-1"@),
                bucket: bucket.unwrap(),
                endpoint_url: ini_value(c, "aws"@, "endpoint_url"@),
                storage_class: ini_value(c, "aws"@, "storage_class"@),
                base_url: ini_value(c, "aws"@, "base_url"@),
                max_width: text::parse_u32(max_width.unwrap()).unwrap(),
                max_height: text::parse_u32(max_height.unwrap()).unwrap(),
                default_folder: value_or(ini_value(c, "defaults"@, "default_folder"@), Seq::empty()),
                upload_original: text::eq_ignore_ascii_case(
                    value_or(ini_value(c, "defaults"@, "upload_original"@), "no"@),
                    "yes"@,
                ),
                strip_exif: text::eq_ignore_ascii_case(
                    value_or(ini_value(c, "defaults"@, "strip_exif"@), "yes"@),
                    "yes"@,
                ),
            },
        )
    }
}

/// The value of `key` in `section` among `entries`.
fn lookup(entries: &Vec<Entry>, section: &str, key: &str) -> (r: Option<String>)
    ensures
        opt_view(r) == ini_lookup(entries_model(entries@), section@, key@),
{
    let sec = String::from_str(section);
    let k = String::from_str(key);
    let mut i = entries.len();
    assert(entries_model(entries@).take(i as int) =~= entries_model(entries@));
    while i > 0
        invariant
            i <= entries@.len(),
            sec@ == section@,
            k@ == key@,
            ini_lookup(entries_model(entries@), section@, key@) == ini_lookup(
                entries_model(entries@).take(i as int),
                section@,
                key@,
            ),
        decreases i,
    {
        let ghost m = entries_model(entries@).take(i as int);
        assert(m.last() == entries@[i - 1].model());
        assert(m.drop_last() =~= entries_model(entries@).take(i - 1));
        if entries[i - 1].section == sec && entries[i - 1].key == k {
            return Some(entries[i - 1].value.clone());
        }
        i = i - 1;
    }
    None
}

/// `value` or `default`, owned.
fn or_default(value: Option<String>, default: &str) -> (r: String)
    ensures
        r@ == value_or(opt_view(value), default@),
{
    match value {
        Some(v) => v,
        None => String::from_str(default),
    }
}

/// Whether the text equals `yes` up to ASCII case.
fn is_yes(value: &String) -> (r: bool)
    ensures
        r == text::eq_ignore_ascii_case(value@, "yes"@),
{
    let v = chars_of(value.as_str());
    let yes = chars_of("yes");
    chars_eq_ignore_ascii_case(&v, &yes)
}

/// Reads a dimension setting as a `u32`.
fn parse_dimension(value: &String) -> (r: Option<u32>)
    ensures
        r == text::parse_u32(value@),
{
    let v = chars_of(value.as_str());
    assert(v@.subrange(0, v@.len() as int) =~= v@);
    parse_u32_in(&v, 0, v.len())
}

/// Parses the text of a `config.ini` file into a [`Config`].
///
/// Reads the `[aws]` and `[defaults]` sections (names and keys are matched
/// case-insensitively) and extracts the settings; a missing `region` becomes
/// `us-east-1`, a missing `default_folder` the empty folder, a missing
/// `upload_original` means no and a missing `strip_exif` means yes.
pub fn load_config(content: &str) -> (r: Result<Config, ConfigError>)
    ensures
        match r {
            Ok(c) => config_outcome(content@) == Ok::<ConfigView, ConfigError>(c@),
            Err(e) => config_outcome(content@) == Err::<ConfigView, ConfigError>(e),
        },
{
    let entries = read_entries(content);
    let access_key_id = match lookup(&entries, "aws", "access_key_id") {
        Some(v) => v,
        None => return Err(ConfigError::Missing(ConfigField::AccessKeyId)),
    };
    let secret_access_key = match lookup(&entries, "aws", "secret_access_key") {
        Some(v) => v,
        None => return Err(ConfigError::Missing(ConfigField::SecretAccessKey)),
    };
    let region = or_default(lookup(&entries, "aws", "region"), "us-east-1");
    let bucket = match lookup(&entries, "aws", "bucket") {
        Some(v) => v,
        None => return Err(ConfigError::Missing(ConfigField::Bucket)),
    };
    let endpoint_url = lookup(&entries, "aws", "endpoint_url");
    let storage_class = lookup(&entries, "aws", "storage_class");
    let base_url = lookup(&entries, "aws", "base_url");
    let max_width = match lookup(&entries, "defaults", "max_width") {
        Some(v) => match parse_dimension(&v) {
            Some(n) => n,
            None => return Err(ConfigError::InvalidNumber(NumberField::MaxWidth)),
        },
        None => return Err(ConfigError::Missing(ConfigField::MaxWidth)),
    };
    let max_height = match lookup(&entries, "defaults", "max_height") {
        Some(v) => match parse_dimension(&v) {
            Some(n) => n,
            None => return Err(ConfigError::InvalidNumber(NumberField::MaxHeight)),
        },
        None => return Err(ConfigError::Missing(ConfigField::MaxHeight)),
    };
    let default_folder = or_default(lookup(&entries, "defaults", "default_folder"), "");
    let upload_original = is_yes(&or_default(lookup(&entries, "defaults", "upload_original"), "no"));
    let strip_exif = is_yes(&or_default(lookup(&entries, "defaults", "strip_exif"), "yes"));
    let config = Config {
        access_key_id,
        secret_access_key,
        region,
        bucket,
        endpoint_url,
        storage_class,
        base_url,
        max_width,
        max_height,
        default_folder,
        upload_original,
        strip_exif,
    };
    proof {
        assert(""@ =~= Seq::<char>::empty()) by {
            reveal_strlit("");
        }
    }
    Ok(config)
}

// ---------------------------------------------------------------------------
// Laws
// ---------------------------------------------------------------------------

/// A blank line or a comment line (one starting with `;` or `#` after
/// trimming) in front of a text changes nothing of what is read from it.
pub proof fn law_comment_lines_ignored(line: Seq<char>, rest: Seq<char>, section: Seq<char>)
    requires
        forall|i: int| 0 <= i < line.len() ==> line[i] != '\n',
        is_comment_or_blank(text::trim(line)),
    ensures
        ini_entries_from(line + seq!['\n'] + rest, section) == ini_entries_from(rest, section),
{
    let s = line + seq!['\n'] + rest;
    assert forall|j: int| 0 <= j < line.len() implies s[j] != '\n' by {
        assert(s[j] == line[j]);
    }
    assert(s[line.len() as int] == '\n');
    lemma_line_end_is(s, line.len() as int);
    assert(s.take(line.len() as int) =~= line);
    assert(s.skip(line.len() + 1int) =~= rest);
}

/// When a key is given more than once in a section, the last value wins.
pub proof fn law_last_value_wins(entries: Seq<IniEntry>, later: Seq<IniEntry>, last: IniEntry)
    requires
        forall|i: int|
            0 <= i < later.len() ==> !(#[trigger] later[i].section == last.section && later[i].key
                == last.key),
    ensures
        ini_lookup(entries + seq![last] + later, last.section, last.key) == Some(last.value),
    decreases later.len(),
{
    if later.len() == 0 {
        assert(entries + seq![last] + later =~= entries.push(last));
    } else {
        let shorter = later.drop_last();
        assert((entries + seq![last] + later).drop_last() =~= entries + seq![last] + shorter);
        assert((entries + seq![last] + later).last() == later[later.len() - 1]);
        law_last_value_wins(entries, shorter, last);
    }
}

/// A configuration that is read without error and names no region gets the
/// region `us-east-1`; one without a default folder gets the empty folder.
pub proof fn law_config_defaults(c: Seq<char>)
    requires
        config_outcome(c) is Ok,
    ensures
        ini_value(c, "aws"@, "region"@) is None ==> config_outcome(c).unwrap().region
            == "us-east-1"@,
        ini_value(c, "defaults"@, "default_folder"@) is None ==> config_outcome(
            c,
        ).unwrap().default_folder == Seq::<char>::empty(),
        ini_value(c, "defaults"@, "upload_original"@) is None
            ==> !config_outcome(c).unwrap().upload_original,
        ini_value(c, "defaults"@, "strip_exif"@) is None ==> config_outcome(c).unwrap().strip_exif,
{
    reveal_strlit("no");
    reveal_strlit("yes");
    assert(text::ascii_lower('n') != text::ascii_lower('y'));
    assert(!text::eq_ignore_ascii_case("no"@, "yes"@));
    assert(text::eq_ignore_ascii_case("yes"@, "yes"@));
}

/// A configuration is refused exactly when one of the required settings is
/// missing or a dimension is no number; the first such problem is named.
pub proof fn law_required_settings(c: Seq<char>)
    ensures
        config_outcome(c) is Ok <==> {
            &&& ini_value(c, "aws"@, "access_key_id"@) is Some
            &&& ini_value(c, "aws"@, "secret_access_key"@) is Some
            &&& ini_value(c, "aws"@, "bucket"@) is Some
            &&& ini_value(c, "defaults"@, "max_width"@) matches Some(w) && text::parse_u32(w) is Some
            &&& ini_value(c, "defaults"@, "max_height"@) matches Some(h) && text::parse_u32(h) is Some
        },
{
}

} // verus!
