//! File-system decisions: path normalization, binary-file detection by
//! extension and by content, and whether a path is ignored. Reading the
//! disk is left to the caller, which hands in what it read.

use vstd::prelude::*;
use crate::text::{replace_char, replace_char_in, to_lowercase, lowercase, str_eq, str_chars, chars_to_string, push_str};
use crate::paths::{components, file_name_of, extension_of, extension, file_name, parse_components};
use crate::models::{IgnoreConfig, default_ignored_dirs, is_default_ignored_dir};
use crate::pattern::{compile_regex, regex_matches, regex_valid, regex_is_match};
use crate::paths::comps_view;
use crate::output::snapshot::{FsEntry, EntryKind, lookup, kind_of, comps_list, comps_in, parse_all, lookup_index};
use crate::output::llm::{listing_of, snap_left, lemma_snap_depth};
use crate::output::directory::WalkError;
use crate::output::toplevel::texts;
use crate::tui::state::PathSet;

verus! {

/// `path` with every backslash turned into a forward slash.
pub fn normalize_path(path: &str) -> (r: String)
    ensures
        r@ == replace_char(path@, '\\', '/'),
{
    replace_char_in(path, '\\', '/')
}

/// The extensions that mark a file as binary for traversal.
pub open spec fn binary_extensions() -> Seq<Seq<char>> {
    seq![
        "idx"@, "pack"@, "rev"@, "index"@, "png"@, "jpg"@, "jpeg"@, "gif"@, "bmp"@, "tiff"@,
        "webp"@, "ico"@, "svg"@, "mp3"@, "wav"@, "ogg"@, "flac"@, "m4a"@, "aac"@, "wma"@,
        "mp4"@, "avi"@, "mkv"@, "mov"@, "wmv"@, "flv"@, "webm"@, "zip"@, "rar"@, "7z"@,
        "tar"@, "gz"@, "bz2"@, "xz"@, "iso"@, "exe"@, "dll"@, "so"@, "dylib"@, "bin"@,
        "pdf"@, "doc"@, "docx"@, "xls"@, "xlsx"@, "ppt"@, "pptx"@, "class"@, "pyc"@, "pyd"@,
        "pyo"@, "o"@, "obj"@, "db"@, "sqlite"@, "sqlite3"@, "ttf"@, "otf"@, "woff"@, "woff2"@
    ]
}

/// Whether `s` is one of the strings of `list`.
pub fn str_in_list(s: &str, list: &[&str]) -> (r: bool)
    ensures
        r == list@.map_values(|x: &str| x@).contains(s@),
{
    let ghost m = list@.map_values(|x: &str| x@);
    let mut i: usize = 0;
    while i < list.len()
        invariant
            i <= list@.len(),
            m == list@.map_values(|x: &str| x@),
            forall|j: int| 0 <= j < i ==> m[j] != s@,
        decreases list@.len() - i,
    {
        if str_eq(list[i], s) {
            proof {
                assert(m[i as int] == s@);
            }
            return true;
        }
        i = i + 1;
    }
    false
}

/// Whether the path's extension, lowercased, is a binary extension.
pub open spec fn binary_by_extension(path: Seq<char>) -> bool {
    extension_of(path) matches Some(e) && binary_extensions().contains(lowercase(e))
}

/// Whether the extension of `path` (lowercased) marks it as binary.
pub fn is_binary_by_extension(path: &str) -> (r: bool)
    ensures
        r == binary_by_extension(path@),
{
    let list: [&str; 60] = [
        "idx", "pack", "rev", "index", "png", "jpg", "jpeg", "gif", "bmp", "tiff",
        "webp", "ico", "svg", "mp3", "wav", "ogg", "flac", "m4a", "aac", "wma",
        "mp4", "avi", "mkv", "mov", "wmv", "flv", "webm", "zip", "rar", "7z",
        "tar", "gz", "bz2", "xz", "iso", "exe", "dll", "so", "dylib", "bin",
        "pdf", "doc", "docx", "xls", "xlsx", "ppt", "pptx", "class", "pyc", "pyd",
        "pyo", "o", "obj", "db", "sqlite", "sqlite3", "ttf", "otf", "woff", "woff2",
    ];
    proof {
        assert(list@.map_values(|x: &str| x@) =~= binary_extensions());
    }
    match extension(path) {
        Some(e) => {
            let low = to_lowercase(e.as_str());
            str_in_list(low.as_str(), list.as_slice())
        },
        None => false,
    }
}

/// The leading bytes that identify a binary format.
pub open spec fn binary_signatures() -> Seq<Seq<u8>> {
    seq![
        seq![0x7fu8, 0x45u8, 0x4cu8, 0x46u8],
        seq![0x4du8, 0x5au8],
        seq![0xfeu8, 0xedu8, 0xfau8, 0xceu8],
        seq![0xfeu8, 0xedu8, 0xfau8, 0xcfu8],
        seq![0xceu8, 0xfau8, 0xedu8, 0xfeu8],
        seq![0xcfu8, 0xfau8, 0xedu8, 0xfeu8],
        seq![0x89u8, 0x50u8, 0x4eu8, 0x47u8, 0x0du8, 0x0au8, 0x1au8, 0x0au8],
        seq![0xffu8, 0xd8u8, 0xffu8],
        seq![0x47u8, 0x49u8, 0x46u8, 0x38u8, 0x37u8, 0x61u8],
        seq![0x47u8, 0x49u8, 0x46u8, 0x38u8, 0x39u8, 0x61u8],
        seq![0x42u8, 0x4du8],
        seq![0x50u8, 0x4bu8, 0x03u8, 0x04u8],
        seq![0x50u8, 0x4bu8, 0x05u8, 0x06u8],
        seq![0x50u8, 0x4bu8, 0x07u8, 0x08u8],
        seq![0x1fu8, 0x8bu8, 0x08u8],
        seq![0x37u8, 0x7au8, 0xbcu8, 0xafu8, 0x27u8, 0x1cu8],
        seq![0x52u8, 0x61u8, 0x72u8, 0x21u8, 0x1au8, 0x07u8, 0x00u8],
        seq![0x52u8, 0x61u8, 0x72u8, 0x21u8, 0x1au8, 0x07u8, 0x01u8, 0x00u8],
        seq![0x25u8, 0x50u8, 0x44u8, 0x46u8],
        seq![0xcau8, 0xfeu8, 0xbau8, 0xbeu8],
        seq![0x53u8, 0x51u8, 0x4cu8, 0x69u8, 0x74u8, 0x65u8, 0x20u8, 0x66u8, 0x6fu8, 0x72u8,
            0x6du8, 0x61u8, 0x74u8, 0x20u8, 0x33u8, 0x00u8]
    ]
}

/// Whether a byte is a control byte other than tab, line feed and carriage return.
pub open spec fn non_printable(b: u8) -> bool {
    b < 32 && b != 9 && b != 10 && b != 13
}

/// The number of non-printable bytes in `c`.
pub open spec fn count_non_printable(c: Seq<u8>) -> nat
    decreases c.len(),
{
    if c.len() == 0 {
        0
    } else {
        count_non_printable(c.drop_last()) + if non_printable(c.last()) { 1nat } else { 0nat }
    }
}

/// Whether `p` is a prefix of `c`.
pub open spec fn bytes_prefix(c: Seq<u8>, p: Seq<u8>) -> bool {
    p.len() <= c.len() && c.take(p.len() as int) == p
}

/// Whether the leading bytes of a file mark it as binary: not empty, and it
/// starts with a known signature, holds a zero byte, or more than 30% of its
/// bytes are non-printable control bytes.
pub open spec fn binary_by_content(c: Seq<u8>) -> bool {
    &&& c.len() > 0
    &&& {
        ||| exists|i: int| 0 <= i < binary_signatures().len() && bytes_prefix(c, #[trigger] binary_signatures()[i])
        ||| c.contains(0u8)
        ||| 10 * count_non_printable(c) > 3 * c.len()
    }
}

fn bytes_starts_with(c: &[u8], p: &[u8]) -> (r: bool)
    ensures
        r == bytes_prefix(c@, p@),
{
    if p.len() > c.len() {
        return false;
    }
    let mut i: usize = 0;
    while i < p.len()
        invariant
            p@.len() <= c@.len(),
            i <= p@.len(),
            forall|j: int| 0 <= j < i ==> c@[j] == p@[j],
        decreases p@.len() - i,
    {
        if c[i] != p[i] {
            return false;
        }
        i = i + 1;
    }
    proof {
        assert(c@.take(p@.len() as int) =~= p@);
    }
    true
}

fn signature_list() -> (r: Vec<Vec<u8>>)
    ensures
        r@.len() == binary_signatures().len(),
        forall|i: int| 0 <= i < r@.len() ==> #[trigger] r@[i]@ == binary_signatures()[i],
{
    let mut r: Vec<Vec<u8>> = Vec::new();
    r.push(vec![0x7fu8, 0x45u8, 0x4cu8, 0x46u8]);
    r.push(vec![0x4du8, 0x5au8]);
    r.push(vec![0xfeu8, 0xedu8, 0xfau8, 0xceu8]);
    r.push(vec![0xfeu8, 0xedu8, 0xfau8, 0xcfu8]);
    r.push(vec![0xceu8, 0xfau8, 0xedu8, 0xfeu8]);
    r.push(vec![0xcfu8, 0xfau8, 0xedu8, 0xfeu8]);
    r.push(vec![0x89u8, 0x50u8, 0x4eu8, 0x47u8, 0x0du8, 0x0au8, 0x1au8, 0x0au8]);
    r.push(vec![0xffu8, 0xd8u8, 0xffu8]);
    r.push(vec![0x47u8, 0x49u8, 0x46u8, 0x38u8, 0x37u8, 0x61u8]);
    r.push(vec![0x47u8, 0x49u8, 0x46u8, 0x38u8, 0x39u8, 0x61u8]);
    r.push(vec![0x42u8, 0x4du8]);
    r.push(vec![0x50u8, 0x4bu8, 0x03u8, 0x04u8]);
    r.push(vec![0x50u8, 0x4bu8, 0x05u8, 0x06u8]);
    r.push(vec![0x50u8, 0x4bu8, 0x07u8, 0x08u8]);
    r.push(vec![0x1fu8, 0x8bu8, 0x08u8]);
    r.push(vec![0x37u8, 0x7au8, 0xbcu8, 0xafu8, 0x27u8, 0x1cu8]);
    r.push(vec![0x52u8, 0x61u8, 0x72u8, 0x21u8, 0x1au8, 0x07u8, 0x00u8]);
    r.push(vec![0x52u8, 0x61u8, 0x72u8, 0x21u8, 0x1au8, 0x07u8, 0x01u8, 0x00u8]);
    r.push(vec![0x25u8, 0x50u8, 0x44u8, 0x46u8]);
    r.push(vec![0xcau8, 0xfeu8, 0xbau8, 0xbeu8]);
    r.push(vec![0x53u8, 0x51u8, 0x4cu8, 0x69u8, 0x74u8, 0x65u8, 0x20u8, 0x66u8, 0x6fu8, 0x72u8,
        0x6du8, 0x61u8, 0x74u8, 0x20u8, 0x33u8, 0x00u8]);
    proof {
        assert(r@[0]@ =~= binary_signatures()[0]);
        assert(r@[1]@ =~= binary_signatures()[1]);
        assert(r@[2]@ =~= binary_signatures()[2]);
        assert(r@[3]@ =~= binary_signatures()[3]);
        assert(r@[4]@ =~= binary_signatures()[4]);
        assert(r@[5]@ =~= binary_signatures()[5]);
        assert(r@[6]@ =~= binary_signatures()[6]);
        assert(r@[7]@ =~= binary_signatures()[7]);
        assert(r@[8]@ =~= binary_signatures()[8]);
        assert(r@[9]@ =~= binary_signatures()[9]);
        assert(r@[10]@ =~= binary_signatures()[10]);
        assert(r@[11]@ =~= binary_signatures()[11]);
        assert(r@[12]@ =~= binary_signatures()[12]);
        assert(r@[13]@ =~= binary_signatures()[13]);
        assert(r@[14]@ =~= binary_signatures()[14]);
        assert(r@[15]@ =~= binary_signatures()[15]);
        assert(r@[16]@ =~= binary_signatures()[16]);
        assert(r@[17]@ =~= binary_signatures()[17]);
        assert(r@[18]@ =~= binary_signatures()[18]);
        assert(r@[19]@ =~= binary_signatures()[19]);
        assert(r@[20]@ =~= binary_signatures()[20]);
    }
    r
}

/// Whether the leading bytes of a file (the first read of at most 8 KiB)
/// mark it as binary; see `binary_by_content`.
pub fn is_binary_by_content(content: &[u8]) -> (r: bool)
    ensures
        r == binary_by_content(content@),
{
    if content.len() == 0 {
        return false;
    }
    let sigs = signature_list();
    let mut k: usize = 0;
    while k < sigs.len()
        invariant
            k <= sigs@.len(),
            sigs@.len() == binary_signatures().len(),
            forall|i: int| 0 <= i < sigs@.len() ==> #[trigger] sigs@[i]@ == binary_signatures()[i],
            forall|i: int| 0 <= i < k ==> !bytes_prefix(content@, #[trigger] binary_signatures()[i]),
        decreases sigs@.len() - k,
    {
        if bytes_starts_with(content, sigs[k].as_slice()) {
            proof {
                assert(bytes_prefix(content@, binary_signatures()[k as int]));
            }
            return true;
        }
        k = k + 1;
    }
    let mut i: usize = 0;
    let mut count: usize = 0;
    while i < content.len()
        invariant
            i <= content@.len(),
            count == count_non_printable(content@.take(i as int)),
            count <= i,
            !content@.take(i as int).contains(0u8),
        decreases content@.len() - i,
    {
        let b = content[i];
        proof {
            assert(content@.take(i + 1).drop_last() == content@.take(i as int));
            assert(content@.take(i + 1).last() == b);
        }
        if b == 0 {
            proof {
                assert(content@[i as int] == 0u8);
            }
            return true;
        }
        if b < 32 && b != 9 && b != 10 && b != 13 {
            count = count + 1;
        }
        i = i + 1;
        proof {
            let t = content@.take(i as int);
            if t.contains(0u8) {
                let j = choose|j: int| 0 <= j < t.len() && t[j] == 0u8;
                if j < i - 1 {
                    assert(content@.take(i - 1)[j] == 0u8);
                }
            }
        }
    }
    proof {
        assert(content@.take(content@.len() as int) == content@);
    }
    if content.len() > usize::MAX / 10 {
        return count > content.len() / 10 * 3 + (content.len() % 10) * 3 / 10;
    }
    10 * count > 3 * content.len()
}


/// Whether a file is binary: by its extension, or else by its leading bytes
/// when they could be read.
pub open spec fn binary_file(path: Seq<char>, head: Option<Seq<u8>>) -> bool {
    binary_by_extension(path) || (head matches Some(h) && binary_by_content(h))
}

/// Whether the file at `path` is binary. `head` holds the first read (at
/// most 8 KiB) of the file when it is a regular file that could be opened
/// and read, and is `None` otherwise; then only the extension decides.
pub fn is_binary_file(path: &str, head: Option<&[u8]>) -> (r: bool)
    ensures
        r == binary_file(path@, match head { Some(h) => Some(h@), None => None }),
{
    if is_binary_by_extension(path) {
        return true;
    }
    match head {
        Some(h) => is_binary_by_content(h),
        None => false,
    }
}

/// The strings of a vector of strings.
pub open spec fn string_views(v: Seq<String>) -> Seq<Seq<char>> {
    v.map_values(|s: String| s@)
}

/// Whether the file name of `path` is one of `list`.
pub open spec fn name_listed(path: Seq<char>, list: Seq<Seq<char>>) -> bool {
    file_name_of(components(path)) matches Some(n) && list.contains(n)
}

/// Whether `s` is one of the strings of `list`.
pub fn string_in_vec(s: &str, list: &Vec<String>) -> (r: bool)
    ensures
        r == string_views(list@).contains(s@),
{
    let ghost m = string_views(list@);
    let mut i: usize = 0;
    while i < list.len()
        invariant
            i <= list@.len(),
            m == string_views(list@),
            forall|j: int| 0 <= j < i ==> m[j] != s@,
        decreases list@.len() - i,
    {
        if str_eq(list[i].as_str(), s) {
            proof {
                assert(m[i as int] == s@);
            }
            return true;
        }
        i = i + 1;
    }
    false
}

/// Whether the traversal ignores `path`: nothing is ignored when default
/// ignores and gitignore are off and there are no extra names; otherwise a
/// path is ignored when its name is a default-ignored directory (with
/// default ignores on), is one of the extra names, or the applicable
/// `.gitignore` files ignore it (with gitignore on).
pub open spec fn ignored_iterative(path: Seq<char>, cfg: IgnoreConfig, gitignore_match: bool) -> bool {
    if !cfg.use_default_ignores && !cfg.use_gitignore && cfg.extra_ignore_patterns@.len() == 0 {
        false
    } else {
        ||| cfg.use_default_ignores && name_listed(path, default_ignored_dirs())
        ||| name_listed(path, string_views(cfg.extra_ignore_patterns@))
        ||| cfg.use_gitignore && gitignore_match
    }
}

/// Whether the traversal ignores `path` (see `ignored_iterative`).
/// `gitignore_match` is what the `.gitignore` files from the path's context
/// directory up to the base directory say of it, as the `ignore` crate's
/// matcher reports; it only counts when gitignore is on.
pub fn is_path_ignored_iterative(path: &str, ignore_config: &IgnoreConfig, gitignore_match: bool) -> (r: bool)
    ensures
        r == ignored_iterative(path@, *ignore_config, gitignore_match),
{
    if !ignore_config.use_default_ignores && !ignore_config.use_gitignore
        && ignore_config.extra_ignore_patterns.len() == 0 {
        return false;
    }
    let name = file_name(path);
    match name {
        Some(n) => {
            if ignore_config.use_default_ignores && is_default_ignored_dir(n.as_str()) {
                return true;
            }
            if string_in_vec(n.as_str(), &ignore_config.extra_ignore_patterns) {
                return true;
            }
        },
        None => {},
    }
    ignore_config.use_gitignore && gitignore_match
}

/// Whether the application state ignores `path`: like `ignored_iterative`,
/// except that nothing is ignored as soon as both default ignores and
/// gitignore are off, whatever the extra names.
pub open spec fn ignored_in_state(path: Seq<char>, cfg: IgnoreConfig, gitignore_match: bool) -> bool {
    if !cfg.use_default_ignores && !cfg.use_gitignore {
        false
    } else {
        ||| cfg.use_default_ignores && name_listed(path, default_ignored_dirs())
        ||| name_listed(path, string_views(cfg.extra_ignore_patterns@))
        ||| cfg.use_gitignore && gitignore_match
    }
}

/// Whether the application state ignores `path` (see `ignored_in_state`).
pub fn is_path_ignored_in_state(path: &str, ignore_config: &IgnoreConfig, gitignore_match: bool) -> (r: bool)
    ensures
        r == ignored_in_state(path@, *ignore_config, gitignore_match),
{
    if !ignore_config.use_default_ignores && !ignore_config.use_gitignore {
        return false;
    }
    let name = file_name(path);
    match name {
        Some(n) => {
            if ignore_config.use_default_ignores && is_default_ignored_dir(n.as_str()) {
                return true;
            }
            if string_in_vec(n.as_str(), &ignore_config.extra_ignore_patterns) {
                return true;
            }
        },
        None => {},
    }
    ignore_config.use_gitignore && gitignore_match
}

/// The regular-expression body of a wildcard pattern: each `*` becomes
/// `.*` and each `?` becomes `.`.
pub open spec fn wildcard_body(p: Seq<char>) -> Seq<char>
    decreases p.len(),
{
    if p.len() == 0 {
        seq![]
    } else {
        wildcard_body(p.drop_last()) + if p.last() == '*' {
            seq!['.', '*']
        } else if p.last() == '?' {
            seq!['.']
        } else {
            seq![p.last()]
        }
    }
}

/// The anchored regular expression of a wildcard pattern.
pub open spec fn wildcard_regex(p: Seq<char>) -> Seq<char> {
    seq!['^'] + wildcard_body(p) + seq!['$']
}

/// Whether a name matches an extra ignore pattern: its anchored regular
/// expression when that compiles, else `^$`.
pub open spec fn matches_extra_pattern(p: Seq<char>, name: Seq<char>) -> bool {
    if regex_valid(wildcard_regex(p)) {
        regex_is_match(wildcard_regex(p), name)
    } else {
        regex_valid("^$"@) && regex_is_match("^$"@, name)
    }
}

/// The anchored regular expression of a wildcard pattern.
pub fn wildcard_to_regex(p: &str) -> (r: String)
    ensures
        r@ == wildcard_regex(p@),
{
    let v = str_chars(p);
    let mut out: Vec<char> = Vec::new();
    out.push('^');
    let mut i: usize = 0;
    while i < v.len()
        invariant
            i <= v@.len(),
            v@ == p@,
            out@ == seq!['^'] + wildcard_body(v@.take(i as int)),
        decreases v@.len() - i,
    {
        let c = v[i];
        proof {
            assert(v@.take(i + 1).drop_last() == v@.take(i as int));
        }
        if c == '*' {
            out.push('.');
            out.push('*');
        } else if c == '?' {
            out.push('.');
        } else {
            out.push(c);
        }
        i = i + 1;
        proof {
            assert(out@ =~= seq!['^'] + wildcard_body(v@.take(i as int)));
        }
    }
    out.push('$');
    proof {
        assert(v@.take(v@.len() as int) == v@);
        assert(out@ =~= wildcard_regex(p@));
    }
    chars_to_string(&out)
}

/// Whether `name` matches the extra ignore pattern `p` (see `matches_extra_pattern`).
pub fn name_matches_pattern(p: &str, name: &str) -> (r: bool)
    ensures
        r == matches_extra_pattern(p@, name@),
{
    let rt = wildcard_to_regex(p);
    match compile_regex(rt.as_str()) {
        Some(re) => regex_matches(&re, name),
        None => match compile_regex("^$") {
            Some(re) => regex_matches(&re, name),
            None => false,
        },
    }
}

/// A normalized path holds no backslash, and normalizing it again changes
/// nothing.
pub proof fn lemma_normalize_path(p: Seq<char>)
    ensures
        !replace_char(p, '\\', '/').contains('\\'),
        replace_char(replace_char(p, '\\', '/'), '\\', '/') == replace_char(p, '\\', '/'),
{
    let n = replace_char(p, '\\', '/');
    assert(replace_char(n, '\\', '/') =~= n);
}

/// Whether the traversal with compiled patterns ignores `path`: nothing is
/// ignored when default ignores and gitignore are both off; otherwise a path
/// is ignored when its name is a default-ignored directory (with default
/// ignores on), matches one of the extra wildcard patterns, or the
/// applicable `.gitignore` files ignore it (with gitignore on).
pub open spec fn ignored_with_patterns(path: Seq<char>, cfg: IgnoreConfig, gitignore_match: bool) -> bool {
    if !cfg.use_default_ignores && !cfg.use_gitignore {
        false
    } else {
        ||| cfg.use_default_ignores && name_listed(path, default_ignored_dirs())
        ||| (file_name_of(components(path)) matches Some(n) && exists|i: int|
            0 <= i < cfg.extra_ignore_patterns@.len()
                && matches_extra_pattern(#[trigger] cfg.extra_ignore_patterns@[i]@, n))
        ||| cfg.use_gitignore && gitignore_match
    }
}

/// Whether the traversal with compiled patterns ignores `path` (see
/// `ignored_with_patterns`).
pub fn is_path_ignored_iterative_cached(path: &str, ignore_config: &IgnoreConfig, gitignore_match: bool) -> (r: bool)
    ensures
        r == ignored_with_patterns(path@, *ignore_config, gitignore_match),
{
    if !ignore_config.use_default_ignores && !ignore_config.use_gitignore {
        return false;
    }
    let name = file_name(path);
    match name {
        Some(n) => {
            if ignore_config.use_default_ignores && is_default_ignored_dir(n.as_str()) {
                return true;
            }
            let pats = &ignore_config.extra_ignore_patterns;
            let mut i: usize = 0;
            while i < pats.len()
                invariant
                    i <= pats@.len(),
                    pats@ == ignore_config.extra_ignore_patterns@,
                    file_name_of(components(path@)) == Some(n@),
                    ignore_config.use_default_ignores || ignore_config.use_gitignore,
                    forall|j: int| 0 <= j < i ==> !matches_extra_pattern(#[trigger] pats@[j]@, n@),
                decreases pats@.len() - i,
            {
                if name_matches_pattern(pats[i].as_str(), n.as_str()) {
                    proof {
                        assert(matches_extra_pattern(ignore_config.extra_ignore_patterns@[i as int]@, n@));
                        assert(file_name_of(components(path@)) == Some(n@));
                        assert(exists|j: int| 0 <= j < ignore_config.extra_ignore_patterns@.len()
                            && matches_extra_pattern(#[trigger] ignore_config.extra_ignore_patterns@[j]@, n@));
                    }
                    return true;
                }
                i = i + 1;
            }
        },
        None => {},
    }
    ignore_config.use_gitignore && gitignore_match
}

/// The directory names that exclude a path anywhere along it.
pub open spec fn excluded_names() -> Seq<Seq<char>> {
    seq!["node_modules"@, ".git"@, "target"@]
}

/// Whether some component of the path is `node_modules`, `.git` or `target`.
pub open spec fn excluded(path: Seq<char>) -> bool {
    exists|k: int| 0 <= k < components(path).len() && excluded_names().contains(#[trigger] components(path)[k])
}

/// Whether some component of `path` is `node_modules`, `.git` or `target`.
pub fn is_excluded(path: &str) -> (r: bool)
    ensures
        r == excluded(path@),
{
    let comps = parse_components(path);
    let list: [&str; 3] = ["node_modules", ".git", "target"];
    proof {
        assert(list@.map_values(|x: &str| x@) =~= excluded_names());
    }
    let mut k: usize = 0;
    while k < comps.len()
        invariant
            k <= comps@.len(),
            list@.map_values(|x: &str| x@) == excluded_names(),
            comps@.len() == components(path@).len(),
            forall|j: int| 0 <= j < comps@.len() ==> #[trigger] comps@[j]@ == components(path@)[j],
            forall|j: int| 0 <= j < k ==> !excluded_names().contains(#[trigger] components(path@)[j]),
        decreases comps@.len() - k,
    {
        let c = chars_to_string(comps[k].as_slice());
        if str_in_list(c.as_str(), list.as_slice()) {
            proof {
                assert(excluded_names().contains(components(path@)[k as int]));
            }
            return true;
        }
        k = k + 1;
    }
    false
}

/// Every path below the directory `dir` that the traversal does not ignore,
/// depth first in listing order, and whether every directory on the way
/// could be listed; `gi` holds the paths the `.gitignore` files ignore.
/// Nothing is collected when `dir` is not a directory. When a directory
/// cannot be listed the walk stops there, keeping what came before.
pub open spec fn descendants(
    snap: Seq<FsEntry>,
    gi: Seq<Seq<Seq<char>>>,
    cfg: IgnoreConfig,
    dir: Seq<Seq<char>>,
) -> (Seq<Seq<char>>, bool)
    decreases snap_left(snap, dir), 1nat, 0nat,
{
    if kind_of(snap, dir) != EntryKind::Dir {
        (seq![], true)
    } else {
        match listing_of(snap, dir) {
            Some(l) => descendants_in(snap, gi, cfg, dir, l, l.len() as int),
            None => (seq![], false),
        }
    }
}

/// What the first `n` entries of the listing `l` of `dir` add: an entry not
/// ignored, then, when it is a directory below `dir`, what lies below it.
pub open spec fn descendants_in(
    snap: Seq<FsEntry>,
    gi: Seq<Seq<Seq<char>>>,
    cfg: IgnoreConfig,
    dir: Seq<Seq<char>>,
    l: Seq<String>,
    n: int,
) -> (Seq<Seq<char>>, bool)
    decreases snap_left(snap, dir), 0nat, n,
{
    if n <= 0 || n > l.len() {
        (seq![], true)
    } else {
        let prev = descendants_in(snap, gi, cfg, dir, l, n - 1);
        let e = l[n - 1]@;
        let ec = components(e);
        if !prev.1 || ignored_with_patterns(e, cfg, gi.contains(ec)) {
            prev
        } else if kind_of(snap, ec) == EntryKind::Dir && ec.len() > dir.len() {
            proof {
                lemma_snap_depth(snap, ec);
            }
            let sub = descendants(snap, gi, cfg, ec);
            (prev.0.push(e) + sub.0, sub.1)
        } else {
            (prev.0.push(e), true)
        }
    }
}

/// Once a walk has failed, the later entries change nothing.
proof fn lemma_descendants_stop(
    snap: Seq<FsEntry>,
    gi: Seq<Seq<Seq<char>>>,
    cfg: IgnoreConfig,
    dir: Seq<Seq<char>>,
    l: Seq<String>,
    n: int,
    m: int,
)
    requires
        0 <= n <= m <= l.len(),
        !descendants_in(snap, gi, cfg, dir, l, n).1,
    ensures
        descendants_in(snap, gi, cfg, dir, l, m) == descendants_in(snap, gi, cfg, dir, l, n),
    decreases m - n,
{
    if m > n {
        lemma_descendants_stop(snap, gi, cfg, dir, l, n, m - 1);
    }
}

/// Appends the paths `descendants` collects below `dirc`; returns whether
/// every directory on the way could be listed.
fn descend_exec(
    snap: &Vec<FsEntry>,
    gic: &Vec<Vec<Vec<char>>>,
    cfg: &IgnoreConfig,
    dirc: &Vec<Vec<char>>,
    out: &mut Vec<String>,
) -> (r: bool)
    ensures
        ({
            let d = descendants(snap@, gic@.map_values(|x: Vec<Vec<char>>| comps_view(x@)), *cfg, comps_view(dirc@));
            &&& texts(final(out)@) == texts(old(out)@) + d.0
            &&& r == d.1
        }),
    decreases snap_left(snap@, comps_view(dirc@)),
{
    let ghost gi = gic@.map_values(|x: Vec<Vec<char>>| comps_view(x@));
    let ghost dir = comps_view(dirc@);
    let ghost start = texts(out@);
    let k = match lookup_index(snap, dirc) {
        Some(k) => k,
        None => {
            proof {
                assert(texts(out@) =~= start + seq![]);
            }
            return true;
        },
    };
    if snap[k].kind != EntryKind::Dir {
        proof {
            assert(texts(out@) =~= start + seq![]);
        }
        return true;
    }
    let l = match &snap[k].listing {
        Some(l) => l,
        None => {
            proof {
                assert(texts(out@) =~= start + seq![]);
            }
            return false;
        },
    };
    proof {
        assert(listing_of(snap@, dir) == Some(l@));
    }
    let mut i: usize = 0;
    proof {
        assert(texts(out@) =~= start + seq![]);
    }
    while i < l.len()
        invariant
            i <= l@.len(),
            dir == comps_view(dirc@),
            start == texts(old(out)@),
            gi == gic@.map_values(|x: Vec<Vec<char>>| comps_view(x@)),
            listing_of(snap@, dir) == Some(l@),
            kind_of(snap@, dir) == EntryKind::Dir,
            descendants_in(snap@, gi, *cfg, dir, l@, i as int).1,
            texts(out@) == start + descendants_in(snap@, gi, *cfg, dir, l@, i as int).0,
        decreases l@.len() - i,
    {
        let ghost before = out@;
        let e = l[i].as_str();
        let ec = parse_components(e);
        proof {
            assert(comps_view(ec@) =~= components(l@[i as int]@));
        }
        let gm = comps_in(gic, &ec);
        if !is_path_ignored_iterative_cached(e, cfg, gm) {
            out.push(l[i].clone());
            proof {
                assert(texts(out@) =~= texts(before).push(l@[i as int]@));
            }
            let idx = lookup_index(snap, &ec);
            let j: usize = match idx {
                Some(j) => j,
                None => snap.len(),
            };
            let kind = if j < snap.len() {
                snap[j].kind
            } else {
                EntryKind::Missing
            };
            proof {
                assert(kind == kind_of(snap@, comps_view(ec@)));
            }
            if kind == EntryKind::Dir && ec.len() > dirc.len() {
                proof {
                    lemma_snap_depth(snap@, comps_view(ec@));
                }
                let ghost mid = texts(out@);
                let ok = descend_exec(snap, gic, cfg, &ec, out);
                proof {
                    assert(texts(out@) =~= start + descendants_in(snap@, gi, *cfg, dir, l@, i + 1).0);
                }
                if !ok {
                    proof {
                        lemma_descendants_stop(snap@, gi, *cfg, dir, l@, i + 1, l@.len() as int);
                        assert(descendants(snap@, gi, *cfg, dir) == descendants_in(snap@, gi, *cfg, dir, l@, l@.len() as int));
                    }
                    return false;
                }
            } else {
                proof {
                    assert(texts(out@) =~= start + descendants_in(snap@, gi, *cfg, dir, l@, i + 1).0);
                }
            }
        } else {
            proof {
                assert(texts(out@) =~= start + descendants_in(snap@, gi, *cfg, dir, l@, i + 1).0);
            }
        }
        i = i + 1;
    }
    proof {
        assert(descendants(snap@, gi, *cfg, dir) == descendants_in(snap@, gi, *cfg, dir, l@, l@.len() as int));
    }
    true
}

/// Adds to `descendants_set` every path below the folder `folder_path` that
/// the traversal does not ignore (see `descendants`), reading the disk from
/// `snapshot`; `gitignored` lists the paths the `.gitignore` files ignore.
/// Fails when a directory on the way cannot be listed, keeping what was
/// added before it.
pub fn collect_folder_descendants(
    folder_path: &str,
    ignore_config: &IgnoreConfig,
    snapshot: &Vec<FsEntry>,
    gitignored: &Vec<String>,
    descendants_set: &mut PathSet,
) -> (r: Result<(), WalkError>)
    ensures
        ({
            let d = descendants(snapshot@, comps_list(gitignored@), *ignore_config, components(folder_path@));
            &&& final(descendants_set).view() == old(descendants_set).view().union(
                d.0.map_values(|p: Seq<char>| components(p)).to_set(),
            )
            &&& (r is Ok <==> d.1)
        }),
{
    let gic = parse_all(gitignored);
    let dirc = parse_components(folder_path);
    proof {
        assert(gic@.map_values(|x: Vec<Vec<char>>| comps_view(x@)) =~= comps_list(gitignored@));
        assert(comps_view(dirc@) =~= components(folder_path@));
    }
    let mut found: Vec<String> = Vec::new();
    let ok = descend_exec(snapshot, &gic, ignore_config, &dirc, &mut found);
    let ghost d = texts(found@);
    let ghost old_set = descendants_set.view();
    let mut i: usize = 0;
    while i < found.len()
        invariant
            i <= found@.len(),
            d == texts(found@),
            descendants_set.view() == old_set.union(d.take(i as int).map_values(|p: Seq<char>| components(p)).to_set()),
        decreases found@.len() - i,
    {
        let ghost before = descendants_set.view();
        descendants_set.insert(found[i].clone());
        proof {
            let f = |p: Seq<char>| components(p);
            let s0 = d.take(i as int).map_values(f);
            let s1 = d.take(i + 1).map_values(f);
            assert(s1 =~= s0.push(f(d[i as int])));
            assert forall|c: Seq<Seq<char>>| s1.contains(c) <==> (s0.contains(c) || c == f(d[i as int])) by {
                if s1.contains(c) {
                    let k = choose|k: int| 0 <= k < s1.len() && s1[k] == c;
                    if k < s0.len() {
                        assert(s0[k] == s1[k]);
                    }
                }
                if s0.contains(c) {
                    let k = choose|k: int| 0 <= k < s0.len() && s0[k] == c;
                    assert(s1[k] == s0[k]);
                }
                if c == f(d[i as int]) {
                    assert(s1[i as int] == c);
                }
            }
            assert(s1.to_set() =~= s0.to_set().insert(f(d[i as int])));
            assert(descendants_set.view() =~= old_set.union(s1.to_set()));
        }
        i = i + 1;
    }
    proof {
        assert(d.take(found@.len() as int) =~= d);
    }
    if ok {
        Ok(())
    } else {
        Err(WalkError::UnreadableDirectory)
    }
}

/// How many snapshot entries have a path not in `v`.
pub open spec fn unvisited(snap: Seq<FsEntry>, v: Set<Seq<Seq<char>>>) -> nat
    decreases snap.len(),
{
    if snap.len() == 0 {
        0
    } else {
        unvisited(snap.drop_last(), v) + if v.contains(components(snap.last().path@)) {
            0nat
        } else {
            1nat
        }
    }
}

/// A path the snapshot holds is one of its entries' paths.
pub proof fn lemma_lookup_index(snap: Seq<FsEntry>, c: Seq<Seq<char>>) -> (i: int)
    requires
        lookup(snap, c) is Some,
    ensures
        0 <= i < snap.len(),
        components(snap[i].path@) == c,
    decreases snap.len(),
{
    if components(snap[0].path@) == c {
        0
    } else {
        let j = lemma_lookup_index(snap.drop_first(), c);
        assert(snap.drop_first()[j] == snap[j + 1]);
        j + 1
    }
}

/// Marking a path visited never adds unvisited entries, and removes one
/// when the snapshot's entry `i` has that path and it was not visited.
pub proof fn lemma_unvisited_insert(snap: Seq<FsEntry>, v: Set<Seq<Seq<char>>>, c: Seq<Seq<char>>, i: int)
    ensures
        unvisited(snap, v.insert(c)) <= unvisited(snap, v),
        0 <= i < snap.len() && components(snap[i].path@) == c && !v.contains(c)
            ==> unvisited(snap, v.insert(c)) < unvisited(snap, v),
    decreases snap.len(),
{
    if snap.len() > 0 {
        let last = snap.drop_last();
        if 0 <= i < last.len() {
            assert(last[i] == snap[i]);
        }
        lemma_unvisited_insert(last, v, c, i);
    }
}

/// The directories among the entries of a listing, in listing order.
pub open spec fn dir_entries(snap: Seq<FsEntry>, l: Seq<String>) -> Seq<Seq<Seq<char>>>
    decreases l.len(),
{
    if l.len() == 0 {
        seq![]
    } else {
        let prev = dir_entries(snap, l.drop_last());
        let c = components(l.last()@);
        if kind_of(snap, c) == EntryKind::Dir {
            prev.push(c)
        } else {
            prev
        }
    }
}

/// The paths `list_files` collects from the directories still to visit
/// (`stack`, the last visited first) once the paths in `visited` are done:
/// each directory that exists and was not visited yet is marked visited,
/// and, when it can be listed, its entries are collected in listing order
/// and its subdirectories are put on the stack.
pub open spec fn list_walk(snap: Seq<FsEntry>, stack: Seq<Seq<Seq<char>>>, visited: Set<Seq<Seq<char>>>) -> Seq<Seq<char>>
    decreases unvisited(snap, visited), stack.len(),
{
    if stack.len() == 0 {
        seq![]
    } else {
        let cur = stack.last();
        let rest = stack.drop_last();
        if kind_of(snap, cur) == EntryKind::Missing || visited.contains(cur) {
            list_walk(snap, rest, visited)
        } else {
            let v2 = visited.insert(cur);
            proof {
                let i = lemma_lookup_index(snap, cur);
                lemma_unvisited_insert(snap, visited, cur, i);
            }
            match listing_of(snap, cur) {
                None => list_walk(snap, rest, v2),
                Some(l) => l.map_values(|s: String| s@) + list_walk(snap, rest + dir_entries(snap, l), v2),
            }
        }
    }
}

/// The view of a list of paths as a set of parsed paths.
pub open spec fn parsed_set(v: Seq<Vec<Vec<char>>>) -> Set<Seq<Seq<char>>> {
    v.map_values(|x: Vec<Vec<char>>| comps_view(x@)).to_set()
}

/// Pushing onto a sequence adds the element to its set.
pub proof fn lemma_push_to_set<A>(s: Seq<A>, x: A)
    ensures
        s.push(x).to_set() == s.to_set().insert(x),
{
    let t = s.push(x);
    assert forall|c: A| t.contains(c) <==> (s.contains(c) || c == x) by {
        if t.contains(c) {
            let k = choose|k: int| 0 <= k < t.len() && t[k] == c;
            if k < s.len() {
                assert(s[k] == t[k]);
            }
        }
        if s.contains(c) {
            let k = choose|k: int| 0 <= k < s.len() && s[k] == c;
            assert(t[k] == s[k]);
        }
        if c == x {
            assert(t[s.len() as int] == c);
        }
    }
    assert(t.to_set() =~= s.to_set().insert(x));
}

/// Every file and directory below `path`, as `list_walk` collects them
/// from `path`, reading the disk from `snapshot`.
pub fn list_files(path: &str, snapshot: &Vec<FsEntry>) -> (r: Vec<String>)
    ensures
        texts(r@) == list_walk(snapshot@, seq![components(path@)], Set::empty()),
{
    let ghost total = list_walk(snapshot@, seq![components(path@)], Set::empty());
    let mut result: Vec<String> = Vec::new();
    let mut visited: Vec<Vec<Vec<char>>> = Vec::new();
    let mut stack: Vec<String> = Vec::new();
    stack.push(path.to_string());
    proof {
        assert(comps_list(stack@) =~= seq![components(path@)]);
        assert(parsed_set(visited@) =~= Set::empty());
        assert(texts(result@) + list_walk(snapshot@, comps_list(stack@), parsed_set(visited@)) =~= total);
    }
    while stack.len() > 0
        invariant
            texts(result@) + list_walk(snapshot@, comps_list(stack@), parsed_set(visited@)) == total,
        decreases unvisited(snapshot@, parsed_set(visited@)), stack@.len(),
    {
        let ghost st = comps_list(stack@);
        let ghost vs = parsed_set(visited@);
        let ghost res0 = texts(result@);
        let cur = stack.pop().unwrap();
        let cc = parse_components(cur.as_str());
        proof {
            assert(comps_view(cc@) =~= components(cur@));
            assert(comps_list(stack@) =~= st.drop_last());
            assert(st.last() == components(cur@));
            assert(visited@.map_values(|x: Vec<Vec<char>>| comps_view(x@)).contains(comps_view(cc@)) == vs.contains(comps_view(cc@)));
        }
        let idx = lookup_index(snapshot, &cc);
        let j: usize = match idx {
            Some(j) => j,
            None => snapshot.len(),
        };
        if j >= snapshot.len() || snapshot[j].kind == EntryKind::Missing || comps_in(&visited, &cc) {
            proof {
                assert(kind_of(snapshot@, comps_view(cc@)) == EntryKind::Missing || vs.contains(comps_view(cc@)));
            }
            continue;
        }
        let ghost v2 = vs.insert(comps_view(cc@));
        proof {
            let i = lemma_lookup_index(snapshot@, comps_view(cc@));
            lemma_unvisited_insert(snapshot@, vs, comps_view(cc@), i);
            lemma_push_to_set(visited@.map_values(|x: Vec<Vec<char>>| comps_view(x@)), comps_view(cc@));
            assert(visited@.push(cc).map_values(|x: Vec<Vec<char>>| comps_view(x@))
                =~= visited@.map_values(|x: Vec<Vec<char>>| comps_view(x@)).push(comps_view(cc@)));
        }
        visited.push(cc);
        proof {
            assert(parsed_set(visited@) == v2);
        }
        match &snapshot[j].listing {
            None => {
                proof {
                    assert(listing_of(snapshot@, st.last()) is None);
                }
            },
            Some(l) => {
                proof {
                    assert(listing_of(snapshot@, st.last()) == Some(l@));
                }
                let ghost rest = comps_list(stack@);
                let mut k: usize = 0;
                while k < l.len()
                    invariant
                        k <= l@.len(),
                        texts(result@) == res0 + l@.take(k as int).map_values(|s: String| s@),
                        comps_list(stack@) == rest + dir_entries(snapshot@, l@.take(k as int)),
                    decreases l@.len() - k,
                {
                    proof {
                        assert(l@.take(k + 1).drop_last() =~= l@.take(k as int));
                        assert(l@.take(k + 1).last() == l@[k as int]);
                    }
                    let ghost rb = result@;
                    let ghost sb = stack@;
                    result.push(l[k].clone());
                    proof {
                        assert(texts(result@) =~= texts(rb).push(l@[k as int]@));
                        assert(l@.take(k + 1).map_values(|s: String| s@) =~= l@.take(k as int).map_values(|s: String| s@).push(l@[k as int]@));
                    }
                    let ec = parse_components(l[k].as_str());
                    proof {
                        assert(comps_view(ec@) =~= components(l@[k as int]@));
                    }
                    let ei = lookup_index(snapshot, &ec);
                    let is_dir = match ei {
                        Some(t) => snapshot[t].kind == EntryKind::Dir,
                        None => false,
                    };
                    if is_dir {
                        stack.push(l[k].clone());
                        proof {
                            assert(comps_list(stack@) =~= comps_list(sb).push(components(l@[k as int]@)));
                        }
                    }
                    k = k + 1;
                }
                proof {
                    assert(l@.take(l@.len() as int) =~= l@);
                    assert(res0 + l@.map_values(|s: String| s@) + list_walk(snapshot@, rest + dir_entries(snapshot@, l@), v2)
                        == res0 + (l@.map_values(|s: String| s@) + list_walk(snapshot@, rest + dir_entries(snapshot@, l@), v2)));
                }
            },
        }
    }
    proof {
        assert(texts(result@) =~= total);
    }
    result
}

/// What `count_selection_items` counts from the paths still to visit
/// (`stack`, the last pushed first) once `count` items were counted: each
/// path the traversal does not ignore counts when it is a file or a
/// directory, and a directory's entries are put on the stack; the count
/// stops as soon as it exceeds `limit`. `None` when a directory on the way
/// cannot be listed.
pub open spec fn count_walk(
    snap: Seq<FsEntry>,
    gi: Seq<Seq<Seq<char>>>,
    cfg: IgnoreConfig,
    limit: nat,
    stack: Seq<Seq<char>>,
    count: nat,
) -> Option<nat>
    decreases limit + 1 - count, stack.len(),
{
    if count > limit || stack.len() == 0 {
        Some(count)
    } else {
        let cur = stack.last();
        let rest = stack.drop_last();
        let cc = components(cur);
        if ignored_iterative(cur, cfg, gi.contains(cc)) {
            count_walk(snap, gi, cfg, limit, rest, count)
        } else {
            match kind_of(snap, cc) {
                EntryKind::File => count_walk(snap, gi, cfg, limit, rest, count + 1),
                EntryKind::Dir => if count + 1 > limit {
                    Some(count + 1)
                } else {
                    match listing_of(snap, cc) {
                        Some(l) => count_walk(snap, gi, cfg, limit, rest + texts(l), count + 1),
                        None => None,
                    }
                },
                EntryKind::Missing => count_walk(snap, gi, cfg, limit, rest, count),
            }
        }
    }
}

/// How many items selecting `path` selects: 1 for a file; for a directory
/// the count of `count_walk` from it; 0 when it is neither.
pub open spec fn selection_count(
    snap: Seq<FsEntry>,
    gi: Seq<Seq<Seq<char>>>,
    cfg: IgnoreConfig,
    limit: nat,
    path: Seq<char>,
) -> Option<nat> {
    match kind_of(snap, components(path)) {
        EntryKind::File => Some(1),
        EntryKind::Dir => count_walk(snap, gi, cfg, limit, seq![path], 0),
        EntryKind::Missing => Some(0),
    }
}

/// The count never runs past one over the limit.
proof fn lemma_count_walk_bound(
    snap: Seq<FsEntry>,
    gi: Seq<Seq<Seq<char>>>,
    cfg: IgnoreConfig,
    limit: nat,
    stack: Seq<Seq<char>>,
    count: nat,
)
    requires
        count <= limit + 1,
    ensures
        count_walk(snap, gi, cfg, limit, stack, count) matches Some(n) ==> n <= limit + 1,
    decreases limit + 1 - count, stack.len(),
{
    if count > limit || stack.len() == 0 {
    } else {
        let cur = stack.last();
        let rest = stack.drop_last();
        let cc = components(cur);
        if ignored_iterative(cur, cfg, gi.contains(cc)) {
            lemma_count_walk_bound(snap, gi, cfg, limit, rest, count);
        } else {
            match kind_of(snap, cc) {
                EntryKind::File => lemma_count_walk_bound(snap, gi, cfg, limit, rest, count + 1),
                EntryKind::Dir => if count + 1 > limit {
                } else {
                    match listing_of(snap, cc) {
                        Some(l) => lemma_count_walk_bound(snap, gi, cfg, limit, rest + texts(l), count + 1),
                        None => {},
                    }
                },
                EntryKind::Missing => lemma_count_walk_bound(snap, gi, cfg, limit, rest, count),
            }
        }
    }
}

/// What selecting a path counts is at most one over the limit.
pub proof fn lemma_selection_count_bound(snap: Seq<FsEntry>, gi: Seq<Seq<Seq<char>>>, cfg: IgnoreConfig, limit: nat, path: Seq<char>)
    ensures
        selection_count(snap, gi, cfg, limit, path) matches Some(n) ==> n <= limit + 1,
{
    lemma_count_walk_bound(snap, gi, cfg, limit, seq![path], 0);
}

/// Counts the items that selecting `path` would select (see
/// `selection_count`), stopping once the count exceeds `selection_limit`;
/// reads the disk from `snapshot`, and `gitignored` lists the paths the
/// `.gitignore` files ignore. Fails when a directory on the way cannot be
/// listed.
pub fn count_selection_items(
    path: &str,
    ignore_config: &IgnoreConfig,
    selection_limit: usize,
    snapshot: &Vec<FsEntry>,
    gitignored: &Vec<String>,
) -> (r: Result<usize, WalkError>)
    requires
        selection_limit < usize::MAX,
    ensures
        match selection_count(snapshot@, comps_list(gitignored@), *ignore_config, selection_limit as nat, path@) {
            Some(n) => r == Ok::<usize, WalkError>(n as usize),
            None => r is Err,
        },
{
    let ghost gi = comps_list(gitignored@);
    let gic = parse_all(gitignored);
    proof {
        assert(gic@.map_values(|x: Vec<Vec<char>>| comps_view(x@)) =~= gi);
    }
    let pc = parse_components(path);
    proof {
        assert(comps_view(pc@) =~= components(path@));
    }
    let kind = match lookup_index(snapshot, &pc) {
        Some(j) => snapshot[j].kind,
        None => EntryKind::Missing,
    };
    match kind {
        EntryKind::File => {
            return Ok(1);
        },
        EntryKind::Missing => {
            return Ok(0);
        },
        EntryKind::Dir => {},
    }
    let ghost total = count_walk(snapshot@, gi, *ignore_config, selection_limit as nat, seq![path@], 0);
    proof {
        assert(kind == kind_of(snapshot@, components(path@)));
    }
    let mut count: usize = 0;
    let mut stack: Vec<String> = Vec::new();
    stack.push(path.to_string());
    proof {
        assert(texts(stack@) =~= seq![path@]);
    }
    while stack.len() > 0
        invariant
            count <= selection_limit < usize::MAX,
            gi == gic@.map_values(|x: Vec<Vec<char>>| comps_view(x@)),
            gi == comps_list(gitignored@),
            kind_of(snapshot@, components(path@)) == EntryKind::Dir,
            total == count_walk(snapshot@, gi, *ignore_config, selection_limit as nat, seq![path@], 0),
            count_walk(snapshot@, gi, *ignore_config, selection_limit as nat, texts(stack@), count as nat) == total,
        decreases selection_limit + 1 - count, stack@.len(),
    {
        let ghost st = texts(stack@);
        let cur = stack.pop().unwrap();
        proof {
            assert(texts(stack@) =~= st.drop_last());
            assert(st.last() == cur@);
        }
        let cc = parse_components(cur.as_str());
        proof {
            assert(comps_view(cc@) =~= components(cur@));
        }
        let gm = comps_in(&gic, &cc);
        if is_path_ignored_iterative(cur.as_str(), ignore_config, gm) {
            continue;
        }
        let ck = match lookup_index(snapshot, &cc) {
            Some(j) => Some(j),
            None => None,
        };
        let k = match ck {
            Some(j) => snapshot[j].kind,
            None => EntryKind::Missing,
        };
        proof {
            assert(k == kind_of(snapshot@, comps_view(cc@)));
        }
        match k {
            EntryKind::File => {
                count = count + 1;
                proof {
                    assert(count_walk(snapshot@, gi, *ignore_config, selection_limit as nat, texts(stack@), count as nat) == total);
                }
                if count > selection_limit {
                    return Ok(count);
                }
            },
            EntryKind::Dir => {
                count = count + 1;
                if count > selection_limit {
                    return Ok(count);
                }
                let j = match ck {
                    Some(j) => j,
                    None => {
                        return Err(WalkError::UnreadableDirectory);
                    },
                };
                let l = match &snapshot[j].listing {
                    Some(l) => l,
                    None => {
                        return Err(WalkError::UnreadableDirectory);
                    },
                };
                proof {
                    assert(listing_of(snapshot@, components(cur@)) == Some(l@));
                }
                let ghost rest = texts(stack@);
                let mut i: usize = 0;
                while i < l.len()
                    invariant
                        i <= l@.len(),
                        texts(stack@) == rest + texts(l@.take(i as int)),
                    decreases l@.len() - i,
                {
                    let ghost sb = stack@;
                    stack.push(l[i].clone());
                    proof {
                        assert(texts(stack@) =~= texts(sb).push(l@[i as int]@));
                        assert(texts(l@.take(i + 1)) =~= texts(l@.take(i as int)).push(l@[i as int]@));
                    }
                    i = i + 1;
                }
                proof {
                    assert(l@.take(l@.len() as int) =~= l@);
                }
            },
            EntryKind::Missing => {},
        }
    }
    Ok(count)
}

/// The subdirectories of a listing that the traversal does not ignore, in
/// listing order.
pub open spec fn subdir_entries(snap: Seq<FsEntry>, gi: Seq<Seq<Seq<char>>>, cfg: IgnoreConfig, l: Seq<String>) -> Seq<Seq<char>>
    decreases l.len(),
{
    if l.len() == 0 {
        seq![]
    } else {
        let prev = subdir_entries(snap, gi, cfg, l.drop_last());
        let p = l.last()@;
        let c = components(p);
        if kind_of(snap, c) == EntryKind::Dir && !ignored_iterative(p, cfg, gi.contains(c)) {
            prev.push(p)
        } else {
            prev
        }
    }
}

/// The directories `collect_all_subdirs` finds from the paths still to
/// visit (`stack`, the last pushed first) once the paths in `visited` are
/// done: each directory that exists and was not visited yet is marked
/// visited and kept, and its subdirectories that are not ignored are put on
/// the stack.
pub open spec fn subdir_walk(
    snap: Seq<FsEntry>,
    gi: Seq<Seq<Seq<char>>>,
    cfg: IgnoreConfig,
    stack: Seq<Seq<char>>,
    visited: Set<Seq<Seq<char>>>,
) -> Seq<Seq<char>>
    decreases unvisited(snap, visited), stack.len(),
{
    if stack.len() == 0 {
        seq![]
    } else {
        let cur = stack.last();
        let rest = stack.drop_last();
        let cc = components(cur);
        if kind_of(snap, cc) == EntryKind::Missing || visited.contains(cc) {
            subdir_walk(snap, gi, cfg, rest, visited)
        } else {
            let v2 = visited.insert(cc);
            proof {
                let i = lemma_lookup_index(snap, cc);
                lemma_unvisited_insert(snap, visited, cc, i);
            }
            if kind_of(snap, cc) == EntryKind::Dir {
                match listing_of(snap, cc) {
                    None => seq![cur] + subdir_walk(snap, gi, cfg, rest, v2),
                    Some(l) => seq![cur] + subdir_walk(snap, gi, cfg, rest + subdir_entries(snap, gi, cfg, l), v2),
                }
            } else {
                subdir_walk(snap, gi, cfg, rest, v2)
            }
        }
    }
}

/// Every directory at or below `base_dir` that the traversal reaches (see
/// `subdir_walk`), reading the disk from `snapshot`; `gitignored` lists the
/// paths the `.gitignore` files ignore. Unreadable directories are passed
/// over, so this never fails.
pub fn collect_all_subdirs(
    base_dir: &str,
    ignore_config: &IgnoreConfig,
    snapshot: &Vec<FsEntry>,
    gitignored: &Vec<String>,
) -> (r: Result<PathSet, WalkError>)
    ensures
        r matches Ok(dirs) && dirs.view() == subdir_walk(
            snapshot@,
            comps_list(gitignored@),
            *ignore_config,
            seq![base_dir@],
            Set::empty(),
        ).map_values(|p: Seq<char>| components(p)).to_set(),
{
    let ghost gi = comps_list(gitignored@);
    let gic = parse_all(gitignored);
    proof {
        assert(gic@.map_values(|x: Vec<Vec<char>>| comps_view(x@)) =~= gi);
    }
    let ghost total = subdir_walk(snapshot@, gi, *ignore_config, seq![base_dir@], Set::empty());
    let mut found: Vec<String> = Vec::new();
    let mut visited: Vec<Vec<Vec<char>>> = Vec::new();
    let mut stack: Vec<String> = Vec::new();
    stack.push(base_dir.to_string());
    proof {
        assert(texts(stack@) =~= seq![base_dir@]);
        assert(parsed_set(visited@) =~= Set::empty());
        assert(texts(found@) + subdir_walk(snapshot@, gi, *ignore_config, texts(stack@), parsed_set(visited@)) =~= total);
    }
    while stack.len() > 0
        invariant
            gi == gic@.map_values(|x: Vec<Vec<char>>| comps_view(x@)),
            texts(found@) + subdir_walk(snapshot@, gi, *ignore_config, texts(stack@), parsed_set(visited@)) == total,
        decreases unvisited(snapshot@, parsed_set(visited@)), stack@.len(),
    {
        let ghost st = texts(stack@);
        let ghost vs = parsed_set(visited@);
        let ghost res0 = texts(found@);
        let cur = stack.pop().unwrap();
        let cc = parse_components(cur.as_str());
        proof {
            assert(comps_view(cc@) =~= components(cur@));
            assert(texts(stack@) =~= st.drop_last());
            assert(st.last() == cur@);
            assert(visited@.map_values(|x: Vec<Vec<char>>| comps_view(x@)).contains(comps_view(cc@)) == vs.contains(comps_view(cc@)));
        }
        let idx = lookup_index(snapshot, &cc);
        let j: usize = match idx {
            Some(j) => j,
            None => snapshot.len(),
        };
        if j >= snapshot.len() || snapshot[j].kind == EntryKind::Missing || comps_in(&visited, &cc) {
            continue;
        }
        let ghost v2 = vs.insert(comps_view(cc@));
        proof {
            let i = lemma_lookup_index(snapshot@, comps_view(cc@));
            lemma_unvisited_insert(snapshot@, vs, comps_view(cc@), i);
            lemma_push_to_set(visited@.map_values(|x: Vec<Vec<char>>| comps_view(x@)), comps_view(cc@));
            assert(visited@.push(cc).map_values(|x: Vec<Vec<char>>| comps_view(x@))
                =~= visited@.map_values(|x: Vec<Vec<char>>| comps_view(x@)).push(comps_view(cc@)));
        }
        visited.push(cc);
        proof {
            assert(parsed_set(visited@) == v2);
        }
        if snapshot[j].kind != EntryKind::Dir {
            continue;
        }
        let ghost fb = found@;
        found.push(cur.clone());
        proof {
            assert(texts(found@) =~= texts(fb).push(cur@));
        }
        match &snapshot[j].listing {
            None => {
                proof {
                    assert(listing_of(snapshot@, components(st.last())) is None);
                    assert(res0 + (seq![cur@] + subdir_walk(snapshot@, gi, *ignore_config, texts(stack@), v2))
                        =~= texts(found@) + subdir_walk(snapshot@, gi, *ignore_config, texts(stack@), v2));
                }
            },
            Some(l) => {
                proof {
                    assert(listing_of(snapshot@, components(st.last())) == Some(l@));
                }
                let ghost rest = texts(stack@);
                let mut k: usize = 0;
                while k < l.len()
                    invariant
                        k <= l@.len(),
                        gi == gic@.map_values(|x: Vec<Vec<char>>| comps_view(x@)),
                        texts(stack@) == rest + subdir_entries(snapshot@, gi, *ignore_config, l@.take(k as int)),
                    decreases l@.len() - k,
                {
                    proof {
                        assert(l@.take(k + 1).drop_last() =~= l@.take(k as int));
                        assert(l@.take(k + 1).last() == l@[k as int]);
                    }
                    let ec = parse_components(l[k].as_str());
                    proof {
                        assert(comps_view(ec@) =~= components(l@[k as int]@));
                    }
                    let ei = lookup_index(snapshot, &ec);
                    let is_dir = match ei {
                        Some(t) => snapshot[t].kind == EntryKind::Dir,
                        None => false,
                    };
                    if is_dir {
                        let gm = comps_in(&gic, &ec);
                        if !is_path_ignored_iterative(l[k].as_str(), ignore_config, gm) {
                            let ghost sb = stack@;
                            stack.push(l[k].clone());
                            proof {
                                assert(texts(stack@) =~= texts(sb).push(l@[k as int]@));
                            }
                        }
                    }
                    k = k + 1;
                }
                proof {
                    assert(l@.take(l@.len() as int) =~= l@);
                    assert(res0 + (seq![cur@] + subdir_walk(snapshot@, gi, *ignore_config, rest + subdir_entries(snapshot@, gi, *ignore_config, l@), v2))
                        =~= texts(found@) + subdir_walk(snapshot@, gi, *ignore_config, texts(stack@), v2));
                }
            },
        }
    }
    let mut dirs = PathSet::new();
    let ghost d = texts(found@);
    proof {
        assert(d =~= total);
    }
    let mut i: usize = 0;
    while i < found.len()
        invariant
            i <= found@.len(),
            d == texts(found@),
            dirs.view() == d.take(i as int).map_values(|p: Seq<char>| components(p)).to_set(),
        decreases found@.len() - i,
    {
        dirs.insert(found[i].clone());
        proof {
            let f = |p: Seq<char>| components(p);
            assert(d.take(i + 1).map_values(f) =~= d.take(i as int).map_values(f).push(f(d[i as int])));
            lemma_push_to_set(d.take(i as int).map_values(f), f(d[i as int]));
        }
        i = i + 1;
    }
    proof {
        assert(d.take(found@.len() as int) =~= d);
        assert(Seq::<Seq<char>>::empty().map_values(|p: Seq<char>| components(p)).to_set() =~= Set::empty());
    }
    Ok(dirs)
}

} // verus!
