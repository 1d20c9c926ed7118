//! Formatting helpers shared by the output formats: escaping for XML and
//! JSON, binary detection by extension, and line numbering.

use vstd::prelude::*;
use crate::text::{
    str_chars, chars_to_string, push_chars, push_str, push_decimal_padded, split_lines, lines,
    pad_left, decimal, ends_with_char, lowercase, to_lowercase,
};
use crate::paths::{extension_of, extension};
use crate::fs::str_in_list;

verus! {

/// The XML escape of one character.
pub open spec fn xml_escape_char(c: char) -> Seq<char> {
    if c == '&' {
        "&amp;"@
    } else if c == '<' {
        "&lt;"@
    } else if c == '>' {
        "&gt;"@
    } else if c == '"' {
        "&quot;"@
    } else {
        seq![c]
    }
}

/// `s` with `&`, `<`, `>` and `"` replaced by their XML entities.
pub open spec fn xml_escaped(s: Seq<char>) -> Seq<char>
    decreases s.len(),
{
    if s.len() == 0 {
        seq![]
    } else {
        xml_escaped(s.drop_last()) + xml_escape_char(s.last())
    }
}

/// Escapes XML special characters.
pub fn xml_escape(s: &[char]) -> (r: Vec<char>)
    ensures
        r@ == xml_escaped(s@),
{
    let mut out: Vec<char> = Vec::new();
    let mut i: usize = 0;
    while i < s.len()
        invariant
            i <= s@.len(),
            out@ == xml_escaped(s@.take(i as int)),
        decreases s@.len() - i,
    {
        let c = s[i];
        proof {
            assert(s@.take(i + 1).drop_last() == s@.take(i as int));
        }
        if c == '&' {
            push_str(&mut out, "&amp;");
        } else if c == '<' {
            push_str(&mut out, "&lt;");
        } else if c == '>' {
            push_str(&mut out, "&gt;");
        } else if c == '"' {
            push_str(&mut out, "&quot;");
        } else {
            out.push(c);
        }
        i = i + 1;
        proof {
            assert(out@ =~= xml_escaped(s@.take(i as int)));
        }
    }
    proof {
        assert(s@.take(s@.len() as int) == s@);
    }
    out
}

/// The lowercase hexadecimal digit of a value below 16.
pub open spec fn hex_digit(d: nat) -> char {
    if d < 10 {
        ((d + 48) as u8) as char
    } else {
        ((d + 87) as u8) as char
    }
}

/// How a JSON string writes one character: quote, backslash and the control
/// characters backspace, tab, line feed, form feed and carriage return by
/// their short escapes, other characters below U+0020 as `\u00XX` with
/// lowercase hex, everything else as itself.
pub open spec fn json_escape_char(c: char) -> Seq<char> {
    if c == '"' {
        seq!['\\', '"']
    } else if c == '\\' {
        seq!['\\', '\\']
    } else if c == '\u{8}' {
        seq!['\\', 'b']
    } else if c == '\t' {
        seq!['\\', 't']
    } else if c == '\n' {
        seq!['\\', 'n']
    } else if c == '\u{c}' {
        seq!['\\', 'f']
    } else if c == '\r' {
        seq!['\\', 'r']
    } else if (c as u32) < 0x20 {
        seq!['\\', 'u', '0', '0', hex_digit((c as u32 / 16) as nat), hex_digit((c as u32 % 16) as nat)]
    } else {
        seq![c]
    }
}

/// The body of the JSON string literal of `s`.
pub open spec fn json_escaped(s: Seq<char>) -> Seq<char>
    decreases s.len(),
{
    if s.len() == 0 {
        seq![]
    } else {
        json_escaped(s.drop_last()) + json_escape_char(s.last())
    }
}

/// `serde_json::to_string` of a string: the JSON string literal, quotes
/// included. Serializing a `str` into memory does not fail.
#[verifier::external_body]
fn json_string_literal(s: &str) -> (r: String)
    ensures
        r@ == seq!['"'] + json_escaped(s@) + seq!['"'],
{
    match serde_json::to_string(s) {
        Ok(t) => t,
        Err(_) => String::from("\"\""),
    }
}

/// Whether `serde_json::from_str::<serde_json::Value>` accepts a text.
pub uninterp spec fn json_valid(text: Seq<char>) -> bool;

/// What `serde_json::to_string_pretty` writes for the value that
/// `serde_json::from_str` reads from a text.
pub uninterp spec fn json_pretty_text(text: Seq<char>) -> Seq<char>;

/// `serde_json::from_str::<serde_json::Value>(text).is_ok()`.
#[verifier::external_body]
pub(crate) fn json_parses(text: &str) -> (r: bool)
    ensures
        r == json_valid(text@),
{
    serde_json::from_str::<serde_json::Value>(text).is_ok()
}

/// Parses a text with `serde_json::from_str::<serde_json::Value>` and writes
/// the value back with `serde_json::to_string_pretty`; `None` when the text
/// does not parse. Writing a parsed value into memory does not fail.
#[verifier::external_body]
pub(crate) fn json_pretty(text: &str) -> (r: Option<String>)
    ensures
        r is Some <==> json_valid(text@),
        r matches Some(s) ==> s@ == json_pretty_text(text@),
{
    match serde_json::from_str::<serde_json::Value>(text) {
        Ok(v) => match serde_json::to_string_pretty(&v) {
            Ok(s) => Some(s),
            Err(_) => None,
        },
        Err(_) => None,
    }
}

/// Escapes a string for the inside of a JSON string literal.
pub fn json_escape(s: &str) -> (r: Vec<char>)
    ensures
        r@ == json_escaped(s@),
{
    let lit = json_string_literal(s);
    let v = str_chars(lit.as_str());
    let ghost body = json_escaped(s@);
    let mut out: Vec<char> = Vec::new();
    let n = v.len();
    let mut i: usize = 1;
    while i + 1 < n
        invariant
            v@ == seq!['"'] + body + seq!['"'],
            n == v@.len(),
            1 <= i <= n - 1,
            out@ == body.take(i - 1),
        decreases n - i,
    {
        out.push(v[i]);
        i = i + 1;
        proof {
            assert(out@ =~= body.take(i - 1));
        }
    }
    proof {
        assert(body.take(body.len() as int) == body);
    }
    out
}

/// The extensions that mark a file as binary in the output formats.
pub open spec fn output_binary_extensions() -> Seq<Seq<char>> {
    seq![
        "idx"@, "pack"@, "rev"@, "index"@, "png"@, "jpg"@, "jpeg"@, "gif"@, "bmp"@, "tiff"@,
        "webp"@, "ico"@, "svg"@, "mp3"@, "wav"@, "ogg"@, "flac"@, "m4a"@, "aac"@, "wma"@,
        "mp4"@, "avi"@, "mkv"@, "mov"@, "wmv"@, "flv"@, "webm"@, "zip"@, "rar"@, "7z"@,
        "tar"@, "gz"@, "iso"@, "exe"@, "dll"@, "so"@, "dylib"@, "pdf"@, "doc"@, "docx"@,
        "xls"@, "xlsx"@, "ppt"@, "pptx"@, "class"@, "pyc"@, "pyd"@, "pyo"@
    ]
}

/// Whether the output formats treat the file at `path` as binary: its
/// extension, lowercased, is one of `output_binary_extensions`.
pub open spec fn output_binary(path: Seq<char>) -> bool {
    extension_of(path) matches Some(e) && output_binary_extensions().contains(lowercase(e))
}

/// Whether the output formats treat `path` as a binary file (by extension only).
pub fn is_binary_file(path: &str) -> (r: bool)
    ensures
        r == output_binary(path@),
{
    let list: [&str; 48] = [
        "idx", "pack", "rev", "index", "png", "jpg", "jpeg", "gif", "bmp", "tiff",
        "webp", "ico", "svg", "mp3", "wav", "ogg", "flac", "m4a", "aac", "wma",
        "mp4", "avi", "mkv", "mov", "wmv", "flv", "webm", "zip", "rar", "7z",
        "tar", "gz", "iso", "exe", "dll", "so", "dylib", "pdf", "doc", "docx",
        "xls", "xlsx", "ppt", "pptx", "class", "pyc", "pyd", "pyo",
    ];
    proof {
        assert(list@.map_values(|x: &str| x@) =~= output_binary_extensions());
    }
    match extension(path) {
        Some(e) => {
            let low = to_lowercase(e.as_str());
            str_in_list(low.as_str(), list.as_slice())
        },
        None => false,
    }
}

/// The first `k` lines, each as its number right-aligned in six columns,
/// ` | `, the line and a newline.
pub open spec fn numbered_lines(ls: Seq<Seq<char>>, k: nat) -> Seq<char>
    decreases k,
{
    if k == 0 {
        seq![]
    } else {
        numbered_lines(ls, (k - 1) as nat) + pad_left(decimal(k), 6) + " | "@ + ls[k - 1] + seq!['\n']
    }
}

/// File content as the formats write it: numbered lines when asked,
/// otherwise the content itself, ending with a newline.
pub open spec fn file_content_text(content: Seq<char>, show_line_numbers: bool) -> Seq<char> {
    if show_line_numbers {
        numbered_lines(lines(content), lines(content).len())
    } else if ends_with_char(content, '\n') {
        content
    } else {
        content.push('\n')
    }
}

/// Formats file content, with line numbers when asked (see `file_content_text`).
pub fn format_file_content_chars(content: &[char], show_line_numbers: bool) -> (r: Vec<char>)
    ensures
        r@ == file_content_text(content@, show_line_numbers),
{
    let mut out: Vec<char> = Vec::new();
    if show_line_numbers {
        let ls = split_lines(content);
        let ghost sl = lines(content@);
        let mut i: usize = 0;
        while i < ls.len()
            invariant
                i <= ls@.len(),
                ls@.len() == sl.len(),
                forall|k: int| 0 <= k < ls@.len() ==> #[trigger] ls@[k]@ == sl[k],
                out@ == numbered_lines(sl, i as nat),
            decreases ls@.len() - i,
        {
            push_decimal_padded(&mut out, i + 1, 6);
            push_str(&mut out, " | ");
            push_chars(&mut out, ls[i].as_slice());
            out.push('\n');
            i = i + 1;
            proof {
                assert(out@ =~= numbered_lines(sl, i as nat));
            }
        }
    } else {
        push_chars(&mut out, content);
        let n = content.len();
        if !(n > 0 && content[n - 1] == '\n') {
            out.push('\n');
        }
        proof {
            assert(out@ =~= file_content_text(content@, show_line_numbers));
        }
    }
    out
}

/// Formats file content, with line numbers when asked (see `file_content_text`).
pub fn format_file_content(content: &str, show_line_numbers: bool) -> (r: String)
    ensures
        r@ == file_content_text(content@, show_line_numbers),
{
    let v = str_chars(content);
    let out = format_file_content_chars(v.as_slice(), show_line_numbers);
    chars_to_string(out.as_slice())
}

/// XML escaping leaves no `<`, `>` or `"` in the text.
pub proof fn lemma_xml_escaped_safe(s: Seq<char>)
    ensures
        forall|i: int| 0 <= i < xml_escaped(s).len() ==> {
            let c = #[trigger] xml_escaped(s)[i];
            c != '<' && c != '>' && c != '"'
        },
    decreases s.len(),
{
    reveal_strlit("&amp;");
    reveal_strlit("&lt;");
    reveal_strlit("&gt;");
    reveal_strlit("&quot;");
    if s.len() > 0 {
        lemma_xml_escaped_safe(s.drop_last());
        let a = xml_escaped(s.drop_last());
        let b = xml_escape_char(s.last());
        assert(xml_escaped(s) == a + b);
        assert forall|i: int| 0 <= i < (a + b).len() implies {
            let c = #[trigger] (a + b)[i];
            c != '<' && c != '>' && c != '"'
        } by {
            if i < a.len() {
                assert((a + b)[i] == a[i]);
            } else {
                assert((a + b)[i] == b[i - a.len()]);
            }
        }
    }
}

/// JSON escaping leaves no control character below U+0020 in the text.
pub proof fn lemma_json_escaped_no_control(s: Seq<char>)
    ensures
        forall|i: int| 0 <= i < json_escaped(s).len() ==> (#[trigger] json_escaped(s)[i]) as u32 >= 0x20,
    decreases s.len(),
{
    if s.len() > 0 {
        lemma_json_escaped_no_control(s.drop_last());
        let a = json_escaped(s.drop_last());
        let c = s.last();
        let b = json_escape_char(c);
        assert(json_escaped(s) == a + b);
        if (c as u32) < 0x20 && c != '\u{8}' && c != '\t' && c != '\n' && c != '\u{c}' && c != '\r' {
            let hi = (c as u32 / 16) as nat;
            let lo = (c as u32 % 16) as nat;
            assert(hi < 16 && lo < 16);
            assert(hex_digit(hi) as u32 >= 0x30) by {
                if hi < 10 {
                    assert(((hi + 48) as u8) as char as u32 == hi + 48);
                } else {
                    assert(((hi + 87) as u8) as char as u32 == hi + 87);
                }
            }
            assert(hex_digit(lo) as u32 >= 0x30) by {
                if lo < 10 {
                    assert(((lo + 48) as u8) as char as u32 == lo + 48);
                } else {
                    assert(((lo + 87) as u8) as char as u32 == lo + 87);
                }
            }
        }
        assert forall|i: int| 0 <= i < (a + b).len() implies (#[trigger] (a + b)[i]) as u32 >= 0x20 by {
            if i < a.len() {
                assert((a + b)[i] == a[i]);
            } else {
                assert((a + b)[i] == b[i - a.len()]);
            }
        }
    }
}

/// Without line numbers a file's content is written as it is, followed by
/// a newline when it does not end with one.
pub proof fn lemma_content_preserved(content: Seq<char>)
    ensures
        file_content_text(content, false).take(content.len() as int) == content,
        file_content_text(content, false).len() > 0 ==> file_content_text(content, false).last() == '\n',
        file_content_text(content, false).len() <= content.len() + 1,
{
    let t = file_content_text(content, false);
    assert(t.take(content.len() as int) =~= content);
}

} // verus!
