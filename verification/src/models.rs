//! Core data types: output formats, configuration records, copy statistics,
//! the file tree of the LLM report, dependency records, and the canonical
//! constants (version, selection limit, ignored directories, icons and
//! language names).

use vstd::prelude::*;
use crate::text::{str_eq, to_lowercase, lowercase};

verus! {

/// The output formats, in the order `toggle` cycles through them.
#[derive(Debug, Clone, Copy, PartialEq, Eq, Structural)]
pub enum OutputFormat {
    Xml,
    Markdown,
    Json,
    Llm,
}

/// The format that follows `f` in the cycle Xml, Markdown, Json, Llm, Xml.
pub open spec fn next_format(f: OutputFormat) -> OutputFormat {
    match f {
        OutputFormat::Xml => OutputFormat::Markdown,
        OutputFormat::Markdown => OutputFormat::Json,
        OutputFormat::Json => OutputFormat::Llm,
        OutputFormat::Llm => OutputFormat::Xml,
    }
}

/// The user-facing name of a format, as `Display` writes it.
pub open spec fn format_display(f: OutputFormat) -> Seq<char> {
    match f {
        OutputFormat::Xml => "XML"@,
        OutputFormat::Markdown => "Markdown"@,
        OutputFormat::Json => "JSON"@,
        OutputFormat::Llm => "LLM"@,
    }
}

/// The variant name of a format, as `Debug` writes it.
pub open spec fn format_debug(f: OutputFormat) -> Seq<char> {
    match f {
        OutputFormat::Xml => "Xml"@,
        OutputFormat::Markdown => "Markdown"@,
        OutputFormat::Json => "Json"@,
        OutputFormat::Llm => "Llm"@,
    }
}

/// The format a string names, compared after lowercasing:
/// `xml`, `markdown` or `md`, `json`, `llm`.
pub open spec fn parse_format_spec(s: Seq<char>) -> Option<OutputFormat> {
    let l = lowercase(s);
    if l == "xml"@ {
        Some(OutputFormat::Xml)
    } else if l == "markdown"@ || l == "md"@ {
        Some(OutputFormat::Markdown)
    } else if l == "json"@ {
        Some(OutputFormat::Json)
    } else if l == "llm"@ {
        Some(OutputFormat::Llm)
    } else {
        None
    }
}

/// Error of parsing an output format from a string.
#[derive(Debug, PartialEq, Eq, Structural)]
pub struct ParseOutputFormatError;

impl ParseOutputFormatError {
    /// The message of this error.
    pub fn message(&self) -> (r: &'static str)
        ensures
            r@ == "Invalid output format string"@,
    {
        "Invalid output format string"
    }
}

impl OutputFormat {
    /// Cycles to the next format: Xml, Markdown, Json, Llm, then Xml again.
    pub fn toggle(&self) -> (r: Self)
        ensures
            r == next_format(*self),
    {
        match self {
            OutputFormat::Xml => OutputFormat::Markdown,
            OutputFormat::Markdown => OutputFormat::Json,
            OutputFormat::Json => OutputFormat::Llm,
            OutputFormat::Llm => OutputFormat::Xml,
        }
    }

    /// Parses a format name, ignoring case; `md` is accepted for Markdown.
    pub fn parse_format(s: &str) -> (r: Result<OutputFormat, ParseOutputFormatError>)
        ensures
            r.is_ok() == parse_format_spec(s@).is_some(),
            r.is_ok() ==> r.unwrap() == parse_format_spec(s@).unwrap(),
    {
        let l = to_lowercase(s);
        let l = l.as_str();
        if str_eq(l, "xml") {
            Ok(OutputFormat::Xml)
        } else if str_eq(l, "markdown") || str_eq(l, "md") {
            Ok(OutputFormat::Markdown)
        } else if str_eq(l, "json") {
            Ok(OutputFormat::Json)
        } else if str_eq(l, "llm") {
            Ok(OutputFormat::Llm)
        } else {
            Err(ParseOutputFormatError)
        }
    }

    /// The user-facing name: `XML`, `Markdown`, `JSON` or `LLM`.
    pub fn display_name(&self) -> (r: &'static str)
        ensures
            r@ == format_display(*self),
    {
        match self {
            OutputFormat::Xml => "XML",
            OutputFormat::Markdown => "Markdown",
            OutputFormat::Json => "JSON",
            OutputFormat::Llm => "LLM",
        }
    }

    /// The variant name: `Xml`, `Markdown`, `Json` or `Llm`.
    pub fn debug_name(&self) -> (r: &'static str)
        ensures
            r@ == format_debug(*self),
    {
        match self {
            OutputFormat::Xml => "Xml",
            OutputFormat::Markdown => "Markdown",
            OutputFormat::Json => "Json",
            OutputFormat::Llm => "Llm",
        }
    }
}

impl Default for OutputFormat {
    /// The LLM format.
    fn default() -> (r: Self)
        ensures
            r == OutputFormat::Llm,
    {
        OutputFormat::Llm
    }
}

impl std::str::FromStr for OutputFormat {
    type Err = ParseOutputFormatError;

    /// Parses a format name as `parse_format` does.
    fn from_str(s: &str) -> (r: Result<Self, Self::Err>)
        ensures
            r.is_ok() == parse_format_spec(s@).is_some(),
            r.is_ok() ==> r.unwrap() == parse_format_spec(s@).unwrap(),
    {
        OutputFormat::parse_format(s)
    }
}

/// Cycling four times returns to the starting format.
pub proof fn lemma_toggle_cycle(f: OutputFormat)
    ensures
        next_format(next_format(next_format(next_format(f)))) == f,
        next_format(f) != f,
{
}

/// The application version.
pub const VERSION: &'static str = "0.7.7";

/// The default maximum number of selected items.
pub const DEFAULT_SELECTION_LIMIT: usize = 400;

/// The directory names ignored by default.
pub open spec fn default_ignored_dirs() -> Seq<Seq<char>> {
    seq!["node_modules"@, ".git"@, "dist"@, "build"@, "coverage"@, "target"@]
}

/// The directory names ignored by default, as owned strings.
pub fn default_ignored_dir_list() -> (r: Vec<String>)
    ensures
        r@.len() == default_ignored_dirs().len(),
        forall|i: int| 0 <= i < r@.len() ==> #[trigger] r@[i]@ == default_ignored_dirs()[i],
{
    let mut r: Vec<String> = Vec::new();
    r.push(String::from_str("node_modules"));
    r.push(String::from_str(".git"));
    r.push(String::from_str("dist"));
    r.push(String::from_str("build"));
    r.push(String::from_str("coverage"));
    r.push(String::from_str("target"));
    r
}

/// Whether `name` is one of the directory names ignored by default.
pub fn is_default_ignored_dir(name: &str) -> (r: bool)
    ensures
        r == default_ignored_dirs().contains(name@),
{
    let r = str_eq(name, "node_modules") || str_eq(name, ".git") || str_eq(name, "dist")
        || str_eq(name, "build") || str_eq(name, "coverage") || str_eq(name, "target");
    proof {
        let d = default_ignored_dirs();
        if d.contains(name@) {
            let i = choose|i: int| 0 <= i < d.len() && d[i] == name@;
            assert(d[i] == name@);
        }
        if r {
            if name@ == "node_modules"@ { assert(d[0] == name@); }
            if name@ == ".git"@ { assert(d[1] == name@); }
            if name@ == "dist"@ { assert(d[2] == name@); }
            if name@ == "build"@ { assert(d[3] == name@); }
            if name@ == "coverage"@ { assert(d[4] == name@); }
            if name@ == "target"@ { assert(d[5] == name@); }
        }
    }
    r
}


/// Top-level configuration shared by both modes.
#[derive(Debug, Clone)]
pub struct AppConfig {
    pub default_format: Option<String>,
    pub default_gitignore: Option<bool>,
    pub default_ignore: Option<Vec<String>>,
    pub default_line_numbers: Option<bool>,
    pub default_recursive: Option<bool>,
    pub selection_limit: Option<usize>,
}

/// Whether `v` holds exactly the strings of `names`, in order.
pub open spec fn strings_are(v: Vec<String>, names: Seq<Seq<char>>) -> bool {
    v@.len() == names.len() && forall|i: int| 0 <= i < names.len() ==> #[trigger] v@[i]@ == names[i]
}

impl AppConfig {
    /// Whether this is the default configuration: format `xml`, gitignore on,
    /// the default ignored directories, no line numbers, not recursive, no
    /// selection limit.
    pub open spec fn is_default(self) -> bool {
        &&& self.default_format matches Some(f) && f@ == "xml"@
        &&& self.default_gitignore == Some(true)
        &&& self.default_ignore matches Some(v) && strings_are(v, default_ignored_dirs())
        &&& self.default_line_numbers == Some(false)
        &&& self.default_recursive == Some(false)
        &&& self.selection_limit.is_none()
    }
}

impl Default for AppConfig {
    /// The default configuration.
    fn default() -> (r: Self)
        ensures
            r.is_default(),
    {
        AppConfig {
            default_format: Some(String::from_str("xml")),
            default_gitignore: Some(true),
            default_ignore: Some(default_ignored_dir_list()),
            default_line_numbers: Some(false),
            default_recursive: Some(false),
            selection_limit: None,
        }
    }
}

/// Mode-specific configuration (the `[cli]` or `[tui]` section).
#[derive(Debug, Clone)]
pub struct ModeConfig {
    pub files: Option<String>,
    pub format: Option<String>,
    pub out: Option<String>,
    pub gitignore: Option<bool>,
    pub ignore: Option<Vec<String>>,
    pub line_numbers: Option<bool>,
    pub recursive: Option<bool>,
    pub source_dir: Option<String>,
    pub selection_limit: Option<usize>,
}

impl ModeConfig {
    /// A configuration with every field unset.
    pub fn empty() -> (r: Self)
        ensures
            r.files.is_none() && r.format.is_none() && r.out.is_none() && r.gitignore.is_none()
                && r.ignore.is_none() && r.line_numbers.is_none() && r.recursive.is_none()
                && r.source_dir.is_none() && r.selection_limit.is_none(),
    {
        ModeConfig {
            files: None,
            format: None,
            out: None,
            gitignore: None,
            ignore: None,
            line_numbers: None,
            recursive: None,
            source_dir: None,
            selection_limit: None,
        }
    }
}

/// Both mode sections of the configuration file.
#[derive(Debug)]
pub struct FullConfig {
    pub cli: Option<ModeConfig>,
    pub tui: Option<ModeConfig>,
}

/// Which files and directories the traversal ignores.
#[derive(Debug, Clone)]
pub struct IgnoreConfig {
    pub use_default_ignores: bool,
    pub use_gitignore: bool,
    pub include_binary_files: bool,
    pub extra_ignore_patterns: Vec<String>,
}

impl Default for IgnoreConfig {
    /// Default ignores and gitignore on, binary files excluded, no extra patterns.
    fn default() -> (r: Self)
        ensures
            r.use_default_ignores && r.use_gitignore && !r.include_binary_files
                && r.extra_ignore_patterns@.len() == 0,
    {
        IgnoreConfig {
            use_default_ignores: true,
            use_gitignore: true,
            include_binary_files: false,
            extra_ignore_patterns: Vec::new(),
        }
    }
}

/// Counts of files and folders written by a copy or export.
#[derive(Debug, Clone, Copy, PartialEq, Eq, Structural)]
pub struct CopyStats {
    pub files: usize,
    pub folders: usize,
}

/// A node of the file tree drawn in the LLM report. The children of a
/// directory are kept in the order they were first added, with distinct names.
pub struct Node {
    pub name: String,
    pub is_dir: bool,
    pub children: Option<Vec<Node>>,
}

/// The internal and external dependencies found for a file.
#[derive(Debug, Clone)]
pub struct FileDependencies {
    pub internal_deps: Vec<String>,
    pub external_deps: Vec<String>,
}

/// The language name of a file extension; `Plain Text` when unknown.
pub open spec fn language_name(ext: Seq<char>) -> Seq<char> {
    if ext == "py"@ {
        "Python"@
    } else if ext == "c"@ {
        "C"@
    } else if ext == "cpp"@ {
        "C++"@
    } else if ext == "h"@ {
        "C/C++ Header"@
    } else if ext == "hpp"@ {
        "C++ Header"@
    } else if ext == "js"@ {
        "JavaScript"@
    } else if ext == "ts"@ {
        "TypeScript"@
    } else if ext == "java"@ {
        "Java"@
    } else if ext == "html"@ {
        "HTML"@
    } else if ext == "css"@ {
        "CSS"@
    } else if ext == "php"@ {
        "PHP"@
    } else if ext == "rb"@ {
        "Ruby"@
    } else if ext == "go"@ {
        "Go"@
    } else if ext == "rs"@ {
        "Rust"@
    } else if ext == "swift"@ {
        "Swift"@
    } else if ext == "kt"@ {
        "Kotlin"@
    } else if ext == "sh"@ {
        "Shell"@
    } else if ext == "md"@ {
        "Markdown"@
    } else if ext == "json"@ {
        "JSON"@
    } else if ext == "xml"@ {
        "XML"@
    } else if ext == "yaml"@ {
        "YAML"@
    } else if ext == "yml"@ {
        "YAML"@
    } else if ext == "sql"@ {
        "SQL"@
    } else if ext == "r"@ {
        "R"@
    } else {
        "Plain Text"@
    }
}

/// The canonical language name of a file extension (without the dot);
/// `Plain Text` when the extension is not known.
pub fn get_language_name(extension: &str) -> (r: &'static str)
    ensures
        r@ == language_name(extension@),
{
    if str_eq(extension, "py") {
        "Python"
    } else if str_eq(extension, "c") {
        "C"
    } else if str_eq(extension, "cpp") {
        "C++"
    } else if str_eq(extension, "h") {
        "C/C++ Header"
    } else if str_eq(extension, "hpp") {
        "C++ Header"
    } else if str_eq(extension, "js") {
        "JavaScript"
    } else if str_eq(extension, "ts") {
        "TypeScript"
    } else if str_eq(extension, "java") {
        "Java"
    } else if str_eq(extension, "html") {
        "HTML"
    } else if str_eq(extension, "css") {
        "CSS"
    } else if str_eq(extension, "php") {
        "PHP"
    } else if str_eq(extension, "rb") {
        "Ruby"
    } else if str_eq(extension, "go") {
        "Go"
    } else if str_eq(extension, "rs") {
        "Rust"
    } else if str_eq(extension, "swift") {
        "Swift"
    } else if str_eq(extension, "kt") {
        "Kotlin"
    } else if str_eq(extension, "sh") {
        "Shell"
    } else if str_eq(extension, "md") {
        "Markdown"
    } else if str_eq(extension, "json") {
        "JSON"
    } else if str_eq(extension, "xml") {
        "XML"
    } else if str_eq(extension, "yaml") {
        "YAML"
    } else if str_eq(extension, "yml") {
        "YAML"
    } else if str_eq(extension, "sql") {
        "SQL"
    } else if str_eq(extension, "r") {
        "R"
    } else {
        "Plain Text"
    }
}

/// The icon table: extension or special name, then icon.
pub open spec fn icon_table() -> Seq<(Seq<char>, Seq<char>)> {
    seq![
        ("folder"@, "📁"@), ("folder_open"@, "📂"@), ("txt"@, "📄"@), ("md"@, "📝"@),
        ("markdown"@, "📝"@), ("rst"@, "📝"@), ("rs"@, "🦀"@), ("py"@, "🐍"@), ("js"@, "🟨"@),
        ("jsx"@, "⚛️"@), ("ts"@, "🔷"@), ("tsx"@, "🔷"@), ("html"@, "🌐"@), ("htm"@, "🌐"@),
        ("css"@, "🎨"@), ("scss"@, "🎨"@), ("less"@, "🎨"@), ("json"@, "📋"@), ("toml"@, "⚙️"@),
        ("yaml"@, "⚙️"@), ("yml"@, "⚙️"@), ("xml"@, "📋"@), ("c"@, "🔧"@), ("cpp"@, "🔧"@),
        ("h"@, "🔧"@), ("hpp"@, "🔧"@), ("go"@, "🔹"@), ("java"@, "☕"@), ("class"@, "☕"@),
        ("rb"@, "💎"@), ("php"@, "🐘"@), ("sh"@, "🐚"@), ("bash"@, "🐚"@), ("zsh"@, "🐚"@),
        ("fish"@, "🐚"@), ("bat"@, "🖥️"@), ("cmd"@, "🖥️"@), ("ps1"@, "🖥️"@), ("sql"@, "🗄️"@),
        ("db"@, "🗄️"@), ("sqlite"@, "🗄️"@), ("config"@, "⚙️"@), ("conf"@, "⚙️"@), ("ini"@, "⚙️"@),
        ("env"@, "⚙️"@), ("exe"@, "⚡"@), ("dll"@, "⚡"@), ("so"@, "⚡"@), ("o"@, "⚡"@),
        ("bin"@, "⚡"@), ("zip"@, "📦"@), ("tar"@, "📦"@), ("gz"@, "📦"@), ("rar"@, "📦"@),
        ("7z"@, "📦"@), ("jpg"@, "🖼️"@), ("jpeg"@, "🖼️"@), ("png"@, "🖼️"@), ("gif"@, "🖼️"@),
        ("bmp"@, "🖼️"@), ("svg"@, "🖼️"@), ("webp"@, "🖼️"@), ("ico"@, "🖼️"@), ("pdf"@, "📕"@),
        ("doc"@, "📘"@), ("docx"@, "📘"@), ("xls"@, "📗"@), ("xlsx"@, "📗"@), ("ppt"@, "📙"@),
        ("pptx"@, "📙"@), ("mp3"@, "🎵"@), ("wav"@, "🎵"@), ("ogg"@, "🎵"@), ("flac"@, "🎵"@),
        ("mp4"@, "🎬"@), ("avi"@, "🎬"@), ("mkv"@, "🎬"@), ("mov"@, "🎬"@), ("webm"@, "🎬"@),
        ("git"@, "🔄"@), ("gitignore"@, "🔄"@), ("gitmodules"@, "🔄"@), ("bashrc"@, "⚙️"@),
        ("zshrc"@, "⚙️"@), ("vimrc"@, "⚙️"@), ("npmrc"@, "⚙️"@), ("package.json"@, "📦"@),
        ("Cargo.toml"@, "📦"@), ("Cargo.lock"@, "🔒"@), ("Gemfile"@, "💎"@),
        ("requirements.txt"@, "🐍"@), ("default"@, "📄"@)
    ]
}

} // verus!
