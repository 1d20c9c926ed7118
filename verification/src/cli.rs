//! Command-line options and what they turn into: the configuration
//! records, the options of a command-line run, the output format and the
//! ignore rules.

use vstd::prelude::*;
use crate::text::{str_eq, to_lowercase, lowercase};
use crate::models::{AppConfig, ModeConfig, FullConfig, IgnoreConfig, OutputFormat, CopyStats, parse_format_spec, DEFAULT_SELECTION_LIMIT, strings_are, default_ignored_dirs, default_ignored_dir_list};
use crate::paths::{components, display_comps};
use crate::output::snapshot::{FsEntry, comps_list};
use crate::output::directory::WalkError;
use crate::output::json::JsonOutputError;
use crate::output::toplevel::texts;
use crate::output::{bundle, format_selected_items};
use crate::fs::{subdir_walk, collect_all_subdirs};
use crate::tui::state::{PathSet, Trie, SearchState};
use crate::tui::handlers::FileOpsHandler;
use crate::tui::file_ops::{loaded, searched, files_only, all_ancestors};

verus! {

/// The options given on the command line.
pub struct CliOptions {
    /// The source directory given as the first positional argument.
    pub source_dir_pos: Option<String>,
    /// The file to write the output to.
    pub output_file: Option<String>,
    /// Whether to print the output to the console.
    pub output_console: bool,
    /// The pattern of the files to include.
    pub files: Option<String>,
    /// A search query.
    pub search: Option<String>,
    /// The output format's name.
    pub format: String,
    /// The source directory given with its option.
    pub source_dir: String,
    /// Whether to include subdirectories.
    pub recursive: bool,
    /// Whether to number lines.
    pub line_numbers: bool,
    /// Whether to follow `.gitignore` rules.
    pub gitignore: bool,
    /// Ignore patterns; `default` stands for the default ignores.
    pub ignore: Vec<String>,
    /// Whether to save the options as the configuration.
    pub save_config: bool,
}

/// The options of a command-line run.
pub struct CliModeOptions {
    pub files_pattern: Option<String>,
    pub source_dir: String,
    pub format: String,
    pub gitignore: bool,
    pub line_numbers: bool,
    pub recursive: bool,
    pub ignore_list: Vec<String>,
    pub output_file: Option<String>,
    pub output_console: bool,
}

/// Whether two optional strings hold the same text.
pub open spec fn same_opt(a: Option<String>, b: Option<String>) -> bool {
    match (a, b) {
        (Some(x), Some(y)) => x@ == y@,
        (None, None) => true,
        _ => false,
    }
}

/// Whether two lists of strings hold the same texts.
pub open spec fn same_strings(a: Vec<String>, b: Vec<String>) -> bool {
    a@.len() == b@.len() && forall|i: int| 0 <= i < a@.len() ==> #[trigger] a@[i]@ == b@[i]@
}

/// A copy of an optional string.
fn copy_opt(o: &Option<String>) -> (r: Option<String>)
    ensures
        same_opt(r, *o),
{
    match o {
        Some(s) => Some(s.clone()),
        None => None,
    }
}

/// A copy of a list of strings.
pub(crate) fn copy_strings(v: &Vec<String>) -> (r: Vec<String>)
    ensures
        same_strings(r, *v),
{
    let mut out: Vec<String> = Vec::new();
    let mut i: usize = 0;
    while i < v.len()
        invariant
            i <= v@.len(),
            out@.len() == i,
            forall|k: int| 0 <= k < i ==> #[trigger] out@[k]@ == v@[k]@,
        decreases v@.len() - i,
    {
        out.push(v[i].clone());
        i = i + 1;
    }
    out
}

/// The text of the source directory: the positional one when given, the
/// option otherwise.
pub open spec fn effective_dir(o: CliOptions) -> Seq<char> {
    match o.source_dir_pos {
        Some(p) => p@,
        None => o.source_dir@,
    }
}

/// Whether `r` is the mode configuration the options `o` describe: their
/// files pattern, format, output file, gitignore, ignore list, line
/// numbers, recursion and effective source directory, no selection limit.
pub open spec fn mode_config_of(r: ModeConfig, o: CliOptions) -> bool {
    &&& same_opt(r.files, o.files)
    &&& r.format matches Some(f) && f@ == o.format@
    &&& same_opt(r.out, o.output_file)
    &&& r.gitignore == Some(o.gitignore)
    &&& r.ignore matches Some(v) && same_strings(v, o.ignore)
    &&& r.line_numbers == Some(o.line_numbers)
    &&& r.recursive == Some(o.recursive)
    &&& r.source_dir matches Some(d) && d@ == effective_dir(o)
    &&& r.selection_limit.is_none()
}

impl CliOptions {
    /// The application configuration these options describe: their format,
    /// gitignore, ignore list, line numbers and recursion, no selection limit.
    pub fn to_app_config(&self) -> (r: AppConfig)
        ensures
            r.default_format matches Some(f) && f@ == self.format@,
            r.default_gitignore == Some(self.gitignore),
            r.default_ignore matches Some(v) && same_strings(v, self.ignore),
            r.default_line_numbers == Some(self.line_numbers),
            r.default_recursive == Some(self.recursive),
            r.selection_limit.is_none(),
    {
        AppConfig {
            default_format: Some(self.format.clone()),
            default_gitignore: Some(self.gitignore),
            default_ignore: Some(copy_strings(&self.ignore)),
            default_line_numbers: Some(self.line_numbers),
            default_recursive: Some(self.recursive),
            selection_limit: None,
        }
    }

    /// The mode configuration these options describe (the `[cli]` section
    /// saved by `--save-config`).
    pub fn to_mode_config(&self) -> (r: ModeConfig)
        ensures
            mode_config_of(r, *self),
    {
        ModeConfig {
            files: copy_opt(&self.files),
            format: Some(self.format.clone()),
            out: copy_opt(&self.output_file),
            gitignore: Some(self.gitignore),
            ignore: Some(copy_strings(&self.ignore)),
            line_numbers: Some(self.line_numbers),
            recursive: Some(self.recursive),
            source_dir: Some(self.effective_source_dir()),
            selection_limit: None,
        }
    }

    /// The source directory: the positional argument when given, else the
    /// `--source-dir` option.
    pub fn effective_source_dir(&self) -> (r: String)
        ensures
            r@ == effective_dir(*self),
    {
        match &self.source_dir_pos {
            Some(p) => p.clone(),
            None => self.source_dir.clone(),
        }
    }

    /// The options of a command-line run.
    pub fn to_cli_mode_options(&self) -> (r: CliModeOptions)
        ensures
            same_opt(r.files_pattern, self.files),
            r.source_dir@ == effective_dir(*self),
            r.format@ == self.format@,
            r.gitignore == self.gitignore,
            r.line_numbers == self.line_numbers,
            r.recursive == self.recursive,
            same_strings(r.ignore_list, self.ignore),
            same_opt(r.output_file, self.output_file),
            r.output_console == self.output_console,
    {
        CliModeOptions {
            files_pattern: copy_opt(&self.files),
            source_dir: self.effective_source_dir(),
            format: self.format.clone(),
            gitignore: self.gitignore,
            line_numbers: self.line_numbers,
            recursive: self.recursive,
            ignore_list: copy_strings(&self.ignore),
            output_file: copy_opt(&self.output_file),
            output_console: self.output_console,
        }
    }
}

/// The format a command-line name selects, compared after lowercasing:
/// `markdown`, `xml`, `json`; any other name selects the LLM format.
pub open spec fn cli_format(name: Seq<char>) -> OutputFormat {
    let l = lowercase(name);
    if l == "markdown"@ {
        OutputFormat::Markdown
    } else if l == "xml"@ {
        OutputFormat::Xml
    } else if l == "json"@ {
        OutputFormat::Json
    } else {
        OutputFormat::Llm
    }
}

/// The output format a command-line name selects (see `cli_format`).
pub fn to_output_format(format: &str) -> (r: OutputFormat)
    ensures
        r == cli_format(format@),
{
    let low = to_lowercase(format);
    if str_eq(low.as_str(), "markdown") {
        OutputFormat::Markdown
    } else if str_eq(low.as_str(), "xml") {
        OutputFormat::Xml
    } else if str_eq(low.as_str(), "json") {
        OutputFormat::Json
    } else {
        OutputFormat::Llm
    }
}

/// The ignore rules of the command line: the default ignores when the list
/// holds `default`, gitignore as asked, binary files left out, and every
/// entry of the list as an extra pattern.
pub fn to_ignore_config(cli_opts: &CliOptions) -> (r: IgnoreConfig)
    ensures
        r.use_default_ignores == exists|i: int| 0 <= i < cli_opts.ignore@.len() && #[trigger] cli_opts.ignore@[i]@ == "default"@,
        r.use_gitignore == cli_opts.gitignore,
        !r.include_binary_files,
        same_strings(r.extra_ignore_patterns, cli_opts.ignore),
{
    let mut any_default = false;
    let mut i: usize = 0;
    while i < cli_opts.ignore.len()
        invariant
            i <= cli_opts.ignore@.len(),
            any_default == exists|k: int| 0 <= k < i && #[trigger] cli_opts.ignore@[k]@ == "default"@,
        decreases cli_opts.ignore@.len() - i,
    {
        if str_eq(cli_opts.ignore[i].as_str(), "default") {
            any_default = true;
        }
        i = i + 1;
    }
    IgnoreConfig {
        use_default_ignores: any_default,
        use_gitignore: cli_opts.gitignore,
        include_binary_files: false,
        extra_ignore_patterns: copy_strings(&cli_opts.ignore),
    }
}

/// Whether `cfg` holds the ignore rules of a command-line run: the default
/// ignores when the list holds `default`, gitignore as asked, binary files
/// left out, and the whole list as extra patterns.
pub open spec fn is_run_ignore_config(o: CliModeOptions, cfg: IgnoreConfig) -> bool {
    &&& cfg.use_default_ignores == exists|i: int| 0 <= i < o.ignore_list@.len() && #[trigger] o.ignore_list@[i]@ == "default"@
    &&& cfg.use_gitignore == o.gitignore
    &&& !cfg.include_binary_files
    &&& cfg.extra_ignore_patterns@ == o.ignore_list@
}

/// The output format of a command-line run: its named format, the LLM
/// format when the name is not known.
pub open spec fn run_format(o: CliModeOptions) -> OutputFormat {
    match parse_format_spec(o.format@) {
        Some(f) => f,
        None => OutputFormat::Llm,
    }
}

/// The paths a command-line run selects: the items loaded from the source
/// directory (in recursive mode with every subdirectory expanded); with a
/// file pattern, the items searched for it (the loaded ones when the search
/// fails), kept to files except in the LLM format; in the LLM format the
/// ancestors below the source directory are added. `None` when a directory
/// could not be listed.
pub open spec fn run_selection(snap: Seq<FsEntry>, gi: Seq<Seq<Seq<char>>>, o: CliModeOptions, cfg: IgnoreConfig) -> Option<Seq<Seq<char>>> {
    let cur = o.source_dir@;
    let fmt = run_format(o);
    let ex0 = if o.recursive {
        subdir_walk(snap, gi, cfg, seq![cur], Set::empty()).map_values(|p: Seq<char>| components(p)).to_set()
    } else {
        Set::empty()
    };
    match loaded(snap, gi, cfg, ex0, o.recursive, cur, cur, seq![]) {
        None => None,
        Some(l0) => {
            let filtered = match o.files_pattern {
                None => l0,
                Some(p) => {
                    let v = match searched(snap, gi, cfg, ex0, o.recursive, cur, cur, p@) {
                        Some(v) => v,
                        None => l0,
                    };
                    if fmt != OutputFormat::Llm {
                        files_only(snap, v)
                    } else {
                        v
                    }
                },
            };
            Some(if fmt == OutputFormat::Llm {
                filtered + all_ancestors(filtered, components(cur)).map_values(|a: Seq<Seq<char>>| display_comps(a))
            } else {
                filtered
            })
        },
    }
}

/// The ignore rules of a command-line run (see `is_run_ignore_config`).
pub fn run_ignore_rules(options: &CliModeOptions) -> (r: IgnoreConfig)
    ensures
        is_run_ignore_config(*options, r),
{
    let mut any_default = false;
    let mut i: usize = 0;
    while i < options.ignore_list.len()
        invariant
            i <= options.ignore_list@.len(),
            any_default == exists|k: int| 0 <= k < i && #[trigger] options.ignore_list@[k]@ == "default"@,
        decreases options.ignore_list@.len() - i,
    {
        if str_eq(options.ignore_list[i].as_str(), "default") {
            any_default = true;
        }
        i = i + 1;
    }
    let list = options.ignore_list.clone();
    proof {
        assert(list@ =~= options.ignore_list@);
    }
    IgnoreConfig {
        use_default_ignores: any_default,
        use_gitignore: options.gitignore,
        include_binary_files: false,
        extra_ignore_patterns: list,
    }
}

/// The paths a command-line run selects under the ignore rules `cfg` (see
/// `run_selection`), reading the disk from `snapshot`; `gitignored` lists
/// the paths the `.gitignore` files ignore. Fails when a directory could not
/// be listed.
pub fn run_cli_selection(
    options: &CliModeOptions,
    ignore_config: &IgnoreConfig,
    snapshot: &Vec<FsEntry>,
    gitignored: &Vec<String>,
) -> (r: Result<Vec<String>, WalkError>)
    ensures
        match run_selection(snapshot@, comps_list(gitignored@), *options, *ignore_config) {
            Some(v) => r matches Ok(x) && texts(x@) == v,
            None => r is Err,
        },
{
    let cfg = ignore_config;
    let fmt = match OutputFormat::parse_format(options.format.as_str()) {
        Ok(f) => f,
        Err(_) => OutputFormat::Llm,
    };
    let cur = options.source_dir.as_str();
    let mut items = Trie::new();
    let mut expanded = if options.recursive {
        match collect_all_subdirs(cur, cfg, snapshot, gitignored) {
            Ok(d) => d,
            Err(e) => {
                return Err(e);
            },
        }
    } else {
        PathSet::new()
    };
    let l0 = match FileOpsHandler::load_items(&mut items, options.recursive, cur, cur, "", cfg, &expanded, snapshot, gitignored) {
        Ok(v) => v,
        Err(e) => {
            return Err(e);
        },
    };
    let ghost gi = comps_list(gitignored@);
    let ghost ex0 = expanded.view();
    proof {
        reveal_strlit("");
        assert(fmt == run_format(*options));
        assert(ex0 == if options.recursive {
            subdir_walk(snapshot@, gi, *cfg, seq![cur@], Set::empty()).map_values(|p: Seq<char>| components(p)).to_set()
        } else {
            Set::empty()
        });
        assert(loaded(snapshot@, gi, *cfg, ex0, options.recursive, cur@, cur@, seq![]) == Some(texts(l0@)));
    }
    let ghost lv = texts(l0@);
    let filtered = match &options.files_pattern {
        None => l0,
        Some(p) => {
            let mut search_state = SearchState::new();
            search_state.search_query = p.clone();
            let v = match FileOpsHandler::update_search(&mut items, &search_state, options.recursive, cur, cur, cfg, &mut expanded, snapshot, gitignored) {
                Ok(v) => v,
                Err(_) => l0,
            };
            if fmt != OutputFormat::Llm {
                FileOpsHandler::keep_files(&v, snapshot)
            } else {
                v
            }
        },
    };
    proof {
        let fv = match &options.files_pattern {
            None => lv,
            Some(p) => {
                let v = match searched(snapshot@, gi, *cfg, ex0, options.recursive, cur@, cur@, p@) {
                    Some(v) => v,
                    None => lv,
                };
                if fmt != OutputFormat::Llm {
                    files_only(snapshot@, v)
                } else {
                    v
                }
            },
        };
        assert(texts(filtered@) == fv);
    }
    if fmt == OutputFormat::Llm {
        let parents = FileOpsHandler::parent_dirs_within(&filtered, cur);
        let mut all = filtered;
        let ghost a0 = all@;
        let mut i: usize = 0;
        while i < parents.len()
            invariant
                i <= parents@.len(),
                all@ == a0 + parents@.take(i as int),
            decreases parents@.len() - i,
        {
            all.push(parents[i].clone());
            i = i + 1;
            proof {
                assert(all@ =~= a0 + parents@.take(i as int));
            }
        }
        proof {
            assert(parents@.take(parents@.len() as int) =~= parents@);
            assert(texts(all@) =~= texts(a0) + texts(parents@));
        }
        Ok(all)
    } else {
        Ok(filtered)
    }
}

/// The output of a command-line run for the selected paths: `No items
/// selected.` with nothing counted when there are none, otherwise the
/// selection written in the run's format relative to the source directory
/// (see `bundle`); fails only when the JSON text does not parse.
pub fn run_cli_output(options: &CliModeOptions, selected: &Vec<String>, snapshot: &Vec<FsEntry>) -> (r: Result<(String, CopyStats), JsonOutputError>)
    ensures
        selected@.len() == 0 ==> (r matches Ok((s, st)) && s@ == "No items selected."@ && st.files == 0 && st.folders == 0),
        selected@.len() > 0 ==> {
            let b = bundle(snapshot@, selected@, options.source_dir@, run_format(*options), options.line_numbers, false);
            &&& (r is Ok <==> b is Some)
            &&& (r matches Ok((s, st)) ==> b == Some((s@, st.files as nat, st.folders as nat)))
        },
{
    if selected.len() == 0 {
        return Ok(("No items selected.".to_string(), CopyStats { files: 0, folders: 0 }));
    }
    let cfg = run_ignore_rules(options);
    let fmt = match OutputFormat::parse_format(options.format.as_str()) {
        Ok(f) => f,
        Err(_) => OutputFormat::Llm,
    };
    format_selected_items(selected, options.source_dir.as_str(), fmt, options.line_numbers, &cfg, snapshot)
}

impl CliOptions {
    /// The options of a command-line run, the command line winning over the
    /// saved `[cli]` configuration `conf`: the file pattern given, else the
    /// saved one; the format given when not empty, else the saved one, else
    /// `llm`; the effective source directory; gitignore, line numbers and
    /// recursion when either asks for them (gitignore on and the others off
    /// when nothing is saved); the ignore list given when not empty, else the
    /// saved one, else none; the outputs as given.
    pub fn merge_with_config(&self, conf: &ModeConfig) -> (r: CliModeOptions)
        ensures
            same_opt(r.files_pattern, if self.files is Some { self.files } else { conf.files }),
            r.format@ == if self.format@.len() > 0 {
                self.format@
            } else {
                match conf.format {
                    Some(f) => f@,
                    None => "llm"@,
                }
            },
            r.source_dir@ == effective_dir(*self),
            r.gitignore == (self.gitignore || match conf.gitignore {
                Some(g) => g,
                None => true,
            }),
            r.line_numbers == (self.line_numbers || conf.line_numbers == Some(true)),
            r.recursive == (self.recursive || conf.recursive == Some(true)),
            r.ignore_list@.len() == (if self.ignore@.len() > 0 {
                self.ignore@.len()
            } else {
                match conf.ignore {
                    Some(v) => v@.len(),
                    None => 0,
                }
            }),
            forall|i: int| 0 <= i < r.ignore_list@.len() ==> #[trigger] r.ignore_list@[i]@ == (if self.ignore@.len() > 0 {
                self.ignore@[i]@
            } else {
                match conf.ignore {
                    Some(v) => v@[i]@,
                    None => seq![],
                }
            }),
            same_opt(r.output_file, self.output_file),
            r.output_console == self.output_console,
    {
        proof {
            reveal_strlit("llm");
        }
        let files = if self.files.is_some() {
            copy_opt(&self.files)
        } else {
            copy_opt(&conf.files)
        };
        let format = if !self.format.as_str().is_empty() {
            self.format.clone()
        } else {
            match &conf.format {
                Some(f) => f.clone(),
                None => "llm".to_string(),
            }
        };
        let gitignore = self.gitignore || match conf.gitignore {
            Some(g) => g,
            None => true,
        };
        let line_numbers = self.line_numbers || match conf.line_numbers {
            Some(l) => l,
            None => false,
        };
        let recursive = self.recursive || match conf.recursive {
            Some(x) => x,
            None => false,
        };
        let ignore_list = if self.ignore.len() > 0 {
            copy_strings(&self.ignore)
        } else {
            match &conf.ignore {
                Some(v) => copy_strings(v),
                None => Vec::new(),
            }
        };
        CliModeOptions {
            files_pattern: files,
            source_dir: self.effective_source_dir(),
            format,
            gitignore,
            line_numbers,
            recursive,
            ignore_list,
            output_file: copy_opt(&self.output_file),
            output_console: self.output_console,
        }
    }
}

/// The output format the saved `[tui]` configuration names: Markdown, JSON
/// or LLM by name (in any case), XML otherwise.
pub open spec fn tui_format_spec(name: Seq<char>) -> OutputFormat {
    let l = lowercase(name);
    if l == "markdown"@ {
        OutputFormat::Markdown
    } else if l == "json"@ {
        OutputFormat::Json
    } else if l == "llm"@ {
        OutputFormat::Llm
    } else {
        OutputFormat::Xml
    }
}

/// The output format the saved `[tui]` configuration names (see
/// `tui_format_spec`).
pub fn tui_format(name: &str) -> (r: OutputFormat)
    ensures
        r == tui_format_spec(name@),
{
    let low = to_lowercase(name);
    if str_eq(low.as_str(), "markdown") {
        OutputFormat::Markdown
    } else if str_eq(low.as_str(), "json") {
        OutputFormat::Json
    } else if str_eq(low.as_str(), "llm") {
        OutputFormat::Llm
    } else {
        OutputFormat::Xml
    }
}

/// Whether an ignore list is just the word `default`.
pub open spec fn is_just_default(v: Vec<String>) -> bool {
    v@.len() == 1 && v@[0]@ == "default"@
}

/// Whether `c` is the section `--save-config` writes for `o`: the files
/// pattern (`*` when none is given), the format, the output file (empty
/// when none), gitignore, the ignore list (the default ignored directories
/// when it is just `default`), line numbers, recursion, the `--source-dir`
/// option, and the default selection limit.
pub open spec fn saved_section(c: ModeConfig, o: CliOptions) -> bool {
    &&& c.files matches Some(f) && f@ == match o.files {
        Some(x) => x@,
        None => "*"@,
    }
    &&& c.format matches Some(f) && f@ == o.format@
    &&& c.out matches Some(x) && x@ == match o.output_file {
        Some(y) => y@,
        None => Seq::<char>::empty(),
    }
    &&& c.gitignore == Some(o.gitignore)
    &&& c.ignore matches Some(v) && if is_just_default(o.ignore) {
        strings_are(v, default_ignored_dirs())
    } else {
        same_strings(v, o.ignore)
    }
    &&& c.line_numbers == Some(o.line_numbers)
    &&& c.recursive == Some(o.recursive)
    &&& c.source_dir matches Some(d) && d@ == o.source_dir@
    &&& c.selection_limit == Some(DEFAULT_SELECTION_LIMIT)
}

impl CliOptions {
    /// The section `--save-config` writes (see `saved_section`).
    fn saved_section(&self) -> (r: ModeConfig)
        ensures
            saved_section(r, *self),
    {
        let files = match &self.files {
            Some(f) => f.clone(),
            None => String::from_str("*"),
        };
        let out = match &self.output_file {
            Some(f) => f.clone(),
            None => String::new(),
        };
        let ignore = if self.ignore.len() == 1 && str_eq(self.ignore[0].as_str(), "default") {
            default_ignored_dir_list()
        } else {
            copy_strings(&self.ignore)
        };
        proof {
            reveal_strlit("*");
        }
        ModeConfig {
            files: Some(files),
            format: Some(self.format.clone()),
            out: Some(out),
            gitignore: Some(self.gitignore),
            ignore: Some(ignore),
            line_numbers: Some(self.line_numbers),
            recursive: Some(self.recursive),
            source_dir: Some(self.source_dir.clone()),
            selection_limit: Some(DEFAULT_SELECTION_LIMIT),
        }
    }

    /// The configuration file `--save-config` writes: the same section
    /// (see `saved_section`) for both modes.
    pub fn config_to_save(&self) -> (r: FullConfig)
        ensures
            r.cli matches Some(c) && saved_section(c, *self),
            r.tui matches Some(t) && saved_section(t, *self),
    {
        FullConfig { cli: Some(self.saved_section()), tui: Some(self.saved_section()) }
    }
}

/// The saved configuration `config` as the command line uses it: with its
/// `[cli]` section replaced by these options (see `to_mode_config`) when
/// they ask to save, unchanged otherwise.
pub fn get_merged_config(config: FullConfig, cli_opts: &CliOptions) -> (r: FullConfig)
    ensures
        !cli_opts.save_config ==> r == config,
        cli_opts.save_config ==> r.tui == config.tui,
        cli_opts.save_config ==> (r.cli matches Some(c) && mode_config_of(c, *cli_opts)),
{
    if cli_opts.save_config {
        FullConfig { cli: Some(cli_opts.to_mode_config()), tui: config.tui }
    } else {
        config
    }
}

} // verus!
