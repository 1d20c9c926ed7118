use aibundle::cli::{to_output_format, to_ignore_config, get_merged_config, CliOptions};
use aibundle::models::{FullConfig, ModeConfig};
use aibundle::models::{OutputFormat, get_language_name};

fn options() -> CliOptions {
    CliOptions {
        source_dir_pos: None,
        output_file: None,
        output_console: false,
        files: None,
        search: None,
        format: "xml".to_string(),
        source_dir: ".".to_string(),
        recursive: false,
        line_numbers: false,
        gitignore: true,
        ignore: vec!["default".to_string()],
        save_config: false,
    }
}

#[test]
fn output_formats_by_name() {
    assert_eq!(to_output_format("JSON"), OutputFormat::Json);
    assert_eq!(to_output_format("markdown"), OutputFormat::Markdown);
    assert_eq!(to_output_format("XML"), OutputFormat::Xml);
    assert_eq!(to_output_format("llm"), OutputFormat::Llm);
    assert_eq!(to_output_format("anything"), OutputFormat::Llm);
    assert!(OutputFormat::parse_format("yaml").is_err());
    assert_eq!(OutputFormat::parse_format("Json"), Ok(OutputFormat::Json));
}

#[test]
fn format_toggle_cycles_through_four_formats() {
    let f = OutputFormat::Xml;
    assert_eq!(f.toggle(), OutputFormat::Markdown);
    assert_eq!(f.toggle().toggle().toggle().toggle(), OutputFormat::Xml);
}

#[test]
fn ignore_config_from_options() {
    let c = to_ignore_config(&options());
    assert!(c.use_default_ignores);
    assert!(c.use_gitignore);
    assert!(!c.include_binary_files);
    assert_eq!(c.extra_ignore_patterns, vec!["default".to_string()]);
    let mut o = options();
    o.ignore = vec!["build".to_string()];
    let c2 = to_ignore_config(&o);
    assert!(!c2.use_default_ignores);
    assert_eq!(c2.extra_ignore_patterns, vec!["build".to_string()]);
}

#[test]
fn source_directory_prefers_the_positional_argument() {
    let mut o = options();
    assert_eq!(o.effective_source_dir(), ".");
    o.source_dir_pos = Some("/work".to_string());
    assert_eq!(o.effective_source_dir(), "/work");
}

#[test]
fn language_names() {
    assert_eq!(get_language_name("rs"), "Rust");
    assert_eq!(get_language_name("py"), "Python");
    assert_eq!(get_language_name("zzz"), "Plain Text");
}

use aibundle::cli::{run_cli_selection, run_cli_output, run_ignore_rules, CliModeOptions};
use aibundle::models::IgnoreConfig;
use aibundle::output::snapshot::{EntryKind, FsEntry};
use aibundle::tui::handlers::ClipboardHandler;
use aibundle::tui::state::PathSet;

fn run_options(pattern: Option<&str>, recursive: bool, format: &str) -> CliModeOptions {
    CliModeOptions {
        files_pattern: pattern.map(|p| p.to_string()),
        source_dir: "/p".to_string(),
        format: format.to_string(),
        gitignore: false,
        line_numbers: false,
        recursive,
        ignore_list: vec!["default".to_string()],
        output_file: None,
        output_console: true,
    }
}

fn project() -> Vec<FsEntry> {
    vec![
        FsEntry { path: "/p".to_string(), kind: EntryKind::Dir, content: None, listing: Some(vec!["/p/a.txt".to_string(), "/p/src".to_string()]) },
        FsEntry { path: "/p/a.txt".to_string(), kind: EntryKind::File, content: Some("hello".to_string()), listing: None },
        FsEntry { path: "/p/src".to_string(), kind: EntryKind::Dir, content: None, listing: Some(vec!["/p/src/b.rs".to_string()]) },
        FsEntry { path: "/p/src/b.rs".to_string(), kind: EntryKind::File, content: Some("fn main() {}\n".to_string()), listing: None },
    ]
}

#[test]
fn a_command_line_run_selects_and_writes() {
    let o = run_options(None, false, "xml");
    let cfg = run_ignore_rules(&o);
    assert!(cfg.use_default_ignores);
    let sel = match run_cli_selection(&o, &cfg, &project(), &Vec::new()) {
        Ok(v) => v,
        Err(_) => panic!("the project is listed"),
    };
    assert_eq!(sel, vec!["/p/src".to_string(), "/p/a.txt".to_string()]);
    match run_cli_output(&o, &sel, &project()) {
        Ok((s, st)) => {
            assert_eq!(s, "<file name=\"a.txt\">\nhello\n</file>\n<folder name=\"src\">\n</folder>\n");
            assert_eq!(st.files, 1);
        }
        Err(_) => panic!("XML output does not fail"),
    }
}

#[test]
fn a_command_line_run_with_a_file_pattern() {
    let o = run_options(Some("b"), true, "xml");
    let cfg = run_ignore_rules(&o);
    let sel = match run_cli_selection(&o, &cfg, &project(), &Vec::new()) {
        Ok(v) => v,
        Err(_) => panic!("the project is listed"),
    };
    assert_eq!(sel, vec!["/p/src/b.rs".to_string()]);
    match run_cli_output(&o, &sel, &project()) {
        Ok((s, _)) => assert_eq!(s, "<file name=\"src/b.rs\">\nfn main() {}\n</file>\n"),
        Err(_) => panic!("XML output does not fail"),
    }
}

#[test]
fn an_empty_selection_says_so() {
    let o = run_options(None, false, "markdown");
    match run_cli_output(&o, &Vec::new(), &project()) {
        Ok((s, st)) => {
            assert_eq!(s, "No items selected.");
            assert_eq!(st.files + st.folders, 0);
        }
        Err(_) => panic!("an empty selection does not fail"),
    }
    let cfg = IgnoreConfig { use_default_ignores: false, use_gitignore: false, include_binary_files: false, extra_ignore_patterns: Vec::new() };
    match ClipboardHandler::format_selected_items(&PathSet::new(), "/p", OutputFormat::Xml, false, &cfg, &project()) {
        Ok((s, _)) => assert_eq!(s, "No items selected."),
        Err(_) => panic!("an empty selection does not fail"),
    }
}

#[test]
fn the_llm_run_adds_parent_folders() {
    let o = run_options(Some("b"), true, "llm");
    let cfg = run_ignore_rules(&o);
    let sel = match run_cli_selection(&o, &cfg, &project(), &Vec::new()) {
        Ok(v) => v,
        Err(_) => panic!("the project is listed"),
    };
    assert_eq!(sel, vec!["/p/src/b.rs".to_string(), "/p/src".to_string()]);
}

use aibundle::cli::tui_format;

#[test]
fn the_command_line_wins_over_the_saved_configuration() {
    let mut saved = ModeConfig::empty();
    saved.files = Some("*.rs".to_string());
    saved.format = Some("json".to_string());
    saved.recursive = Some(true);
    saved.ignore = Some(vec!["target".to_string()]);
    let mut o = options();
    o.format = String::new();
    o.ignore = Vec::new();
    o.gitignore = false;
    let m = o.merge_with_config(&saved);
    assert_eq!(m.files_pattern, Some("*.rs".to_string()));
    assert_eq!(m.format, "json");
    assert!(m.recursive);
    assert!(m.gitignore);
    assert!(!m.line_numbers);
    assert_eq!(m.ignore_list, vec!["target".to_string()]);
    let o2 = options();
    let m2 = o2.merge_with_config(&ModeConfig::empty());
    assert_eq!(m2.format, "xml");
    assert_eq!(m2.ignore_list, vec!["default".to_string()]);
    assert_eq!(m2.files_pattern, None);
}

#[test]
fn interface_format_names() {
    assert_eq!(tui_format("JSON"), OutputFormat::Json);
    assert_eq!(tui_format("markdown"), OutputFormat::Markdown);
    assert_eq!(tui_format("llm"), OutputFormat::Llm);
    assert_eq!(tui_format("md"), OutputFormat::Xml);
}

#[test]
fn options_turn_into_configurations() {
    let o = options();
    let app = o.to_app_config();
    assert_eq!(app.default_format, Some("xml".to_string()));
    assert_eq!(app.default_gitignore, Some(true));
    assert_eq!(app.selection_limit, None);
    let mode = o.to_cli_mode_options();
    assert_eq!(mode.source_dir, ".");
    assert_eq!(mode.ignore_list, vec!["default".to_string()]);
    assert!(!mode.output_console);
    let saved = o.to_mode_config();
    assert_eq!(saved.source_dir, Some(".".to_string()));
    assert_eq!(saved.recursive, Some(false));
}

#[test]
fn save_config_writes_both_sections_alike() {
    let mut o = options();
    o.source_dir_pos = Some("/pos".to_string());
    o.source_dir = "/opt".to_string();
    let full = o.config_to_save();
    let cli = full.cli.clone().unwrap();
    let tui = full.tui.clone().unwrap();
    assert_eq!(cli.files, Some("*".to_string()));
    assert_eq!(cli.out, Some(String::new()));
    assert_eq!(cli.format, Some("xml".to_string()));
    assert_eq!(
        cli.ignore,
        Some(vec!["node_modules", ".git", "dist", "build", "coverage", "target"].into_iter().map(String::from).collect())
    );
    assert_eq!(cli.source_dir, Some("/opt".to_string()));
    assert_eq!(cli.selection_limit, Some(400));
    assert_eq!(tui.files, cli.files);
    assert_eq!(tui.ignore, cli.ignore);
    o.files = Some("*.rs".to_string());
    o.output_file = Some("out.txt".to_string());
    o.ignore = vec!["tmp".to_string()];
    let cli2 = o.config_to_save().cli.unwrap();
    assert_eq!(cli2.files, Some("*.rs".to_string()));
    assert_eq!(cli2.out, Some("out.txt".to_string()));
    assert_eq!(cli2.ignore, Some(vec!["tmp".to_string()]));
}

#[test]
fn merged_config_replaces_the_cli_section_when_saving() {
    let mut saved = ModeConfig::empty();
    saved.format = Some("json".to_string());
    let mut tui = ModeConfig::empty();
    tui.recursive = Some(true);
    let o = options();
    let kept = get_merged_config(FullConfig { cli: Some(saved.clone()), tui: Some(tui.clone()) }, &o);
    assert_eq!(kept.cli.unwrap().format, Some("json".to_string()));
    let mut s = options();
    s.save_config = true;
    let merged = get_merged_config(FullConfig { cli: Some(saved), tui: Some(tui) }, &s);
    assert_eq!(merged.cli.unwrap().format, Some("xml".to_string()));
    assert_eq!(merged.tui.unwrap().recursive, Some(true));
}

#[test]
fn output_format_from_str_parses_like_parse_format() {
    assert_eq!("Markdown".parse::<OutputFormat>(), Ok(OutputFormat::Markdown));
    assert_eq!("md".parse::<OutputFormat>(), Ok(OutputFormat::Markdown));
    assert!("yaml".parse::<OutputFormat>().is_err());
}
