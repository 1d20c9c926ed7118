use aibundle::models::{CopyStats, IgnoreConfig, OutputFormat, Node, FileDependencies};
use aibundle::output::snapshot::{EntryKind, FsEntry};
use aibundle::output::xml::format_xml_output;
use aibundle::output::markdown::format_markdown_output;
use aibundle::output::json::format_json_output;
use aibundle::output::llm::format_llm_output;
use aibundle::output::format_selected_items;
use aibundle::output::directory::{process_directory, WalkError};
use aibundle::output::format::{format_file_content, xml_escape, json_escape, is_binary_file};
use aibundle::output::deps::{analyze_dependencies, find_imports};
use aibundle::output::tree::{add_path_to_tree, write_file_tree_to_string};
use aibundle::output::toplevel::top_level_items;
use aibundle::paths::parse_components;

fn file(path: &str, content: &str) -> FsEntry {
    FsEntry { path: path.to_string(), kind: EntryKind::File, content: Some(content.to_string()), listing: None }
}

fn dir(path: &str, listing: &[&str]) -> FsEntry {
    FsEntry {
        path: path.to_string(),
        kind: EntryKind::Dir,
        content: None,
        listing: Some(listing.iter().map(|s| s.to_string()).collect()),
    }
}

fn config() -> IgnoreConfig {
    IgnoreConfig {
        use_default_ignores: true,
        use_gitignore: true,
        include_binary_files: false,
        extra_ignore_patterns: Vec::new(),
    }
}

fn project() -> Vec<FsEntry> {
    vec![
        dir("/p", &["/p/a.txt", "/p/src"]),
        file("/p/a.txt", "hello"),
        dir("/p/src", &["/p/src/b.rs"]),
        file("/p/src/b.rs", "fn main() {}\n"),
    ]
}

fn selection() -> Vec<String> {
    vec!["/p/src/b.rs".to_string(), "/p/a.txt".to_string(), "/p/src".to_string()]
}

#[test]
fn xml_output_of_a_file_and_a_folder() {
    let (out, stats) = format_xml_output(&selection(), "/p", false, &config(), &project());
    assert_eq!(
        out,
        "<file name=\"a.txt\">\nhello\n</file>\n<folder name=\"src\">\n<file name=\"src/b.rs\">\nfn main() {}\n</file>\n</folder>\n"
    );
    assert_eq!(stats.files, 2);
    assert_eq!(stats.folders, 0);
}

#[test]
fn xml_output_escapes_content() {
    let snap = vec![file("/p/x.html", "<a href=\"&\">")];
    let sel = vec!["/p/x.html".to_string()];
    let (out, _) = format_xml_output(&sel, "/p", false, &config(), &snap);
    assert_eq!(out, "<file name=\"x.html\">\n&lt;a href=&quot;&amp;&quot;&gt;\n</file>\n");
}

#[test]
fn markdown_output_of_a_file_and_a_folder() {
    let (out, stats) = format_markdown_output(&selection(), "/p", false, &config(), &project());
    assert_eq!(out, "```a.txt\nhello\n```\n\n## src/\n\n```src/b.rs\nfn main() {}\n```\n\n");
    assert_eq!(stats.files, 2);
    assert_eq!(stats.folders, 1);
}

#[test]
fn markdown_output_with_line_numbers() {
    let snap = vec![file("/p/a.txt", "one\ntwo")];
    let sel = vec!["/p/a.txt".to_string()];
    let (out, stats) = format_markdown_output(&sel, "/p", true, &config(), &snap);
    assert_eq!(out, "```a.txt\n     1 | one\n     2 | two\n```\n\n");
    assert_eq!(stats.files, 1);
}

#[test]
fn json_output_of_a_file_and_a_folder() {
    let r = format_json_output(&selection(), "/p", &config(), &project());
    let (out, stats) = match r {
        Ok(v) => v,
        Err(_) => panic!("the JSON output should parse"),
    };
    let expected = "[\n  {\n    \"binary\": false,\n    \"content\": \"hello\",\n    \"path\": \"a.txt\",\n    \"type\": \"file\"\n  },\n  {\n    \"contents\": [\n      {\n        \"binary\": false,\n        \"content\": \"fn main() {}\\n\",\n        \"path\": \"src/b.rs\",\n        \"type\": \"file\"\n      }\n    ],\n    \"path\": \"src\",\n    \"type\": \"directory\"\n  }\n]";
    assert_eq!(out, expected);
    assert_eq!(stats.files, 2);
    assert_eq!(stats.folders, 1);
}

#[test]
fn json_output_of_nothing_is_an_empty_array() {
    let r = format_json_output(&Vec::new(), "/p", &config(), &project());
    match r {
        Ok((out, stats)) => {
            assert_eq!(out, "[]");
            assert_eq!(stats.files, 0);
            assert_eq!(stats.folders, 0);
        }
        Err(_) => panic!("an empty selection gives an empty array"),
    }
}

#[test]
fn binary_files_are_left_out_unless_included() {
    let snap = vec![file("/p/logo.png", "x")];
    let sel = vec!["/p/logo.png".to_string()];
    let (out, stats) = format_xml_output(&sel, "/p", false, &config(), &snap);
    assert_eq!(out, "");
    assert_eq!(stats.files, 0);
    let mut with_binary = config();
    with_binary.include_binary_files = true;
    let (out, stats) = format_xml_output(&sel, "/p", false, &with_binary, &snap);
    assert_eq!(out, "<file name=\"logo.png\">\n</file>\n");
    assert_eq!(stats.files, 1);
}

#[test]
fn format_selected_items_dispatches_on_the_format() {
    let via_dispatch = format_selected_items(&selection(), "/p", OutputFormat::Markdown, false, &config(), &project());
    let direct = format_markdown_output(&selection(), "/p", false, &config(), &project());
    match via_dispatch {
        Ok((s, st)) => {
            assert_eq!(s, direct.0);
            assert_eq!(st.files, direct.1.files);
            assert_eq!(st.folders, direct.1.folders);
        }
        Err(_) => panic!("Markdown output does not fail"),
    }
}

#[test]
fn llm_output_reports_the_project() {
    let (out, stats) = format_llm_output(&selection(), "/p", &config(), &project());
    assert!(out.starts_with("# PROJECT ANALYSIS FOR AI ASSISTANT\n\n## 📦 GENERAL INFORMATION\n\n"));
    assert!(out.contains("- **Project path**: `/p`\n"));
    assert!(out.contains("## 🗂️ PROJECT STRUCTURE\n\n"));
    assert!(out.contains("## 📄 FILE CONTENTS\n\n"));
    assert!(out.contains("hello"));
    assert!(out.contains("fn main() {}"));
    assert_eq!(stats.files, 2);
}

#[test]
fn process_directory_fails_on_an_unlisted_directory() {
    let snap = vec![FsEntry { path: "/p/src".to_string(), kind: EntryKind::Dir, content: None, listing: None }];
    let sel = vec!["/p/src".to_string()];
    let mut out = String::from("start");
    let r = process_directory("/p/src", &mut out, "/p", &sel, OutputFormat::Xml, false, &config(), &snap);
    assert!(matches!(r, Err(WalkError::UnreadableDirectory)));
    assert_eq!(out, "start");
}

#[test]
fn process_directory_writes_selected_entries() {
    let mut out = String::new();
    let r = process_directory("/p/src", &mut out, "/p", &selection(), OutputFormat::Xml, false, &config(), &project());
    match r {
        Ok(CopyStats { files, folders }) => {
            assert_eq!(files, 1);
            assert_eq!(folders, 0);
        }
        Err(_) => panic!("the directory is listed"),
    }
    assert_eq!(out, "<file name=\"src/b.rs\">\nfn main() {}\n</file>\n");
}

#[test]
fn file_content_formats() {
    assert_eq!(format_file_content("a\nb", false), "a\nb\n");
    assert_eq!(format_file_content("a\nb\n", false), "a\nb\n");
    assert_eq!(format_file_content("", false), "\n");
    assert_eq!(format_file_content("x\ny\n", true), "     1 | x\n     2 | y\n");
}

#[test]
fn escaping() {
    let x: String = xml_escape(&"a<b>&\"c\"".chars().collect::<Vec<char>>()).into_iter().collect();
    assert_eq!(x, "a&lt;b&gt;&amp;&quot;c&quot;");
    let j: String = json_escape("q\"\\\n\t\u{1}").into_iter().collect();
    assert_eq!(j, "q\\\"\\\\\\n\\t\\u0001");
}

#[test]
fn binary_extensions() {
    assert!(is_binary_file("a/b/picture.PNG"));
    assert!(is_binary_file("lib.so"));
    assert!(!is_binary_file("main.rs"));
    assert!(!is_binary_file("Makefile"));
}

#[test]
fn imports_are_found_by_language() {
    let rust = find_imports("src/main.rs", "use crate::utils::helpers;\nmod config;\nuse std::io;\n");
    assert!(rust.contains(&"crate::utils::helpers".to_string()));
    assert!(rust.contains(&"std::io".to_string()));
    let py = find_imports("app.py", "import os\nfrom pkg.mod import thing\n");
    assert!(py.contains(&"os".to_string()));
    let none = find_imports("README.md", "use crate::x;");
    assert!(none.is_empty());
}

#[test]
fn dependencies_are_split_into_internal_and_external() {
    let files = vec![
        ("src/main.rs".to_string(), "mod utils;\nuse std::io;\n".to_string()),
        ("src/utils.rs".to_string(), "pub fn f() {}\n".to_string()),
    ];
    let deps = analyze_dependencies(&files, ".");
    assert_eq!(deps.len(), 2);
    let (path, d): &(String, FileDependencies) = &deps[0];
    assert_eq!(path, "src/main.rs");
    assert_eq!(d.internal_deps, vec!["src/utils.rs".to_string()]);
    assert_eq!(d.external_deps, vec!["std::io".to_string()]);
    assert!(deps[1].1.internal_deps.is_empty());
}

#[test]
fn a_file_never_depends_on_itself() {
    let files = vec![("lib.rs".to_string(), "mod lib;\n".to_string())];
    let deps = analyze_dependencies(&files, ".");
    assert!(deps[0].1.internal_deps.is_empty());
}

#[test]
fn tree_text_of_a_small_project() {
    let mut root = Node { name: "p".to_string(), is_dir: true, children: Some(Vec::new()) };
    add_path_to_tree(&mut root, &parse_components("src/b.rs"), false);
    add_path_to_tree(&mut root, &parse_components("a.txt"), false);
    let text = write_file_tree_to_string(&root, "", true);
    assert_eq!(text, "    ├── src\n    │   └── b.rs\n    └── a.txt\n");
}

#[test]
fn top_level_items_leave_out_items_inside_selected_folders() {
    let (items, _) = top_level_items(&selection());
    assert_eq!(items, vec!["/p/a.txt".to_string(), "/p/src".to_string()]);
}

#[test]
fn json_walk_separates_only_written_entries() {
    let snap = vec![
        dir("/p", &["/p/d"]),
        dir("/p/d", &["/p/d/pic.png", "/p/d/a.txt", "/p/d/b.txt"]),
        file("/p/d/pic.png", ""),
        file("/p/d/a.txt", "A"),
        file("/p/d/b.txt", "B"),
    ];
    let sel = vec!["/p/d/pic.png".to_string(), "/p/d/a.txt".to_string(), "/p/d/b.txt".to_string()];
    let mut out = String::new();
    let r = process_directory("/p/d", &mut out, "/p", &sel, OutputFormat::Json, false, &config(), &snap);
    assert!(r.is_ok());
    assert_eq!(
        out,
        "{\"type\":\"file\",\"path\":\"d/a.txt\",\"binary\":false,\"content\":\"A\"},{\"type\":\"file\",\"path\":\"d/b.txt\",\"binary\":false,\"content\":\"B\"}"
    );
    let wrapped = format!("[{}]", out);
    let parsed: serde_json::Value = serde_json::from_str(&wrapped).unwrap();
    assert_eq!(parsed.as_array().unwrap().len(), 2);
}

#[test]
fn xml_of_an_empty_selection_bundles_the_directory() {
    let snap = vec![
        dir(".", &["./Cargo.toml", "./src"]),
        file("./Cargo.toml", "[package]"),
        dir("./src", &["./src/lib.rs"]),
        file("./src/lib.rs", "pub fn f() {}"),
    ];
    let (xml, stats) = format_xml_output(&Vec::new(), ".", true, &IgnoreConfig::default(), &snap);
    assert!(xml.contains("<file name="));
    assert_eq!(
        xml,
        "<file name=\"./Cargo.toml\">\n     1 | [package]\n</file>\n<folder name=\"./src\">\n<file name=\"src/lib.rs\">\n     1 | pub fn f() {}\n</file>\n</folder>\n"
    );
    assert_eq!(stats, CopyStats { files: 2, folders: 0 });
    let (empty, none) = format_xml_output(&Vec::new(), "/nowhere", false, &IgnoreConfig::default(), &snap);
    assert_eq!(empty, "");
    assert_eq!(none, CopyStats { files: 0, folders: 0 });
}
