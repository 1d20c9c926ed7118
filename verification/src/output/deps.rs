//! Dependency analysis for the LLM report: the imports each file makes,
//! found line by line with language-specific regular expressions, resolved
//! against the names of the other files.

use vstd::prelude::*;
use crate::text::{
    lines, split_lines, str_chars, chars_to_string, push_chars, push_str, chars_eq, str_eq,
    starts_with,
};
use crate::paths::{
    components, file_name_of, file_stem_of, name_stem, seq_lt, chars_less, file_name,
    extension_of, extension, comps_view, parse_components, name_stem_exec,
};
use crate::pattern::{regex_valid, regex_group1, compile_regex, regex_captures_group1, CompiledRegex, opt_str_view};
use crate::models::FileDependencies;

verus! {

/// The import patterns for a kind of file: an extension with its dot, or a
/// file name.
pub open spec fn dependency_patterns(key: Seq<char>) -> Option<Seq<Seq<char>>> {
    if key == ".py"@ {
        Some(seq![
            "^from\\s+([\\w.]+)\\s+import"@,
            "^import\\s+([\\w.]+)"@,
            "^\\s*from\\s+([\\w.]+)\\s+import"@,
            "^\\s*import\\s+([\\w.]+)"@
        ])
    } else if key == ".c"@ || key == ".h"@ || key == ".cpp"@ || key == ".hpp"@ || key == ".cc"@ {
        Some(seq!["#include\\s+[<\"]([^>\"]+)[>\"]"@])
    } else if key == ".rs"@ {
        Some(seq![
            "use\\s+([\\w:]+)"@,
            "extern\\s+crate\\s+([\\w]+)"@,
            "mod\\s+([\\w]+)"@,
            "pub\\s+use\\s+([\\w:]+)"@
        ])
    } else if key == ".js"@ || key == ".ts"@ {
        Some(seq![
            "(?:import|require)\\s*\\(?['\"]([^'\"]+)['\"]"@,
            "from\\s+['\"]([^'\"]+)['\"]"@,
            "import\\s+.*?\\s+from\\s+['\"]([^'\"]+)['\"]"@,
            "const\\s+.*?\\s*=\\s*require\\s*\\(\\s*['\"]([^'\"]+)['\"]\\s*\\)"@
        ])
    } else if key == ".tsx"@ || key == ".jsx"@ {
        Some(seq![
            "(?:import|require)\\s*\\(?['\"]([^'\"]+)['\"]"@,
            "from\\s+['\"]([^'\"]+)['\"]"@,
            "import\\s+.*?\\s+from\\s+['\"]([^'\"]+)['\"]"@
        ])
    } else if key == ".java"@ {
        Some(seq!["import\\s+([\\w.]+)"@])
    } else if key == ".go"@ {
        Some(seq![
            "import\\s+\\(\\s*(?:[_\\w]*\\s+)?[\"]([^\"]+)[\"]"@,
            "import\\s+(?:[_\\w]*\\s+)?[\"]([^\"]+)[\"]"@
        ])
    } else if key == ".rb"@ {
        Some(seq![
            "require\\s+['\"]([^'\"]+)['\"]"@,
            "require_relative\\s+['\"]([^'\"]+)['\"]"@,
            "load\\s+['\"]([^'\"]+)['\"]"@
        ])
    } else if key == ".php"@ {
        Some(seq![
            "(?:require|include)(?:_once)?\\s*\\(?['\"]([^'\"]+)['\"]"@,
            "use\\s+([\\w\\\\]+)"@
        ])
    } else if key == ".swift"@ {
        Some(seq!["import\\s+(\\w+)"@])
    } else if key == ".sh"@ || key == ".bash"@ {
        Some(seq![
            "source\\s+['\"]?([^'\"]+)['\"]?"@,
            "\\.\\s+['\"]?([^'\"]+)['\"]?"@
        ])
    } else if key == "Makefile"@ || key == "makefile"@ {
        Some(seq!["include\\s+([^\\s]+)"@])
    } else if key == ".toml"@ || key == ".yaml"@ || key == ".yml"@ {
        Some(seq![])
    } else {
        None
    }
}

/// The patterns of `ps` that compile.
pub open spec fn valid_patterns(ps: Seq<Seq<char>>) -> Seq<Seq<char>>
    decreases ps.len(),
{
    if ps.len() == 0 {
        seq![]
    } else if regex_valid(ps.last()) {
        valid_patterns(ps.drop_last()).push(ps.last())
    } else {
        valid_patterns(ps.drop_last())
    }
}

/// The extension of a path with its dot, or empty when it has none.
pub open spec fn ext_key(path: Seq<char>) -> Seq<char> {
    match extension_of(path) {
        Some(e) => seq!['.'] + e,
        None => seq![],
    }
}

/// The file name of a path, or empty when it has none.
pub open spec fn base_name(path: Seq<char>) -> Seq<char> {
    match file_name_of(components(path)) {
        Some(n) => n,
        None => seq![],
    }
}

/// The file stem of a path, or empty when it has none.
pub open spec fn stem_or_empty(path: Seq<char>) -> Seq<char> {
    match file_stem_of(path) {
        Some(n) => n,
        None => seq![],
    }
}

/// The patterns used for a file: those of its extension, else those of its
/// name; none when neither is known.
pub open spec fn patterns_for(path: Seq<char>) -> Option<Seq<Seq<char>>> {
    match dependency_patterns(ext_key(path)) {
        Some(ps) => Some(valid_patterns(ps)),
        None => match dependency_patterns(base_name(path)) {
            Some(ps) => Some(valid_patterns(ps)),
            None => None,
        },
    }
}

/// The texts of the captures that have one.
pub open spec fn present(caps: Seq<Option<Seq<char>>>) -> Seq<Seq<char>>
    decreases caps.len(),
{
    if caps.len() == 0 {
        seq![]
    } else {
        match caps.last() {
            Some(t) => present(caps.drop_last()).push(t),
            None => present(caps.drop_last()),
        }
    }
}

/// The imports found in one line by the first `n` patterns.
pub open spec fn line_imports(line: Seq<char>, ps: Seq<Seq<char>>, n: int) -> Seq<Seq<char>>
    decreases n,
{
    if n <= 0 || n > ps.len() {
        seq![]
    } else {
        line_imports(line, ps, n - 1) + present(regex_group1(ps[n - 1], line))
    }
}

/// The imports found in the first `n` lines.
pub open spec fn imports_in_lines(ls: Seq<Seq<char>>, ps: Seq<Seq<char>>, n: int) -> Seq<Seq<char>>
    decreases n,
{
    if n <= 0 || n > ls.len() {
        seq![]
    } else {
        imports_in_lines(ls, ps, n - 1) + line_imports(ls[n - 1], ps, ps.len() as int)
    }
}

/// The imports a file makes (with repeats).
pub open spec fn file_imports(path: Seq<char>, content: Seq<char>) -> Seq<Seq<char>> {
    match patterns_for(path) {
        Some(ps) => imports_in_lines(lines(content), ps, lines(content).len() as int),
        None => seq![],
    }
}

/// `s` with every `::` replaced by `/`, left to right.
pub open spec fn replace_colons(s: Seq<char>) -> Seq<char>
    decreases s.len(),
{
    if s.len() == 0 {
        seq![]
    } else if s.len() >= 2 && s[0] == ':' && s[1] == ':' {
        seq!['/'] + replace_colons(s.skip(2))
    } else {
        seq![s[0]] + replace_colons(s.skip(1))
    }
}

/// `s` with every `.` replaced by `/`.
pub open spec fn replace_dots(s: Seq<char>) -> Seq<char> {
    crate::text::replace_char(s, '.', '/')
}

/// The names under which an import is looked up, in order.
pub open spec fn import_variations(imp: Seq<char>) -> Seq<Seq<char>> {
    seq![
        imp,
        base_name(imp),
        stem_or_empty(imp),
        replace_dots(imp),
        replace_colons(imp),
        replace_dots(imp) + ".py"@,
        replace_colons(imp) + ".rs"@,
        imp + ".h"@,
        imp + ".hpp"@,
        imp + ".js"@,
        imp + ".ts"@,
        replace_colons(imp) + "/mod.rs"@,
        imp + "/index.js"@,
        imp + "/index.ts"@
    ]
}

/// The index of the first `/` in `s`, or -1.
pub open spec fn first_slash(s: Seq<char>) -> int
    decreases s.len(),
{
    if s.len() == 0 {
        -1
    } else if s[0] == '/' {
        0
    } else if first_slash(s.skip(1)) < 0 {
        -1
    } else {
        first_slash(s.skip(1)) + 1
    }
}

/// `first_slash` is a position of `s` when it is not -1.
pub proof fn lemma_first_slash(s: Seq<char>)
    ensures
        -1 <= first_slash(s) < s.len(),
        first_slash(s) >= 0 ==> s[first_slash(s)] == '/',
        forall|j: int| 0 <= j < s.len() && (first_slash(s) < 0 || j < first_slash(s)) ==> s[j] != '/',
    decreases s.len(),
{
    if s.len() > 0 && s[0] != '/' {
        lemma_first_slash(s.skip(1));
        assert forall|j: int| 0 <= j < s.len() && (first_slash(s) < 0 || j < first_slash(s)) implies s[j] != '/' by {
            if j > 0 {
                assert(s.skip(1)[j - 1] == s[j]);
            }
        }
    }
}

/// The names under which the path `fp` is known through the suffixes of
/// `rel` that follow one of its slashes, each with its stem.
pub open spec fn suffix_names(rel: Seq<char>, fp: Seq<char>) -> Seq<(Seq<char>, Seq<char>)>
    decreases rel.len(),
{
    if first_slash(rel) < 0 {
        seq![]
    } else {
        proof {
            lemma_first_slash(rel);
        }
        let r2 = rel.skip(first_slash(rel) + 1);
        seq![(r2, fp), (stem_or_empty(r2), fp)] + suffix_names(r2, fp)
    }
}

/// The names a file is known by, in the order they are recorded: its file
/// name, that name's stem, its path, then each suffix after a slash with
/// its stem.
pub open spec fn file_names(fp: Seq<char>) -> Seq<(Seq<char>, Seq<char>)> {
    seq![(base_name(fp), fp), (stem_or_empty(base_name(fp)), fp), (fp, fp)] + suffix_names(fp, fp)
}

/// The names of the first `n` files, in order.
pub open spec fn name_table(paths: Seq<Seq<char>>, n: int) -> Seq<(Seq<char>, Seq<char>)>
    decreases n,
{
    if n <= 0 || n > paths.len() {
        seq![]
    } else {
        name_table(paths, n - 1) + file_names(paths[n - 1])
    }
}

/// The file a name leads to: the one recorded last under it.
pub open spec fn name_lookup(table: Seq<(Seq<char>, Seq<char>)>, key: Seq<char>) -> Option<Seq<char>>
    decreases table.len(),
{
    if table.len() == 0 {
        None
    } else if table.last().0 == key {
        Some(table.last().1)
    } else {
        name_lookup(table.drop_last(), key)
    }
}

/// The file an import of `fp` resolves to: the first variation that leads
/// to a file other than `fp`.
pub open spec fn resolve_from(table: Seq<(Seq<char>, Seq<char>)>, fp: Seq<char>, vars: Seq<Seq<char>>, k: int) -> Option<Seq<char>>
    decreases vars.len() - k,
{
    if k < 0 || k >= vars.len() {
        None
    } else {
        match name_lookup(table, vars[k]) {
            Some(m) => if m != fp {
                Some(m)
            } else {
                resolve_from(table, fp, vars, k + 1)
            },
            None => resolve_from(table, fp, vars, k + 1),
        }
    }
}

/// See `resolve_from`.
pub open spec fn resolve(table: Seq<(Seq<char>, Seq<char>)>, fp: Seq<char>, imp: Seq<char>) -> Option<Seq<char>> {
    resolve_from(table, fp, import_variations(imp), 0)
}

/// `x` inserted into the sorted list `s` of distinct texts.
pub open spec fn insert_sorted(x: Seq<char>, s: Seq<Seq<char>>) -> Seq<Seq<char>>
    decreases s.len(),
{
    if s.len() == 0 {
        seq![x]
    } else if x == s[0] {
        s
    } else if seq_lt(x, s[0]) {
        seq![x] + s
    } else {
        seq![s[0]] + insert_sorted(x, s.drop_first())
    }
}

/// The distinct texts of `s`, sorted.
pub open spec fn sorted_distinct(s: Seq<Seq<char>>) -> Seq<Seq<char>>
    decreases s.len(),
{
    if s.len() == 0 {
        seq![]
    } else {
        insert_sorted(s.last(), sorted_distinct(s.drop_last()))
    }
}

/// The files the imports resolve to, in order of the imports.
pub open spec fn resolved(table: Seq<(Seq<char>, Seq<char>)>, fp: Seq<char>, imps: Seq<Seq<char>>) -> Seq<Seq<char>>
    decreases imps.len(),
{
    if imps.len() == 0 {
        seq![]
    } else {
        match resolve(table, fp, imps.last()) {
            Some(m) => resolved(table, fp, imps.drop_last()).push(m),
            None => resolved(table, fp, imps.drop_last()),
        }
    }
}

/// The imports that resolve to no other file, in order.
pub open spec fn unresolved(table: Seq<(Seq<char>, Seq<char>)>, fp: Seq<char>, imps: Seq<Seq<char>>) -> Seq<Seq<char>>
    decreases imps.len(),
{
    if imps.len() == 0 {
        seq![]
    } else {
        match resolve(table, fp, imps.last()) {
            Some(_) => unresolved(table, fp, imps.drop_last()),
            None => unresolved(table, fp, imps.drop_last()).push(imps.last()),
        }
    }
}

/// The index of the last file of the list with path `fp`, or -1.
pub open spec fn last_with_path(paths: Seq<Seq<char>>, fp: Seq<char>) -> int
    decreases paths.len(),
{
    if paths.len() == 0 {
        -1
    } else if paths.last() == fp {
        paths.len() - 1
    } else {
        last_with_path(paths.drop_last(), fp)
    }
}

/// The dependencies of the file `fp` among the files `(paths, contents)`:
/// the imports of its last entry, resolved through the names of all the
/// files; the files they lead to and the imports that lead nowhere, each
/// sorted without repeats.
pub open spec fn deps_of(paths: Seq<Seq<char>>, contents: Seq<Seq<char>>, fp: Seq<char>) -> (Seq<Seq<char>>, Seq<Seq<char>>) {
    let table = name_table(paths, paths.len() as int);
    let i = last_with_path(paths, fp);
    let imps = file_imports(fp, contents[i]);
    (sorted_distinct(resolved(table, fp, imps)), sorted_distinct(unresolved(table, fp, imps)))
}

/// The distinct paths of the list, in order of first appearance.
pub open spec fn distinct_texts(v: Seq<Seq<char>>) -> Seq<Seq<char>>
    decreases v.len(),
{
    if v.len() == 0 {
        seq![]
    } else if distinct_texts(v.drop_last()).contains(v.last()) {
        distinct_texts(v.drop_last())
    } else {
        distinct_texts(v.drop_last()).push(v.last())
    }
}

/// The views of a list of string slices.
pub open spec fn strs_view(v: Seq<&str>) -> Seq<Seq<char>> {
    v.map_values(|x: &str| x@)
}

/// The patterns for a kind of file (see `dependency_patterns`).
fn patterns_for_key(key: &str) -> (r: Option<Vec<&'static str>>)
    ensures
        match r {
            Some(v) => dependency_patterns(key@) == Some(strs_view(v@)),
            None => dependency_patterns(key@).is_none(),
        },
{
    let mut v: Vec<&'static str> = Vec::new();
    if str_eq(key, ".py") {
        v.push("^from\\s+([\\w.]+)\\s+import");
        v.push("^import\\s+([\\w.]+)");
        v.push("^\\s*from\\s+([\\w.]+)\\s+import");
        v.push("^\\s*import\\s+([\\w.]+)");
    } else if str_eq(key, ".c") || str_eq(key, ".h") || str_eq(key, ".cpp") || str_eq(key, ".hpp") || str_eq(key, ".cc") {
        v.push("#include\\s+[<\"]([^>\"]+)[>\"]");
    } else if str_eq(key, ".rs") {
        v.push("use\\s+([\\w:]+)");
        v.push("extern\\s+crate\\s+([\\w]+)");
        v.push("mod\\s+([\\w]+)");
        v.push("pub\\s+use\\s+([\\w:]+)");
    } else if str_eq(key, ".js") || str_eq(key, ".ts") {
        v.push("(?:import|require)\\s*\\(?['\"]([^'\"]+)['\"]");
        v.push("from\\s+['\"]([^'\"]+)['\"]");
        v.push("import\\s+.*?\\s+from\\s+['\"]([^'\"]+)['\"]");
        v.push("const\\s+.*?\\s*=\\s*require\\s*\\(\\s*['\"]([^'\"]+)['\"]\\s*\\)");
    } else if str_eq(key, ".tsx") || str_eq(key, ".jsx") {
        v.push("(?:import|require)\\s*\\(?['\"]([^'\"]+)['\"]");
        v.push("from\\s+['\"]([^'\"]+)['\"]");
        v.push("import\\s+.*?\\s+from\\s+['\"]([^'\"]+)['\"]");
    } else if str_eq(key, ".java") {
        v.push("import\\s+([\\w.]+)");
    } else if str_eq(key, ".go") {
        v.push("import\\s+\\(\\s*(?:[_\\w]*\\s+)?[\"]([^\"]+)[\"]");
        v.push("import\\s+(?:[_\\w]*\\s+)?[\"]([^\"]+)[\"]");
    } else if str_eq(key, ".rb") {
        v.push("require\\s+['\"]([^'\"]+)['\"]");
        v.push("require_relative\\s+['\"]([^'\"]+)['\"]");
        v.push("load\\s+['\"]([^'\"]+)['\"]");
    } else if str_eq(key, ".php") {
        v.push("(?:require|include)(?:_once)?\\s*\\(?['\"]([^'\"]+)['\"]");
        v.push("use\\s+([\\w\\\\]+)");
    } else if str_eq(key, ".swift") {
        v.push("import\\s+(\\w+)");
    } else if str_eq(key, ".sh") || str_eq(key, ".bash") {
        v.push("source\\s+['\"]?([^'\"]+)['\"]?");
        v.push("\\.\\s+['\"]?([^'\"]+)['\"]?");
    } else if str_eq(key, "Makefile") || str_eq(key, "makefile") {
        v.push("include\\s+([^\\s]+)");
    } else if str_eq(key, ".toml") || str_eq(key, ".yaml") || str_eq(key, ".yml") {
    } else {
        return None;
    }
    proof {
        assert(dependency_patterns(key@) == Some(strs_view(v@)));
    }
    Some(v)
}

/// Compiles the patterns that compile, in order.
fn compile_patterns(ps: &Vec<&'static str>) -> (r: Vec<CompiledRegex>)
    ensures
        r@.map_values(|c: CompiledRegex| c.pattern()) == valid_patterns(strs_view(ps@)),
{
    let ghost pv = strs_view(ps@);
    let mut out: Vec<CompiledRegex> = Vec::new();
    let mut i: usize = 0;
    while i < ps.len()
        invariant
            pv == strs_view(ps@),
            i <= ps@.len(),
            out@.map_values(|c: CompiledRegex| c.pattern()) == valid_patterns(pv.take(i as int)),
        decreases ps@.len() - i,
    {
        proof {
            assert(pv.take(i + 1).drop_last() =~= pv.take(i as int));
            assert(pv.take(i + 1).last() == ps@[i as int]@);
        }
        match compile_regex(ps[i]) {
            Some(c) => {
                out.push(c);
                proof {
                    assert(out@.map_values(|c: CompiledRegex| c.pattern()) =~= valid_patterns(pv.take(i + 1)));
                }
            },
            None => {
                proof {
                    assert(out@.map_values(|c: CompiledRegex| c.pattern()) =~= valid_patterns(pv.take(i + 1)));
                }
            },
        }
        i = i + 1;
    }
    proof {
        assert(pv.take(ps@.len() as int) =~= pv);
    }
    out
}

/// The compiled patterns used for a file (see `patterns_for`).
fn regexes_for(path: &str) -> (r: Option<Vec<CompiledRegex>>)
    ensures
        match r {
            Some(v) => patterns_for(path@) == Some(v@.map_values(|c: CompiledRegex| c.pattern())),
            None => patterns_for(path@).is_none(),
        },
{
    let mut key: Vec<char> = Vec::new();
    match extension(path) {
        Some(e) => {
            key.push('.');
            push_str(&mut key, e.as_str());
        },
        None => {},
    }
    let key_text = chars_to_string(key.as_slice());
    proof {
        assert(key@ =~= ext_key(path@));
    }
    match patterns_for_key(key_text.as_str()) {
        Some(ps) => Some(compile_patterns(&ps)),
        None => {
            let base = match file_name(path) {
                Some(b) => b,
                None => String::new(),
            };
            proof {
                assert(base@ == base_name(path@));
            }
            match patterns_for_key(base.as_str()) {
                Some(ps) => Some(compile_patterns(&ps)),
                None => None,
            }
        },
    }
}

/// Appends the texts of the captures that have one.
fn push_present(out: &mut Vec<String>, caps: Vec<Option<String>>)
    ensures
        final(out)@.map_values(|x: String| x@) == old(out)@.map_values(|x: String| x@)
            + present(caps@.map_values(|o: Option<String>| opt_str_view(o))),
{
    let ghost start = out@.map_values(|x: String| x@);
    let ghost cv = caps@.map_values(|o: Option<String>| opt_str_view(o));
    let mut i: usize = 0;
    while i < caps.len()
        invariant
            cv == caps@.map_values(|o: Option<String>| opt_str_view(o)),
            i <= caps@.len(),
            out@.map_values(|x: String| x@) == start + present(cv.take(i as int)),
        decreases caps@.len() - i,
    {
        proof {
            assert(cv.take(i + 1).drop_last() =~= cv.take(i as int));
            assert(cv.take(i + 1).last() == opt_str_view(caps@[i as int]));
        }
        match &caps[i] {
            Some(t) => {
                let c = t.clone();
                let ghost old_out = out@;
                out.push(c);
                proof {
                    assert(caps@[i as int] == Some(*t));
                    assert(out@.map_values(|x: String| x@) =~= old_out.map_values(|x: String| x@).push(c@));
                    assert(out@.map_values(|x: String| x@) =~= start + present(cv.take(i + 1)));
                }
            },
            None => {
                proof {
                    assert(out@.map_values(|x: String| x@) =~= start + present(cv.take(i + 1)));
                }
            },
        }
        i = i + 1;
    }
    proof {
        assert(cv.take(caps@.len() as int) =~= cv);
    }
}

/// The imports a file makes (see `file_imports`).
pub fn find_imports(path: &str, content: &str) -> (r: Vec<String>)
    ensures
        r@.map_values(|x: String| x@) == file_imports(path@, content@),
{
    let mut out: Vec<String> = Vec::new();
    let regexes = match regexes_for(path) {
        Some(v) => v,
        None => {
            proof {
                assert(out@.map_values(|x: String| x@) =~= file_imports(path@, content@));
            }
            return out;
        },
    };
    let ghost ps = regexes@.map_values(|c: CompiledRegex| c.pattern());
    let cv = str_chars(content);
    let ls = split_lines(cv.as_slice());
    let ghost lv = lines(content@);
    let mut i: usize = 0;
    while i < ls.len()
        invariant
            ps == regexes@.map_values(|c: CompiledRegex| c.pattern()),
            lv == lines(content@),
            ls@.len() == lv.len(),
            forall|k: int| 0 <= k < ls@.len() ==> #[trigger] ls@[k]@ == lv[k],
            i <= ls@.len(),
            out@.map_values(|x: String| x@) == imports_in_lines(lv, ps, i as int),
        decreases ls@.len() - i,
    {
        let line = chars_to_string(ls[i].as_slice());
        let ghost before = out@.map_values(|x: String| x@);
        let mut q: usize = 0;
        while q < regexes.len()
            invariant
                ps == regexes@.map_values(|c: CompiledRegex| c.pattern()),
                q <= regexes@.len(),
                i < lv.len(),
                line@ == lv[i as int],
                out@.map_values(|x: String| x@) == before + line_imports(lv[i as int], ps, q as int),
            decreases regexes@.len() - q,
        {
            let caps = regex_captures_group1(&regexes[q], line.as_str());
            proof {
                assert(caps@.map_values(|o: Option<String>| opt_str_view(o)) =~= regex_group1(ps[q as int], line@));
            }
            push_present(&mut out, caps);
            q = q + 1;
            proof {
                assert(out@.map_values(|x: String| x@) =~= before + line_imports(lv[i as int], ps, q as int));
            }
        }
        i = i + 1;
        proof {
            assert(out@.map_values(|x: String| x@) =~= imports_in_lines(lv, ps, i as int));
        }
    }
    out
}

/// The file name of a path, or empty (see `base_name`).
fn base_name_exec(path: &str) -> (r: Vec<char>)
    ensures
        r@ == base_name(path@),
{
    match file_name(path) {
        Some(b) => str_chars(b.as_str()),
        None => Vec::new(),
    }
}

/// The file stem of a path, or empty (see `stem_or_empty`).
fn stem_exec(path: &str) -> (r: Vec<char>)
    ensures
        r@ == stem_or_empty(path@),
{
    match file_name(path) {
        Some(b) => {
            let bv = str_chars(b.as_str());
            name_stem_exec(bv.as_slice())
        },
        None => Vec::new(),
    }
}

/// `s` with every `::` replaced by `/` (see `replace_colons`).
fn replace_colons_exec(s: &[char]) -> (r: Vec<char>)
    ensures
        r@ == replace_colons(s@),
{
    let mut out: Vec<char> = Vec::new();
    let mut i: usize = 0;
    proof {
        assert(s@.skip(0) =~= s@);
        assert(Seq::<char>::empty() + replace_colons(s@) =~= replace_colons(s@));
    }
    while i < s.len()
        invariant
            i <= s@.len(),
            out@ + replace_colons(s@.skip(i as int)) == replace_colons(s@),
        decreases s@.len() - i,
    {
        let ghost rest = s@.skip(i as int);
        proof {
            assert(rest[0] == s@[i as int]);
        }
        if i + 1 < s.len() && s[i] == ':' && s[i + 1] == ':' {
            proof {
                assert(rest[1] == s@[i + 1]);
                assert(rest.skip(2) =~= s@.skip(i + 2));
                assert(out@.push('/') + replace_colons(s@.skip(i + 2)) =~= out@ + replace_colons(rest));
            }
            out.push('/');
            i = i + 2;
        } else {
            proof {
                assert(rest.skip(1) =~= s@.skip(i + 1));
                assert(out@.push(s@[i as int]) + replace_colons(s@.skip(i + 1)) =~= out@ + replace_colons(rest));
            }
            out.push(s[i]);
            i = i + 1;
        }
    }
    proof {
        assert(s@.skip(i as int) =~= Seq::<char>::empty());
        assert(out@ + Seq::<char>::empty() =~= out@);
    }
    out
}

/// The variations of an import (see `import_variations`).
fn variations_exec(imp: &str) -> (r: Vec<Vec<char>>)
    ensures
        comps_view(r@) == import_variations(imp@),
{
    let iv = str_chars(imp);
    let dots = crate::text::replace_char_chars(iv.as_slice(), '.', '/');
    let colons = replace_colons_exec(iv.as_slice());
    let mut r: Vec<Vec<char>> = Vec::new();
    r.push(iv.clone());
    r.push(base_name_exec(imp));
    r.push(stem_exec(imp));
    r.push(dots.clone());
    r.push(colons.clone());
    let mut v6 = dots.clone();
    push_str(&mut v6, ".py");
    r.push(v6);
    let mut v7 = colons.clone();
    push_str(&mut v7, ".rs");
    r.push(v7);
    let mut v8 = iv.clone();
    push_str(&mut v8, ".h");
    r.push(v8);
    let mut v9 = iv.clone();
    push_str(&mut v9, ".hpp");
    r.push(v9);
    let mut v10 = iv.clone();
    push_str(&mut v10, ".js");
    r.push(v10);
    let mut v11 = iv.clone();
    push_str(&mut v11, ".ts");
    r.push(v11);
    let mut v12 = colons.clone();
    push_str(&mut v12, "/mod.rs");
    r.push(v12);
    let mut v13 = iv.clone();
    push_str(&mut v13, "/index.js");
    r.push(v13);
    let mut v14 = iv.clone();
    push_str(&mut v14, "/index.ts");
    r.push(v14);
    proof {
        assert(comps_view(r@) =~= import_variations(imp@));
    }
    r
}

/// The view of a name table.
pub open spec fn table_view(t: Seq<(Vec<char>, Vec<char>)>) -> Seq<(Seq<char>, Seq<char>)> {
    t.map_values(|e: (Vec<char>, Vec<char>)| (e.0@, e.1@))
}

/// Records one name of a file.
fn record(table: &mut Vec<(Vec<char>, Vec<char>)>, key: Vec<char>, fp: &Vec<char>)
    ensures
        table_view(final(table)@) == table_view(old(table)@).push((key@, fp@)),
{
    let ghost before = table@;
    table.push((key, fp.clone()));
    proof {
        assert(table_view(table@) =~= table_view(before).push((key@, fp@)));
    }
}

/// The index of the first `/` (see `first_slash`).
fn first_slash_exec(s: &[char]) -> (r: Option<usize>)
    ensures
        match r {
            Some(k) => first_slash(s@) == k,
            None => first_slash(s@) < 0,
        },
{
    let mut i: usize = 0;
    proof {
        lemma_first_slash(s@);
    }
    while i < s.len()
        invariant
            i <= s@.len(),
            forall|j: int| 0 <= j < i ==> s@[j] != '/',
        decreases s@.len() - i,
    {
        if s[i] == '/' {
            proof {
                lemma_first_slash_is(s@, i as int);
            }
            return Some(i);
        }
        i = i + 1;
    }
    proof {
        lemma_first_slash(s@);
    }
    None
}

/// The first `/` is at `i` when `s[i]` is one and none comes before.
proof fn lemma_first_slash_is(s: Seq<char>, i: int)
    requires
        0 <= i < s.len(),
        s[i] == '/',
        forall|j: int| 0 <= j < i ==> s[j] != '/',
    ensures
        first_slash(s) == i,
    decreases i,
{
    if i > 0 {
        assert forall|j: int| 0 <= j < i - 1 implies s.skip(1)[j] != '/' by {
            assert(s.skip(1)[j] == s[j + 1]);
        }
        lemma_first_slash_is(s.skip(1), i - 1);
    }
}

/// Records the names of a file (see `file_names`).
fn record_file(table: &mut Vec<(Vec<char>, Vec<char>)>, fp: &str)
    ensures
        table_view(final(table)@) == table_view(old(table)@) + file_names(fp@),
{
    let ghost start = table_view(table@);
    let fpv = str_chars(fp);
    let base = base_name_exec(fp);
    let base_text = chars_to_string(base.as_slice());
    let stem = stem_exec(base_text.as_str());
    record(table, base, &fpv);
    record(table, stem, &fpv);
    record(table, fpv.clone(), &fpv);
    let mut rel = fpv.clone();
    proof {
        assert(table_view(table@) + suffix_names(rel@, fp@) =~= start + file_names(fp@));
    }
    loop
        invariant
            fpv@ == fp@,
            table_view(table@) + suffix_names(rel@, fp@) == start + file_names(fp@),
        ensures
            table_view(table@) == start + file_names(fp@),
        decreases rel@.len(),
    {
        let rl = rel.len();
        match first_slash_exec(rel.as_slice()) {
            None => {
                proof {
                    assert(table_view(table@) + Seq::<(Seq<char>, Seq<char>)>::empty() =~= table_view(table@));
                }
                break;
            },
            Some(k) => {
                proof {
                    lemma_first_slash(rel@);
                }
                let mut r2: Vec<char> = Vec::new();
                let mut m: usize = k + 1;
                while m < rel.len()
                    invariant
                        k < rel@.len(),
                        k + 1 <= m <= rel@.len(),
                        r2@ == rel@.subrange(k + 1, m as int),
                    decreases rel@.len() - m,
                {
                    r2.push(rel[m]);
                    m = m + 1;
                    proof {
                        assert(r2@ =~= rel@.subrange(k + 1, m as int));
                    }
                }
                proof {
                    assert(r2@ =~= rel@.skip(k + 1));
                }
                let r2_text = chars_to_string(r2.as_slice());
                let st = stem_exec(r2_text.as_str());
                let ghost before = table_view(table@);
                record(table, r2.clone(), &fpv);
                record(table, st, &fpv);
                proof {
                    assert(table_view(table@) + suffix_names(r2@, fp@) =~= before + suffix_names(rel@, fp@));
                }
                rel = r2;
            },
        }
    }
    proof {
        assert(table_view(table@) =~= start + file_names(fp@));
    }
}

/// The file a name leads to (see `name_lookup`).
fn lookup_name(table: &Vec<(Vec<char>, Vec<char>)>, key: &[char]) -> (r: Option<Vec<char>>)
    ensures
        match r {
            Some(v) => name_lookup(table_view(table@), key@) == Some(v@),
            None => name_lookup(table_view(table@), key@).is_none(),
        },
{
    let ghost tv = table_view(table@);
    let mut j: usize = table.len();
    proof {
        assert(tv.take(j as int) =~= tv);
    }
    while j > 0
        invariant
            tv == table_view(table@),
            j <= table@.len(),
            name_lookup(tv, key@) == name_lookup(tv.take(j as int), key@),
        decreases j,
    {
        proof {
            assert(tv.take(j as int).last() == (table@[j - 1].0@, table@[j - 1].1@));
            assert(tv.take(j as int).drop_last() =~= tv.take(j - 1));
        }
        if chars_eq(table[j - 1].0.as_slice(), key) {
            return Some(table[j - 1].1.clone());
        }
        j = j - 1;
    }
    None
}

/// The file an import of `fp` resolves to (see `resolve`).
fn resolve_exec(table: &Vec<(Vec<char>, Vec<char>)>, fp: &[char], imp: &str) -> (r: Option<Vec<char>>)
    ensures
        match r {
            Some(v) => resolve(table_view(table@), fp@, imp@) == Some(v@),
            None => resolve(table_view(table@), fp@, imp@).is_none(),
        },
{
    let vars = variations_exec(imp);
    let ghost vv = comps_view(vars@);
    let ghost tv = table_view(table@);
    let mut k: usize = 0;
    while k < vars.len()
        invariant
            vv == comps_view(vars@),
            vv == import_variations(imp@),
            tv == table_view(table@),
            k <= vars@.len(),
            resolve(tv, fp@, imp@) == resolve_from(tv, fp@, vv, k as int),
        decreases vars@.len() - k,
    {
        match lookup_name(table, vars[k].as_slice()) {
            Some(m) => {
                if !chars_eq(m.as_slice(), fp) {
                    return Some(m);
                }
            },
            None => {},
        }
        k = k + 1;
    }
    None
}

/// Inserts `x` into the sorted list `s` of distinct texts (see `insert_sorted`).
fn insert_sorted_exec(s: &mut Vec<Vec<char>>, x: Vec<char>)
    ensures
        comps_view(final(s)@) == insert_sorted(x@, comps_view(old(s)@)),
{
    let ghost t = comps_view(s@);
    let mut j: usize = 0;
    let mut stop = false;
    proof {
        assert(t.skip(0) =~= t);
        assert(t.take(0) + insert_sorted(x@, t) =~= insert_sorted(x@, t));
    }
    while !stop && j < s.len()
        invariant
            t == comps_view(s@),
            j <= s@.len(),
            insert_sorted(x@, t) == t.take(j as int) + insert_sorted(x@, t.skip(j as int)),
            stop ==> j < t.len() && (x@ == t[j as int] || seq_lt(x@, t[j as int])),
        decreases s@.len() - j, if stop { 0int } else { 1int },
    {
        if chars_eq(x.as_slice(), s[j].as_slice()) || chars_less(x.as_slice(), s[j].as_slice()) {
            stop = true;
        } else {
            proof {
                let r = t.skip(j as int);
                assert(r[0] == t[j as int]);
                assert(r.drop_first() =~= t.skip(j + 1));
                assert(t.take(j + 1) =~= t.take(j as int) + seq![t[j as int]]);
            }
            j = j + 1;
        }
    }
    if j < s.len() && chars_eq(x.as_slice(), s[j].as_slice()) {
        proof {
            let r = t.skip(j as int);
            assert(r[0] == t[j as int]);
            assert(t.take(j as int) + r =~= t);
        }
        return;
    }
    proof {
        if j < t.len() {
            let r = t.skip(j as int);
            assert(r[0] == t[j as int]);
        } else {
            assert(t.skip(j as int) =~= Seq::<Seq<char>>::empty());
        }
    }
    s.insert(j, x);
    proof {
        assert(comps_view(s@) =~= insert_sorted(x@, t));
    }
}

/// The paths of a list of files.
pub open spec fn fc_paths(fc: Seq<(String, String)>) -> Seq<Seq<char>> {
    fc.map_values(|e: (String, String)| e.0@)
}

/// The contents of a list of files.
pub open spec fn fc_contents(fc: Seq<(String, String)>) -> Seq<Seq<char>> {
    fc.map_values(|e: (String, String)| e.1@)
}

/// The views of a list of strings.
pub open spec fn string_views(v: Seq<String>) -> Seq<Seq<char>> {
    v.map_values(|s: String| s@)
}

/// Strings holding the given character vectors.
fn to_strings(v: &Vec<Vec<char>>) -> (r: Vec<String>)
    ensures
        string_views(r@) == comps_view(v@),
{
    let mut out: Vec<String> = Vec::new();
    let mut i: usize = 0;
    while i < v.len()
        invariant
            i <= v@.len(),
            string_views(out@) == comps_view(v@).take(i as int),
        decreases v@.len() - i,
    {
        let ghost before = out@;
        let t = chars_to_string(v[i].as_slice());
        out.push(t);
        i = i + 1;
        proof {
            assert(string_views(out@) =~= string_views(before).push(t@));
            assert(string_views(out@) =~= comps_view(v@).take(i as int));
        }
    }
    proof {
        assert(comps_view(v@).take(v@.len() as int) =~= comps_view(v@));
    }
    out
}

/// The dependencies of one file (see `deps_of`).
fn deps_for(
    table: &Vec<(Vec<char>, Vec<char>)>,
    file_contents: &Vec<(String, String)>,
    fp: &String,
) -> (r: FileDependencies)
    requires
        table_view(table@) == name_table(fc_paths(file_contents@), file_contents@.len() as int),
        fc_paths(file_contents@).contains(fp@),
    ensures
        deps_of(fc_paths(file_contents@), fc_contents(file_contents@), fp@)
            == (string_views(r.internal_deps@), string_views(r.external_deps@)),
{
    let ghost paths = fc_paths(file_contents@);
    let ghost contents = fc_contents(file_contents@);
    let fpv = str_chars(fp.as_str());
    let mut j: usize = file_contents.len();
    proof {
        assert(paths.take(j as int) =~= paths);
    }
    let mut found = false;
    while j > 0 && !found
        invariant
            paths == fc_paths(file_contents@),
            j <= file_contents@.len(),
            found ==> j < paths.len() && last_with_path(paths, fp@) == j,
            !found ==> last_with_path(paths, fp@) == last_with_path(paths.take(j as int), fp@),
        decreases j, if found { 0int } else { 1int },
    {
        proof {
            assert(paths.take(j as int).last() == file_contents@[j - 1].0@);
            assert(paths.take(j as int).drop_last() =~= paths.take(j - 1));
        }
        if str_eq(file_contents[j - 1].0.as_str(), fp.as_str()) {
            found = true;
        }
        j = j - 1;
    }
    proof {
        if !found {
            let k = choose|k: int| 0 <= k < paths.len() && paths[k] == fp@;
            lemma_last_with_path(paths, fp@, k);
            assert(paths.take(0) =~= Seq::<Seq<char>>::empty());
        }
        assert(contents[j as int] == file_contents@[j as int].1@);
    }
    let imps = find_imports(fp.as_str(), file_contents[j].1.as_str());
    let ghost iv = imps@.map_values(|x: String| x@);
    let ghost tv = table_view(table@);
    let mut internal: Vec<Vec<char>> = Vec::new();
    let mut external: Vec<Vec<char>> = Vec::new();
    let mut k: usize = 0;
    while k < imps.len()
        invariant
            iv == imps@.map_values(|x: String| x@),
            tv == table_view(table@),
            fpv@ == fp@,
            k <= imps@.len(),
            comps_view(internal@) == sorted_distinct(resolved(tv, fp@, iv.take(k as int))),
            comps_view(external@) == sorted_distinct(unresolved(tv, fp@, iv.take(k as int))),
        decreases imps@.len() - k,
    {
        proof {
            assert(iv.take(k + 1).drop_last() =~= iv.take(k as int));
            assert(iv.take(k + 1).last() == imps@[k as int]@);
        }
        let ghost pre = iv.take(k as int);
        let ghost cur = iv.take(k + 1);
        match resolve_exec(table, fpv.as_slice(), imps[k].as_str()) {
            Some(m) => {
                proof {
                    let rs = resolved(tv, fp@, pre);
                    assert(resolved(tv, fp@, cur) == rs.push(m@));
                    assert(rs.push(m@).drop_last() =~= rs);
                    assert(unresolved(tv, fp@, cur) == unresolved(tv, fp@, pre));
                }
                insert_sorted_exec(&mut internal, m);
            },
            None => {
                let iv_k = str_chars(imps[k].as_str());
                proof {
                    let us = unresolved(tv, fp@, pre);
                    assert(unresolved(tv, fp@, cur) == us.push(iv_k@));
                    assert(us.push(iv_k@).drop_last() =~= us);
                    assert(resolved(tv, fp@, cur) == resolved(tv, fp@, pre));
                }
                insert_sorted_exec(&mut external, iv_k);
            },
        }
        k = k + 1;
    }
    proof {
        assert(iv.take(imps@.len() as int) =~= iv);
    }
    FileDependencies { internal_deps: to_strings(&internal), external_deps: to_strings(&external) }
}

/// `last_with_path` finds an entry when there is one.
proof fn lemma_last_with_path(paths: Seq<Seq<char>>, fp: Seq<char>, k: int)
    requires
        0 <= k < paths.len(),
        paths[k] == fp,
    ensures
        0 <= last_with_path(paths, fp) < paths.len(),
        paths[last_with_path(paths, fp)] == fp,
    decreases paths.len(),
{
    if paths.last() != fp {
        assert(k < paths.len() - 1);
        assert(paths.drop_last()[k] == fp);
        lemma_last_with_path(paths.drop_last(), fp, k);
    }
}

/// The dependencies of every file, by path: one entry per distinct path,
/// in order of first appearance (see `deps_of`).
pub fn analyze_dependencies(file_contents: &Vec<(String, String)>, _base_dir: &str) -> (r: Vec<(String, FileDependencies)>)
    ensures
        r@.len() == distinct_texts(fc_paths(file_contents@)).len(),
        forall|k: int| 0 <= k < r@.len() ==> {
            &&& (#[trigger] r@[k]).0@ == distinct_texts(fc_paths(file_contents@))[k]
            &&& deps_of(fc_paths(file_contents@), fc_contents(file_contents@), r@[k].0@)
                == (string_views(r@[k].1.internal_deps@), string_views(r@[k].1.external_deps@))
        },
{
    let ghost paths = fc_paths(file_contents@);
    let mut table: Vec<(Vec<char>, Vec<char>)> = Vec::new();
    let mut i: usize = 0;
    while i < file_contents.len()
        invariant
            paths == fc_paths(file_contents@),
            i <= file_contents@.len(),
            table_view(table@) == name_table(paths, i as int),
        decreases file_contents@.len() - i,
    {
        record_file(&mut table, file_contents[i].0.as_str());
        i = i + 1;
    }
    let mut out: Vec<(String, FileDependencies)> = Vec::new();
    let mut n: usize = 0;
    while n < file_contents.len()
        invariant
            paths == fc_paths(file_contents@),
            n <= file_contents@.len(),
            table_view(table@) == name_table(paths, paths.len() as int),
            out@.len() == distinct_texts(paths.take(n as int)).len(),
            forall|k: int| 0 <= k < out@.len() ==> {
                &&& (#[trigger] out@[k]).0@ == distinct_texts(paths.take(n as int))[k]
                &&& deps_of(paths, fc_contents(file_contents@), out@[k].0@)
                    == (string_views(out@[k].1.internal_deps@), string_views(out@[k].1.external_deps@))
            },
        decreases file_contents@.len() - n,
    {
        let ghost d = distinct_texts(paths.take(n as int));
        proof {
            assert(paths.take(n + 1).drop_last() =~= paths.take(n as int));
            assert(paths.take(n + 1).last() == file_contents@[n as int].0@);
        }
        let mut seen = false;
        let mut q: usize = 0;
        while q < out.len() && !seen
            invariant
                q <= out@.len(),
                out@.len() == d.len(),
                forall|k: int| 0 <= k < out@.len() ==> (#[trigger] out@[k]).0@ == d[k],
                seen ==> d.contains(file_contents@[n as int].0@),
                !seen ==> forall|k: int| 0 <= k < q ==> d[k] != file_contents@[n as int].0@,
                n < file_contents@.len(),
            decreases out@.len() - q,
        {
            if str_eq(out[q].0.as_str(), file_contents[n].0.as_str()) {
                seen = true;
                proof {
                    assert(d[q as int] == file_contents@[n as int].0@);
                }
            }
            q = q + 1;
        }
        if !seen {
            proof {
                assert(paths[n as int] == file_contents@[n as int].0@);
                assert(paths.contains(file_contents@[n as int].0@));
            }
            let deps = deps_for(&table, file_contents, &file_contents[n].0);
            let ghost before = out@;
            out.push((file_contents[n].0.clone(), deps));
            proof {
                assert(distinct_texts(paths.take(n + 1)) =~= d.push(file_contents@[n as int].0@));
                assert forall|k: int| 0 <= k < out@.len() implies
                    (#[trigger] out@[k]).0@ == distinct_texts(paths.take(n + 1))[k] by {
                    if k < before.len() {
                        assert(out@[k] == before[k]);
                    }
                }
            }
        } else {
            proof {
                assert(distinct_texts(paths.take(n + 1)) == d);
            }
        }
        n = n + 1;
    }
    proof {
        assert(paths.take(file_contents@.len() as int) =~= paths);
    }
    out
}

/// Every name recorded leads to one of the files.
proof fn lemma_name_table_files(paths: Seq<Seq<char>>, n: int)
    ensures
        forall|k: int| 0 <= k < name_table(paths, n).len() ==> paths.contains((#[trigger] name_table(paths, n)[k]).1),
    decreases n,
{
    if !(n <= 0 || n > paths.len()) {
        lemma_name_table_files(paths, n - 1);
        let a = name_table(paths, n - 1);
        let fp = paths[n - 1];
        let b = file_names(fp);
        assert forall|k: int| 0 <= k < b.len() implies (#[trigger] b[k]).1 == fp by {
            lemma_suffix_names_file(fp, fp);
            if k >= 3 {
                assert(b[k] == suffix_names(fp, fp)[k - 3]);
            }
        }
        assert forall|k: int| 0 <= k < (a + b).len() implies paths.contains((#[trigger] (a + b)[k]).1) by {
            if k < a.len() {
                assert((a + b)[k] == a[k]);
            } else {
                assert((a + b)[k] == b[k - a.len()]);
                assert(paths[n - 1] == fp);
            }
        }
    }
}

/// The suffix names of a file all lead to it.
proof fn lemma_suffix_names_file(rel: Seq<char>, fp: Seq<char>)
    ensures
        forall|k: int| 0 <= k < suffix_names(rel, fp).len() ==> (#[trigger] suffix_names(rel, fp)[k]).1 == fp,
    decreases rel.len(),
{
    if first_slash(rel) >= 0 {
        lemma_first_slash(rel);
        let r2 = rel.skip(first_slash(rel) + 1);
        lemma_suffix_names_file(r2, fp);
        let h = seq![(r2, fp), (stem_or_empty(r2), fp)];
        let t = suffix_names(r2, fp);
        assert forall|k: int| 0 <= k < (h + t).len() implies (#[trigger] (h + t)[k]).1 == fp by {
            if k >= 2 {
                assert((h + t)[k] == t[k - 2]);
            }
        }
    }
}

/// A name found in a table is recorded in it.
proof fn lemma_name_lookup_found(table: Seq<(Seq<char>, Seq<char>)>, key: Seq<char>)
    ensures
        name_lookup(table, key) matches Some(m) ==> exists|k: int| 0 <= k < table.len() && (#[trigger] table[k]) == (key, m),
    decreases table.len(),
{
    if table.len() > 0 && table.last().0 != key {
        lemma_name_lookup_found(table.drop_last(), key);
        if let Some(m) = name_lookup(table.drop_last(), key) {
            let k = choose|k: int| 0 <= k < table.drop_last().len() && (#[trigger] table.drop_last()[k]) == (key, m);
            assert(table[k] == table.drop_last()[k]);
        }
    } else if table.len() > 0 {
        assert(table[table.len() - 1] == table.last());
    }
}

/// A resolved import leads to a file of the table other than `fp`.
proof fn lemma_resolve_from(table: Seq<(Seq<char>, Seq<char>)>, fp: Seq<char>, vars: Seq<Seq<char>>, k: int)
    ensures
        resolve_from(table, fp, vars, k) matches Some(m) ==> m != fp && exists|j: int| 0 <= j < table.len() && (#[trigger] table[j]).1 == m,
    decreases vars.len() - k,
{
    if 0 <= k < vars.len() {
        lemma_resolve_from(table, fp, vars, k + 1);
        lemma_name_lookup_found(table, vars[k]);
    }
}

/// The resolved imports are files of the table other than `fp`.
proof fn lemma_resolved(table: Seq<(Seq<char>, Seq<char>)>, fp: Seq<char>, imps: Seq<Seq<char>>)
    ensures
        forall|i: int| 0 <= i < resolved(table, fp, imps).len() ==> {
            let m = #[trigger] resolved(table, fp, imps)[i];
            m != fp && exists|j: int| 0 <= j < table.len() && (#[trigger] table[j]).1 == m
        },
    decreases imps.len(),
{
    if imps.len() > 0 {
        lemma_resolved(table, fp, imps.drop_last());
        lemma_resolve_from(table, fp, import_variations(imps.last()), 0);
        let prev = resolved(table, fp, imps.drop_last());
        assert forall|i: int| 0 <= i < resolved(table, fp, imps).len() implies {
            let m = #[trigger] resolved(table, fp, imps)[i];
            m != fp && exists|j: int| 0 <= j < table.len() && (#[trigger] table[j]).1 == m
        } by {
            if i < prev.len() {
                assert(resolved(table, fp, imps)[i] == prev[i]);
            }
        }
    }
}

/// Sorting keeps only texts of the list.
proof fn lemma_sorted_distinct_from(s: Seq<Seq<char>>)
    ensures
        forall|i: int| 0 <= i < sorted_distinct(s).len() ==> s.contains(#[trigger] sorted_distinct(s)[i]),
    decreases s.len(),
{
    if s.len() > 0 {
        lemma_sorted_distinct_from(s.drop_last());
        lemma_insert_sorted_from(s.last(), sorted_distinct(s.drop_last()));
        let t = sorted_distinct(s.drop_last());
        assert forall|i: int| 0 <= i < sorted_distinct(s).len() implies s.contains(#[trigger] sorted_distinct(s)[i]) by {
            let y = sorted_distinct(s)[i];
            if y == s.last() {
                assert(s[s.len() - 1] == y);
            } else {
                let j = choose|j: int| 0 <= j < t.len() && t[j] == y;
                let k = choose|k: int| 0 <= k < s.drop_last().len() && s.drop_last()[k] == t[j];
                assert(s[k] == y);
            }
        }
    }
}

/// Inserting keeps only `x` and texts of `s`.
proof fn lemma_insert_sorted_from(x: Seq<char>, s: Seq<Seq<char>>)
    ensures
        forall|i: int| 0 <= i < insert_sorted(x, s).len() ==> {
            let y = #[trigger] insert_sorted(x, s)[i];
            y == x || s.contains(y)
        },
    decreases s.len(),
{
    if s.len() > 0 && x != s[0] {
        if seq_lt(x, s[0]) {
            assert forall|i: int| 0 <= i < insert_sorted(x, s).len() implies {
                let y = #[trigger] insert_sorted(x, s)[i];
                y == x || s.contains(y)
            } by {
                if i > 0 {
                    assert(insert_sorted(x, s)[i] == s[i - 1]);
                }
            }
        } else {
            lemma_insert_sorted_from(x, s.drop_first());
            let t = insert_sorted(x, s.drop_first());
            assert forall|i: int| 0 <= i < insert_sorted(x, s).len() implies {
                let y = #[trigger] insert_sorted(x, s)[i];
                y == x || s.contains(y)
            } by {
                if i == 0 {
                    assert(insert_sorted(x, s)[0] == s[0]);
                } else {
                    assert(insert_sorted(x, s)[i] == t[i - 1]);
                    if t[i - 1] != x {
                        let j = choose|j: int| 0 <= j < s.drop_first().len() && s.drop_first()[j] == t[i - 1];
                        assert(s[j + 1] == t[i - 1]);
                    }
                }
            }
        }
    } else if s.len() > 0 {
        assert forall|i: int| 0 <= i < insert_sorted(x, s).len() implies {
            let y = #[trigger] insert_sorted(x, s)[i];
            y == x || s.contains(y)
        } by {
            assert(insert_sorted(x, s)[i] == s[i]);
        }
    }
}

/// A file's internal dependencies are other files among those analysed:
/// a file never depends on itself.
pub proof fn lemma_internal_deps(paths: Seq<Seq<char>>, contents: Seq<Seq<char>>, fp: Seq<char>)
    ensures
        forall|i: int| 0 <= i < deps_of(paths, contents, fp).0.len() ==> {
            let d = #[trigger] deps_of(paths, contents, fp).0[i];
            d != fp && paths.contains(d)
        },
{
    let table = name_table(paths, paths.len() as int);
    let imps = file_imports(fp, contents[last_with_path(paths, fp)]);
    let rs = resolved(table, fp, imps);
    lemma_resolved(table, fp, imps);
    lemma_sorted_distinct_from(rs);
    lemma_name_table_files(paths, paths.len() as int);
    assert forall|i: int| 0 <= i < sorted_distinct(rs).len() implies {
        let d = #[trigger] sorted_distinct(rs)[i];
        d != fp && paths.contains(d)
    } by {
        let d = sorted_distinct(rs)[i];
        let k = choose|k: int| 0 <= k < rs.len() && rs[k] == d;
        assert(rs[k] != fp);
        let j = choose|j: int| 0 <= j < table.len() && (#[trigger] table[j]).1 == rs[k];
    }
}

/// Whether the name `v` leads to a file other than `fp`.
pub open spec fn leads_elsewhere(table: Seq<(Seq<char>, Seq<char>)>, fp: Seq<char>, v: Seq<char>) -> bool {
    name_lookup(table, v) matches Some(x) && x != fp
}

/// A resolved import puts its file among the resolved files.
proof fn lemma_resolved_has(table: Seq<(Seq<char>, Seq<char>)>, fp: Seq<char>, imps: Seq<Seq<char>>, imp: Seq<char>, m: Seq<char>)
    requires
        imps.contains(imp),
        resolve(table, fp, imp) == Some(m),
    ensures
        resolved(table, fp, imps).contains(m),
    decreases imps.len(),
{
    let d = imps.drop_last();
    let r = resolved(table, fp, imps);
    if imps.last() == imp {
        assert(r == resolved(table, fp, d).push(m));
        assert(r[r.len() - 1] == m);
    } else {
        let k = choose|k: int| 0 <= k < imps.len() && imps[k] == imp;
        assert(k < d.len() && d[k] == imp);
        lemma_resolved_has(table, fp, d, imp, m);
        let rd = resolved(table, fp, d);
        let j = choose|j: int| 0 <= j < rd.len() && rd[j] == m;
        match resolve(table, fp, imps.last()) {
            Some(x) => {
                assert(r == rd.push(x));
                assert(r[j] == m);
            },
            None => {
                assert(r == rd);
            },
        }
    }
}

/// No unresolved import resolves.
proof fn lemma_unresolved_none(table: Seq<(Seq<char>, Seq<char>)>, fp: Seq<char>, imps: Seq<Seq<char>>)
    ensures
        forall|i: int| 0 <= i < unresolved(table, fp, imps).len() ==> resolve(table, fp, #[trigger] unresolved(table, fp, imps)[i]) is None,
    decreases imps.len(),
{
    if imps.len() > 0 {
        let d = imps.drop_last();
        lemma_unresolved_none(table, fp, d);
        let u = unresolved(table, fp, imps);
        let ud = unresolved(table, fp, d);
        assert forall|i: int| 0 <= i < u.len() implies resolve(table, fp, #[trigger] u[i]) is None by {
            if i < ud.len() {
                assert(u[i] == ud[i]);
            }
        }
    }
}

/// Inserting keeps `x` and every text of `s`.
proof fn lemma_insert_sorted_keeps(x: Seq<char>, s: Seq<Seq<char>>)
    ensures
        insert_sorted(x, s).contains(x),
        forall|j: int| 0 <= j < s.len() ==> insert_sorted(x, s).contains(#[trigger] s[j]),
    decreases s.len(),
{
    let r = insert_sorted(x, s);
    if s.len() == 0 {
        assert(r[0] == x);
    } else if x == s[0] {
        assert(r[0] == x);
        assert forall|j: int| 0 <= j < s.len() implies r.contains(#[trigger] s[j]) by {
            assert(r[j] == s[j]);
        }
    } else if seq_lt(x, s[0]) {
        assert(r[0] == x);
        assert forall|j: int| 0 <= j < s.len() implies r.contains(#[trigger] s[j]) by {
            assert(r[j + 1] == s[j]);
        }
    } else {
        let t = s.drop_first();
        lemma_insert_sorted_keeps(x, t);
        let rt = insert_sorted(x, t);
        assert(r == seq![s[0]] + rt);
        let k = choose|k: int| 0 <= k < rt.len() && rt[k] == x;
        assert(r[k + 1] == x);
        assert forall|j: int| 0 <= j < s.len() implies r.contains(#[trigger] s[j]) by {
            if j == 0 {
                assert(r[0] == s[0]);
            } else {
                assert(t[j - 1] == s[j]);
                assert(rt.contains(t[j - 1]));
                let kk = choose|kk: int| 0 <= kk < rt.len() && rt[kk] == s[j];
                assert(r[kk + 1] == s[j]);
            }
        }
    }
}

/// Sorting keeps every text of the list.
proof fn lemma_sorted_distinct_has(s: Seq<Seq<char>>)
    ensures
        forall|j: int| 0 <= j < s.len() ==> sorted_distinct(s).contains(#[trigger] s[j]),
    decreases s.len(),
{
    if s.len() > 0 {
        let d = s.drop_last();
        lemma_sorted_distinct_has(d);
        lemma_insert_sorted_keeps(s.last(), sorted_distinct(d));
        let sd = sorted_distinct(d);
        assert forall|j: int| 0 <= j < s.len() implies sorted_distinct(s).contains(#[trigger] s[j]) by {
            if j < d.len() {
                assert(d[j] == s[j]);
                assert(sd.contains(d[j]));
                let k = choose|k: int| 0 <= k < sd.len() && sd[k] == s[j];
                assert(sd[k] == s[j]);
            }
        }
    }
}

/// A dotted Python import `a.b` of `fp` leads to the file found under the
/// name `a/b.py` (each dot a slash, then `.py`) when that is a file other
/// than `fp` and none of the names tried before it (the import itself, its
/// file name, its stem, its dotted form with slashes, and its `::` form
/// with slashes) leads to a file other than `fp`: that file is among the
/// internal dependencies of `fp`, and the import is not among its external
/// ones.
pub proof fn lemma_python_dotted_import(
    paths: Seq<Seq<char>>,
    contents: Seq<Seq<char>>,
    fp: Seq<char>,
    imp: Seq<char>,
    path: Seq<char>,
    m: Seq<char>,
)
    requires
        file_imports(fp, contents[last_with_path(paths, fp)]).contains(imp),
        path.len() >= imp.len(),
        forall|i: int| 0 <= i < imp.len() ==> path[i] == (if imp[i] == '.' { '/' } else { imp[i] }),
        path.skip(imp.len() as int) == ".py"@,
        name_lookup(name_table(paths, paths.len() as int), path) == Some(m),
        m != fp,
        !leads_elsewhere(name_table(paths, paths.len() as int), fp, imp),
        !leads_elsewhere(name_table(paths, paths.len() as int), fp, base_name(imp)),
        !leads_elsewhere(name_table(paths, paths.len() as int), fp, stem_or_empty(imp)),
        !leads_elsewhere(name_table(paths, paths.len() as int), fp, path.take(imp.len() as int)),
        !leads_elsewhere(name_table(paths, paths.len() as int), fp, replace_colons(imp)),
    ensures
        deps_of(paths, contents, fp).0.contains(m),
        !deps_of(paths, contents, fp).1.contains(imp),
{
    let table = name_table(paths, paths.len() as int);
    let imps = file_imports(fp, contents[last_with_path(paths, fp)]);
    let vars = import_variations(imp);
    let n = imp.len() as int;
    assert(vars[3] =~= path.take(n));
    assert(vars[5] =~= path) by {
        assert(vars[5] == replace_dots(imp) + ".py"@);
        assert forall|i: int| 0 <= i < path.len() implies vars[5][i] == path[i] by {
            if i >= n {
                assert(path.skip(n)[i - n] == path[i]);
            }
        }
    }
    assert(resolve_from(table, fp, vars, 5) == Some(m));
    assert(resolve_from(table, fp, vars, 4) == Some(m));
    assert(resolve_from(table, fp, vars, 3) == Some(m));
    assert(resolve_from(table, fp, vars, 2) == Some(m));
    assert(resolve_from(table, fp, vars, 1) == Some(m));
    assert(resolve_from(table, fp, vars, 0) == Some(m));
    assert(resolve(table, fp, imp) == Some(m));
    lemma_resolved_has(table, fp, imps, imp, m);
    let rs = resolved(table, fp, imps);
    let j = choose|j: int| 0 <= j < rs.len() && rs[j] == m;
    lemma_sorted_distinct_has(rs);
    assert(sorted_distinct(rs).contains(rs[j]));
    let us = unresolved(table, fp, imps);
    lemma_unresolved_none(table, fp, imps);
    lemma_sorted_distinct_from(us);
    if sorted_distinct(us).contains(imp) {
        let i = choose|i: int| 0 <= i < sorted_distinct(us).len() && sorted_distinct(us)[i] == imp;
        assert(us.contains(sorted_distinct(us)[i]));
        let k = choose|k: int| 0 <= k < us.len() && us[k] == imp;
        assert(resolve(table, fp, us[k]) is None);
    }
}

} // verus!
