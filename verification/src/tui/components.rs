//! The components of the terminal interface: the modal dialog with its
//! pages, the file list's icons, the header and the status bar.

use vstd::prelude::*;
use crate::text::{lines, split_lines, push_str, push_chars, push_decimal, decimal, str_chars, chars_to_string, str_eq, chars_eq};
use crate::paths::{
    extension_of, extension, comps_view, components, parse_components, strip_prefix_of, file_name_of,
    file_name_comps,
};
use crate::models::{OutputFormat, format_debug, format_display, icon_table, VERSION};
use crate::output::snapshot::strip_parsed;
use crate::output::report::join;
use crate::tui::state::now;

verus! {

/// The kind of a modal dialog.
#[derive(Debug, Clone, Copy, PartialEq, Eq, Structural)]
pub enum ModalType {
    Info,
    Confirmation,
}

/// The text of the help dialog.
pub const HELP_TEXT: &'static str = "📋 Keyboard Shortcuts
═══════════════════════

🧭 Navigation
─────────────
  ↑/↓        │ Move selection up/down
  PgUp/PgDn  │ Move by 10 items
  Enter      │ Open directory
  Backspace  │ Go to parent directory
  Tab        │ Expand/collapse folder
  Home/End   │ Jump to first/last item

🎯 Selection
────────────
  Space      │ Select/deselect item
  a          │ Select/deselect all items

⚡ Actions
─────────
  c          │ Copy to clipboard
  f          │ Toggle format (XML/MD/JSON/LLM)
  n          │ Toggle line numbers
  /          │ Search (ESC to cancel)

🔍 Filters
──────────
  d          │ Toggle default ignores
  g          │ Toggle .gitignore rules
  b          │ Toggle binary files
  r          │ Toggle recursive mode

🛠️  Other
────────
  h / ?      │ Show/hide this help
  S          │ Save current config
  q          │ Quit (copies if items selected)
  Ctrl+C     │ Quit immediately

💡 Help Navigation
─────────────────
  PgUp/PgDn  │ Scroll help pages
  Esc / q    │ Close help";

/// A modal dialog: its message, when it was made, its size, the page shown
/// and its kind.
pub struct Modal {
    pub message: String,
    pub timestamp: std::time::Instant,
    pub width: u16,
    pub height: u16,
    pub page: usize,
    pub modal_type: ModalType,
}

/// The rows of a dialog `available_height` rows high left for its text:
/// four go to the frame; the count is taken as a `u16` subtraction that
/// wraps, so a dialog under four rows high shows its text on one page.
pub open spec fn content_rows(available_height: nat) -> nat {
    if available_height >= 4 {
        (available_height - 4) as nat
    } else {
        (available_height + 65532) as nat
    }
}

/// `content_rows` for a `u16` height.
fn content_rows_exec(available_height: u16) -> (r: usize)
    ensures
        r == content_rows(available_height as nat),
{
    if available_height >= 4 {
        (available_height - 4) as usize
    } else {
        (available_height as usize) + 65532
    }
}

/// The number of pages of `total` lines shown `per_page` at a time.
pub open spec fn page_count(total: nat, per_page: nat) -> nat {
    if per_page == 0 {
        0
    } else {
        ((total + per_page - 1) as nat) / per_page
    }
}

/// The page shown after moving forward from `page` among `pages` pages.
pub open spec fn next_page_of(page: nat, pages: nat) -> nat {
    if pages > 1 {
        (page + 1) % pages
    } else {
        page
    }
}

/// The page shown after moving back from `page` among `pages` pages.
pub open spec fn prev_page_of(page: nat, pages: nat) -> nat {
    if pages > 1 {
        ((page + pages - 1) as nat) % pages
    } else {
        page
    }
}

/// The message of the copy summary.
pub open spec fn copy_stats_message(files: nat, folders: nat, lines_n: nat, size_text: Seq<char>, format: OutputFormat) -> Seq<char> {
    "Copied to clipboard ("@ + format_debug(format) + ")\n\nFiles: "@ + decimal(files) + "\nFolders: "@
        + decimal(folders) + "\nLines: "@ + decimal(lines_n) + "\nSize: "@ + size_text
}

/// What `get_visible_content` shows: the lines of the current page joined
/// by newlines and, when the message has more lines than fit, the page
/// number and count below them.
pub open spec fn visible_content(message: Seq<char>, page: nat, available_height: nat) -> (Seq<char>, bool) {
    let per_page = content_rows(available_height);
    let ls = lines(message);
    let total = ls.len();
    let pages = page_count(total, per_page);
    let more = total > per_page;
    let start = page * per_page;
    let end = if start + per_page < total { start + per_page } else { total };
    let shown = join(ls.subrange(start as int, end as int), "\n"@);
    (if more {
        shown + "\n\nPage "@ + decimal(page + 1) + " of "@ + decimal(pages)
    } else {
        shown
    }, more)
}

/// A copy of lines `from..to` of a list of character vectors.
fn copy_lines(v: &Vec<Vec<char>>, from: usize, to: usize) -> (r: Vec<Vec<char>>)
    requires
        from <= to <= v@.len(),
    ensures
        comps_view(r@) == comps_view(v@).subrange(from as int, to as int),
{
    let mut out: Vec<Vec<char>> = Vec::new();
    let mut i: usize = from;
    while i < to
        invariant
            from <= i <= to,
            to <= v@.len(),
            comps_view(out@) == comps_view(v@).subrange(from as int, i as int),
        decreases to - i,
    {
        let mut piece: Vec<char> = Vec::new();
        push_chars(&mut piece, v[i].as_slice());
        let ghost before = out@;
        out.push(piece);
        i = i + 1;
        proof {
            assert(comps_view(out@) =~= comps_view(before).push(piece@));
            assert(comps_view(out@) =~= comps_view(v@).subrange(from as int, i as int));
        }
    }
    out
}

/// Texts joined with a separator (see `join`).
fn joined(parts: &Vec<Vec<char>>, sep: &str) -> (r: Vec<char>)
    ensures
        r@ == join(comps_view(parts@), sep@),
{
    let ghost pv = comps_view(parts@);
    let mut out: Vec<char> = Vec::new();
    let mut i: usize = 0;
    while i < parts.len()
        invariant
            pv == comps_view(parts@),
            i <= parts@.len(),
            out@ == join(pv.take(i as int), sep@),
        decreases parts@.len() - i,
    {
        if i > 0 {
            push_str(&mut out, sep);
        }
        push_chars(&mut out, parts[i].as_slice());
        i = i + 1;
        proof {
            let t = pv.take(i as int);
            assert(t.drop_last() =~= pv.take(i - 1));
            assert(t.last() == parts@[i - 1]@);
            assert(out@ =~= join(pv.take(i as int), sep@));
        }
    }
    proof {
        assert(pv.take(parts@.len() as int) =~= pv);
    }
    out
}

/// The number of lines of a message.
fn line_count(message: &String) -> (r: usize)
    ensures
        r == lines(message@).len(),
{
    let mv = str_chars(message.as_str());
    let ls = split_lines(mv.as_slice());
    ls.len()
}

/// The number of pages, computed.
fn pages_of(total: usize, per_page: usize) -> (r: usize)
    requires
        per_page > 0,
    ensures
        r == page_count(total as nat, per_page as nat),
{
    let q0 = total / per_page;
    proof {
        if total % per_page != 0 {
            assert(per_page >= 2);
            assert(q0 * per_page <= total) by (nonlinear_arith)
                requires
                    q0 == total / per_page,
                    per_page > 0,
            {
            }
            assert(q0 < usize::MAX) by (nonlinear_arith)
                requires
                    q0 * per_page <= total,
                    per_page >= 2,
                    total <= usize::MAX,
            {
            }
        }
    }
    let pages = if total % per_page == 0 { q0 } else { q0 + 1 };
    proof {
        let t = total as int;
        let d = per_page as int;
        let q = t / d;
        let rem = t % d;
        vstd::arithmetic::div_mod::lemma_fundamental_div_mod(t, d);
        assert(t == d * q + rem);
        assert(d * q == q * d) by (nonlinear_arith);
        assert((q + 1) * d == q * d + d) by (nonlinear_arith);
        if rem == 0 {
            vstd::arithmetic::div_mod::lemma_fundamental_div_mod_converse(t + d - 1, d, q, d - 1);
        } else {
            vstd::arithmetic::div_mod::lemma_fundamental_div_mod_converse(t + d - 1, d, q + 1, rem - 1);
        }
    }
    pages
}

impl Modal {
    /// An information dialog on its first page.
    pub fn new(message: String, width: u16, height: u16) -> (r: Self)
        ensures
            r.message@ == message@,
            r.width == width,
            r.height == height,
            r.page == 0,
            r.modal_type == ModalType::Info,
    {
        Modal { message, timestamp: now(), width, height, page: 0, modal_type: ModalType::Info }
    }

    /// A confirmation dialog on its first page.
    pub fn new_confirmation(message: String, width: u16, height: u16) -> (r: Self)
        ensures
            r.message@ == message@,
            r.width == width,
            r.height == height,
            r.page == 0,
            r.modal_type == ModalType::Confirmation,
    {
        Modal { message, timestamp: now(), width, height, page: 0, modal_type: ModalType::Confirmation }
    }

    /// The summary shown after a copy (60 by 8), given the size already
    /// written in human-readable form.
    pub fn copy_stats(
        file_count: usize,
        folder_count: usize,
        line_count: usize,
        size_text: &str,
        format: &OutputFormat,
    ) -> (r: Self)
        ensures
            r.message@ == copy_stats_message(file_count as nat, folder_count as nat, line_count as nat, size_text@, *format),
            r.width == 60,
            r.height == 8,
            r.page == 0,
            r.modal_type == ModalType::Info,
    {
        let mut m: Vec<char> = Vec::new();
        push_str(&mut m, "Copied to clipboard (");
        push_str(&mut m, format.debug_name());
        push_str(&mut m, ")\n\nFiles: ");
        push_decimal(&mut m, file_count);
        push_str(&mut m, "\nFolders: ");
        push_decimal(&mut m, folder_count);
        push_str(&mut m, "\nLines: ");
        push_decimal(&mut m, line_count);
        push_str(&mut m, "\nSize: ");
        push_str(&mut m, size_text);
        proof {
            assert(m@ =~= copy_stats_message(file_count as nat, folder_count as nat, line_count as nat, size_text@, *format));
        }
        Self::new(chars_to_string(m.as_slice()), 60, 8)
    }

    /// The help dialog (68 by 32).
    pub fn help() -> (r: Self)
        ensures
            r.message@ == HELP_TEXT@,
            r.width == 68,
            r.height == 32,
            r.page == 0,
            r.modal_type == ModalType::Info,
    {
        Self::new(String::from_str(HELP_TEXT), 68, 32)
    }

    /// The confirmation asked before overwriting the configuration file at
    /// `config_path` (70 by 8).
    pub fn config_overwrite_confirmation(config_path: &str) -> (r: Self)
        ensures
            r.message@ == "Configuration file already exists:\n"@ + config_path@
                + "\n\nDo you want to overwrite it?\n\n[Y] Yes, overwrite\n[N] No, cancel"@,
            r.width == 70,
            r.height == 8,
            r.page == 0,
            r.modal_type == ModalType::Confirmation,
    {
        let mut m: Vec<char> = Vec::new();
        push_str(&mut m, "Configuration file already exists:\n");
        push_str(&mut m, config_path);
        push_str(&mut m, "\n\nDo you want to overwrite it?\n\n[Y] Yes, overwrite\n[N] No, cancel");
        Self::new_confirmation(chars_to_string(m.as_slice()), 70, 8)
    }

    /// The text of the current page for a dialog `available_height` rows
    /// high (four rows go to the frame), and whether there is more than one
    /// page (see `visible_content`).
    pub fn get_visible_content(&self, available_height: u16) -> (r: (String, bool))
        requires
            available_height != 4,
            self.page * content_rows(available_height as nat) <= lines(self.message@).len(),
            self.page < usize::MAX,
        ensures
            (r.0@, r.1) == visible_content(self.message@, self.page as nat, available_height as nat),
    {
        let per_page: usize = content_rows_exec(available_height);
        let mv = str_chars(self.message.as_str());
        let ls = split_lines(mv.as_slice());
        let total = ls.len();
        let pages = pages_of(total, per_page);
        let more = total > per_page;
        let start = self.page * per_page;
        let end = if per_page < total - start { start + per_page } else { total };
        let shown_lines = copy_lines(&ls, start, end);
        let mut out = joined(&shown_lines, "\n");
        if more {
            push_str(&mut out, "\n\nPage ");
            push_decimal(&mut out, self.page + 1);
            push_str(&mut out, " of ");
            push_decimal(&mut out, pages);
        }
        proof {
            assert(comps_view(ls@) =~= lines(self.message@));
            assert(out@ =~= visible_content(self.message@, self.page as nat, available_height as nat).0);
        }
        (chars_to_string(out.as_slice()), more)
    }

    /// Moves to the next page, wrapping around, when there is more than one.
    pub fn next_page(&mut self, available_height: u16)
        requires
            available_height != 4,
            old(self).page < usize::MAX,
        ensures
            final(self).page == next_page_of(old(self).page as nat, page_count(lines(old(self).message@).len(), content_rows(available_height as nat))),
            *final(self) == (Modal { page: final(self).page, ..*old(self) }),
    {
        let per_page: usize = content_rows_exec(available_height);
        let total = line_count(&self.message);
        let pages = pages_of(total, per_page);
        if pages > 1 {
            self.page = (self.page + 1) % pages;
            proof {
                vstd::arithmetic::div_mod::lemma_add_mod_noop(old(self).page as int, 1, pages as int);
                vstd::arithmetic::div_mod::lemma_small_mod(1, pages as nat);
            }
        }
    }

    /// Moves to the previous page, wrapping around, when there is more than
    /// one.
    pub fn prev_page(&mut self, available_height: u16)
        requires
            available_height != 4,
            old(self).page + page_count(lines(old(self).message@).len(), content_rows(available_height as nat)) <= usize::MAX + 1,
        ensures
            final(self).page == prev_page_of(old(self).page as nat, page_count(lines(old(self).message@).len(), content_rows(available_height as nat))),
            *final(self) == (Modal { page: final(self).page, ..*old(self) }),
    {
        let per_page: usize = content_rows_exec(available_height);
        let total = line_count(&self.message);
        let pages = pages_of(total, per_page);
        if pages > 1 {
            self.page = (self.page + (pages - 1)) % pages;
            proof {
                vstd::arithmetic::div_mod::lemma_add_mod_noop(old(self).page as int, pages - 1, pages as int);
                vstd::arithmetic::div_mod::lemma_small_mod((pages - 1) as nat, pages as nat);
            }
        }
    }
}

/// Moving back undoes moving forward, and moving forward undoes moving
/// back, on any page of a dialog.
pub proof fn lemma_pages_round_trip(page: nat, pages: nat)
    requires
        page < pages,
    ensures
        prev_page_of(next_page_of(page, pages), pages) == page,
        next_page_of(prev_page_of(page, pages), pages) == page,
{
    if pages > 1 {
        if page + 1 < pages {
            vstd::arithmetic::div_mod::lemma_small_mod((page + 1) as nat, pages);
        } else {
            vstd::arithmetic::div_mod::lemma_mod_self_0(pages as int);
        }
        vstd::arithmetic::div_mod::lemma_mod_add_multiples_vanish(page as int, pages as int);
        vstd::arithmetic::div_mod::lemma_small_mod(page, pages);
        vstd::arithmetic::div_mod::lemma_small_mod((pages - 1) as nat, pages);
        if page > 0 {
            vstd::arithmetic::div_mod::lemma_mod_add_multiples_vanish((page - 1) as int, pages as int);
            vstd::arithmetic::div_mod::lemma_small_mod((page - 1) as nat, pages);
        }
    }
}

/// The icon shown for a path: the folder icon for a directory, otherwise
/// the icon of its extension, or the default icon.
pub open spec fn icon_for(path: Seq<char>, is_dir: bool) -> Seq<char> {
    if is_dir {
        "📁"@
    } else {
        match extension_of(path) {
            Some(e) => match icon_lookup(icon_table(), e) {
                Some(v) => v,
                None => "📄"@,
            },
            None => "📄"@,
        }
    }
}

/// The icon of the first entry with key `k`.
pub open spec fn icon_lookup(t: Seq<(Seq<char>, Seq<char>)>, k: Seq<char>) -> Option<Seq<char>>
    decreases t.len(),
{
    if t.len() == 0 {
        None
    } else if t[0].0 == k {
        Some(t[0].1)
    } else {
        icon_lookup(t.drop_first(), k)
    }
}

/// The list of files and folders.
pub struct FileList;

impl FileList {
    /// The file list.
    pub fn new() -> Self {
        FileList
    }

    /// The icon shown for a path that is a directory or not (see `icon_for`).
    pub fn get_icon(path: &str, is_dir: bool) -> (r: &'static str)
        ensures
            r@ == icon_for(path@, is_dir),
    {
        if is_dir {
            return "📁";
        }
        let table: [(&str, &str); 92] = [
            ("folder", "📁"),
            ("folder_open", "📂"),
            ("txt", "📄"),
            ("md", "📝"),
            ("markdown", "📝"),
            ("rst", "📝"),
            ("rs", "🦀"),
            ("py", "🐍"),
            ("js", "🟨"),
            ("jsx", "⚛️"),
            ("ts", "🔷"),
            ("tsx", "🔷"),
            ("html", "🌐"),
            ("htm", "🌐"),
            ("css", "🎨"),
            ("scss", "🎨"),
            ("less", "🎨"),
            ("json", "📋"),
            ("toml", "⚙️"),
            ("yaml", "⚙️"),
            ("yml", "⚙️"),
            ("xml", "📋"),
            ("c", "🔧"),
            ("cpp", "🔧"),
            ("h", "🔧"),
            ("hpp", "🔧"),
            ("go", "🔹"),
            ("java", "☕"),
            ("class", "☕"),
            ("rb", "💎"),
            ("php", "🐘"),
            ("sh", "🐚"),
            ("bash", "🐚"),
            ("zsh", "🐚"),
            ("fish", "🐚"),
            ("bat", "🖥️"),
            ("cmd", "🖥️"),
            ("ps1", "🖥️"),
            ("sql", "🗄️"),
            ("db", "🗄️"),
            ("sqlite", "🗄️"),
            ("config", "⚙️"),
            ("conf", "⚙️"),
            ("ini", "⚙️"),
            ("env", "⚙️"),
            ("exe", "⚡"),
            ("dll", "⚡"),
            ("so", "⚡"),
            ("o", "⚡"),
            ("bin", "⚡"),
            ("zip", "📦"),
            ("tar", "📦"),
            ("gz", "📦"),
            ("rar", "📦"),
            ("7z", "📦"),
            ("jpg", "🖼️"),
            ("jpeg", "🖼️"),
            ("png", "🖼️"),
            ("gif", "🖼️"),
            ("bmp", "🖼️"),
            ("svg", "🖼️"),
            ("webp", "🖼️"),
            ("ico", "🖼️"),
            ("pdf", "📕"),
            ("doc", "📘"),
            ("docx", "📘"),
            ("xls", "📗"),
            ("xlsx", "📗"),
            ("ppt", "📙"),
            ("pptx", "📙"),
            ("mp3", "🎵"),
            ("wav", "🎵"),
            ("ogg", "🎵"),
            ("flac", "🎵"),
            ("mp4", "🎬"),
            ("avi", "🎬"),
            ("mkv", "🎬"),
            ("mov", "🎬"),
            ("webm", "🎬"),
            ("git", "🔄"),
            ("gitignore", "🔄"),
            ("gitmodules", "🔄"),
            ("bashrc", "⚙️"),
            ("zshrc", "⚙️"),
            ("vimrc", "⚙️"),
            ("npmrc", "⚙️"),
            ("package.json", "📦"),
            ("Cargo.toml", "📦"),
            ("Cargo.lock", "🔒"),
            ("Gemfile", "💎"),
            ("requirements.txt", "🐍"),
            ("default", "📄")
        ];
        proof {
            assert(table@.map_values(|e: (&str, &str)| (e.0@, e.1@)) =~= icon_table());
        }
        match extension(path) {
            Some(e) => {
                let ghost tv = table@.map_values(|x: (&str, &str)| (x.0@, x.1@));
                let mut i: usize = 0;
                proof {
                    assert(tv.skip(0) =~= tv);
                }
                while i < table.len()
                    invariant
                        i <= table@.len(),
                        tv == table@.map_values(|x: (&str, &str)| (x.0@, x.1@)),
                        tv == icon_table(),
                        extension_of(path@) == Some(e@),
                        !is_dir,
                        icon_lookup(tv, e@) == icon_lookup(tv.skip(i as int), e@),
                    decreases table@.len() - i,
                {
                    proof {
                        assert(tv.skip(i as int)[0] == tv[i as int]);
                        assert(tv[i as int] == (table@[i as int].0@, table@[i as int].1@));
                        assert(tv.skip(i as int).drop_first() =~= tv.skip(i + 1));
                    }
                    if str_eq(table[i].0, e.as_str()) {
                        return table[i].1;
                    }
                    i = i + 1;
                }
                proof {
                    assert(tv.skip(table@.len() as int) =~= Seq::<(Seq<char>, Seq<char>)>::empty());
                }
                "📄"
            },
            None => "📄",
        }
    }
}

/// The line of a listed path: indented two spaces per level below the
/// current directory (one level less than its depth), then either the
/// folder icon and `../` for a parent entry, or the selection box, the icon
/// and the name (`???` when the path has none), with `/` after a directory.
pub open spec fn item_line(path: Seq<char>, current: Seq<Seq<char>>, selected: bool, is_dir: bool) -> Seq<char> {
    let pc = components(path);
    let depth: nat = match strip_prefix_of(pc, current) {
        Some(r) => if r.len() > 0 { (r.len() - 1) as nat } else { 0 },
        None => 0,
    };
    let indent = repeat_text("  "@, depth);
    if pc.len() > 0 && pc.last() == seq!['.', '.'] {
        indent + "📁"@ + "   ../"@
    } else {
        let name = match file_name_of(pc) {
            Some(n) => n,
            None => "???"@,
        };
        indent + (if selected { "[X] "@ } else { "[ ] "@ }) + icon_for(path, is_dir) + " "@ + name
            + if is_dir { "/"@ } else { seq![] }
    }
}

/// `t` repeated `n` times.
pub open spec fn repeat_text(t: Seq<char>, n: nat) -> Seq<char>
    decreases n,
{
    if n == 0 {
        seq![]
    } else {
        repeat_text(t, (n - 1) as nat) + t
    }
}

impl FileList {
    /// The line shown for a listed path (see `item_line`).
    pub fn display_line(path: &str, current_dir: &str, selected: bool, is_dir: bool) -> (r: String)
        ensures
            r@ == item_line(path@, components(current_dir@), selected, is_dir),
    {
        let pc = parse_components(path);
        let cc = parse_components(current_dir);
        proof {
            assert(comps_view(pc@) =~= components(path@));
            assert(comps_view(cc@) =~= components(current_dir@));
        }
        let depth: usize = match strip_parsed(&pc, &cc) {
            Some(r) => if r.len() > 0 { r.len() - 1 } else { 0 },
            None => 0,
        };
        let mut out: Vec<char> = Vec::new();
        let mut k: usize = 0;
        while k < depth
            invariant
                k <= depth,
                out@ == repeat_text("  "@, k as nat),
            decreases depth - k,
        {
            push_str(&mut out, "  ");
            k = k + 1;
        }
        let n = pc.len();
        let dots = ['.', '.'];
        proof {
            assert(dots@ =~= seq!['.', '.']);
        }
        if n > 0 && chars_eq(pc[n - 1].as_slice(), dots.as_slice()) {
            proof {
                assert(comps_view(pc@).last() == pc@[n - 1]@);
            }
            push_str(&mut out, "📁");
            push_str(&mut out, "   ../");
            proof {
                assert(out@ =~= item_line(path@, components(current_dir@), selected, is_dir));
            }
            return chars_to_string(out.as_slice());
        }
        proof {
            if n > 0 {
                assert(comps_view(pc@).last() == pc@[n - 1]@);
            }
        }
        if selected {
            push_str(&mut out, "[X] ");
        } else {
            push_str(&mut out, "[ ] ");
        }
        push_str(&mut out, Self::get_icon(path, is_dir));
        push_str(&mut out, " ");
        match file_name_comps(&pc) {
            Some(name) => push_chars(&mut out, name.as_slice()),
            None => push_str(&mut out, "???"),
        }
        if is_dir {
            push_str(&mut out, "/");
        }
        proof {
            assert(out@ =~= item_line(path@, components(current_dir@), selected, is_dir));
        }
        chars_to_string(out.as_slice())
    }
}

/// The header of the interface.
pub struct HeaderView {}

/// The title of the header.
pub open spec fn header_title(current_dir: Seq<char>) -> Seq<char> {
    " AIBundle v"@ + VERSION@ + " - "@ + current_dir + " "@
}

/// The search line of the header, with the cursor block shown or not.
pub open spec fn search_line(query: Seq<char>, cursor_shown: bool) -> Seq<char> {
    "Search: "@ + query + (if cursor_shown { "█"@ } else { " "@ }) + " (Press / to finish, ESC to cancel)"@
}

impl HeaderView {
    /// The header.
    pub fn new() -> Self {
        HeaderView {}
    }

    /// The header's title for the current directory.
    pub fn title(current_dir: &str) -> (r: String)
        ensures
            r@ == header_title(current_dir@),
    {
        let mut out: Vec<char> = Vec::new();
        push_str(&mut out, " AIBundle v");
        push_str(&mut out, VERSION);
        push_str(&mut out, " - ");
        push_str(&mut out, current_dir);
        push_str(&mut out, " ");
        proof {
            assert(out@ =~= header_title(current_dir@));
        }
        chars_to_string(out.as_slice())
    }

    /// The header's search line.
    pub fn search_text(query: &str, cursor_shown: bool) -> (r: String)
        ensures
            r@ == search_line(query@, cursor_shown),
    {
        let mut out: Vec<char> = Vec::new();
        push_str(&mut out, "Search: ");
        push_str(&mut out, query);
        if cursor_shown {
            push_str(&mut out, "█");
        } else {
            push_str(&mut out, " ");
        }
        push_str(&mut out, " (Press / to finish, ESC to cancel)");
        proof {
            assert(out@ =~= search_line(query@, cursor_shown));
        }
        chars_to_string(out.as_slice())
    }
}

/// The status bar of the interface.
pub struct StatusBar;

/// `x` for a switch that is on, a space otherwise.
pub open spec fn mark(on: bool) -> Seq<char> {
    if on { "x"@ } else { " "@ }
}

/// The text of the status bar.
pub open spec fn status_line(
    item_count: nat,
    selected_count: nat,
    is_counting: bool,
    default_ignores: bool,
    gitignore: bool,
    binary: bool,
    format: OutputFormat,
    line_numbers: bool,
) -> Seq<char> {
    let selection = if is_counting {
        "("@ + decimal(selected_count) + " selected, ...adding more)"@
    } else {
        "("@ + decimal(selected_count) + " selected)"@
    };
    " "@ + decimal(item_count) + " items "@ + selection
        + " - Space: select, Enter: open dir, c: copy, i: ignores ["@ + mark(default_ignores)
        + "], g: gitignore ["@ + mark(gitignore) + "], b: binary ["@ + mark(binary) + "], f: format ["@
        + format_display(format) + "], n: line numbers ["@ + mark(line_numbers) + "], /: search, q: quit "@
}

/// Appends `mark(on)`.
fn push_mark(out: &mut Vec<char>, on: bool)
    ensures
        final(out)@ == old(out)@ + mark(on),
{
    if on {
        push_str(out, "x");
    } else {
        push_str(out, " ");
    }
}

impl StatusBar {
    /// The status bar.
    pub fn new() -> Self {
        StatusBar
    }

    /// The status bar's text (see `status_line`).
    pub fn status_text(
        item_count: usize,
        selected_count: usize,
        is_counting: bool,
        default_ignores: bool,
        gitignore: bool,
        binary: bool,
        format: OutputFormat,
        line_numbers: bool,
    ) -> (r: String)
        ensures
            r@ == status_line(item_count as nat, selected_count as nat, is_counting, default_ignores, gitignore, binary, format, line_numbers),
    {
        let mut out: Vec<char> = Vec::new();
        push_str(&mut out, " ");
        push_decimal(&mut out, item_count);
        push_str(&mut out, " items ");
        push_str(&mut out, "(");
        push_decimal(&mut out, selected_count);
        if is_counting {
            push_str(&mut out, " selected, ...adding more)");
        } else {
            push_str(&mut out, " selected)");
        }
        push_str(&mut out, " - Space: select, Enter: open dir, c: copy, i: ignores [");
        push_mark(&mut out, default_ignores);
        push_str(&mut out, "], g: gitignore [");
        push_mark(&mut out, gitignore);
        push_str(&mut out, "], b: binary [");
        push_mark(&mut out, binary);
        push_str(&mut out, "], f: format [");
        push_str(&mut out, format.display_name());
        push_str(&mut out, "], n: line numbers [");
        push_mark(&mut out, line_numbers);
        push_str(&mut out, "], /: search, q: quit ");
        proof {
            assert(out@ =~= status_line(item_count as nat, selected_count as nat, is_counting, default_ignores, gitignore, binary, format, line_numbers));
        }
        chars_to_string(out.as_slice())
    }
}

} // verus!
